use vstd::prelude::*;

verus! {

/// An inclusive range `[start, end]` of byte offsets into one source text.
#[derive(Clone, Copy, PartialEq, Eq, Structural, Default, Hash, Debug)]
pub struct Span {
    pub start: usize,
    pub end: usize,
}

impl Span {
    pub open spec fn new_spec(start: usize, end: usize) -> Span {
        Span { start, end }
    }

    #[verifier::when_used_as_spec(new_spec)]
    pub fn new(start: usize, end: usize) -> (r: Span)
        ensures
            r == Span::new_spec(start, end),
    {
        Span { start, end }
    }

    /// The inclusive range `start..=end`.
    pub fn range(&self) -> (r: core::ops::RangeInclusive<usize>)
        ensures
            r@.start == self.start,
            r@.end == self.end,
            !r@.exhausted,
    {
        self.start..=self.end
    }

    /// The zero-width span at the start of this one.
    pub fn start_point(&self) -> (r: Span)
        ensures
            r.start == self.start,
            r.end == self.start,
    {
        Span { start: self.start, end: self.start }
    }

    /// The zero-width span at the end of this one.
    pub fn end_point(&self) -> (r: Span)
        ensures
            r.start == self.end,
            r.end == self.end,
    {
        Span { start: self.end, end: self.end }
    }

    pub open spec fn spec_is_point(&self) -> bool {
        self.start == self.end
    }

    /// A span of zero width is a point.
    #[verifier::when_used_as_spec(spec_is_point)]
    pub fn is_point(&self) -> (r: bool)
        ensures
            r == self.spec_is_point(),
    {
        self.start == self.end
    }

    /// Shrinks the span by `offset` on both sides. The caller keeps both ends
    /// in range of `usize`.
    pub fn trim(&self, offset: usize) -> (r: Span)
        requires
            self.start + offset <= usize::MAX,
            self.end >= offset,
        ensures
            r.start == self.start + offset,
            r.end == self.end - offset,
    {
        Span::new(self.start + offset, self.end - offset)
    }

    /// The smallest span that encloses both `left` and `right`.
    pub fn from_span(left: Span, right: Span) -> (r: Span)
        ensures
            r.start == if left.start <= right.start { left.start } else { right.start },
            r.end == if left.end >= right.end { left.end } else { right.end },
    {
        let start = if left.start <= right.start { left.start } else { right.start };
        let end = if left.end >= right.end { left.end } else { right.end };
        Span::new(start, end)
    }

    /// The span `0..=0`, for values built without a source.
    pub fn test() -> (r: Span)
        ensures
            r.start == 0,
            r.end == 0,
    {
        Span::new(0, 0)
    }
}

impl core::ops::Add<usize> for Span {
    type Output = Span;

    /// Moves the end forward by `rhs`.
    fn add(self, rhs: usize) -> (r: Span) {
        Span { start: self.start, end: self.end + rhs }
    }
}

impl vstd::std_specs::ops::AddSpecImpl<usize> for Span {
    open spec fn obeys_add_spec() -> bool {
        true
    }

    open spec fn add_req(self, rhs: usize) -> bool {
        self.end + rhs <= usize::MAX
    }

    open spec fn add_spec(self, rhs: usize) -> Span {
        Span { start: self.start, end: (self.end + rhs) as usize }
    }
}

impl core::ops::Sub<usize> for Span {
    type Output = Span;

    /// Moves the end back by `rhs`.
    fn sub(self, rhs: usize) -> (r: Span) {
        Span { start: self.start, end: self.end - rhs }
    }
}

impl vstd::std_specs::ops::SubSpecImpl<usize> for Span {
    open spec fn obeys_sub_spec() -> bool {
        true
    }

    open spec fn sub_req(self, rhs: usize) -> bool {
        self.end >= rhs
    }

    open spec fn sub_spec(self, rhs: usize) -> Span {
        Span { start: self.start, end: (self.end - rhs) as usize }
    }
}

impl core::ops::Add<Span> for Span {
    type Output = Span;

    /// Adds both ends pointwise.
    fn add(self, rhs: Span) -> (r: Span) {
        Span { start: self.start + rhs.start, end: self.end + rhs.end }
    }
}

impl vstd::std_specs::ops::AddSpecImpl<Span> for Span {
    open spec fn obeys_add_spec() -> bool {
        true
    }

    open spec fn add_req(self, rhs: Span) -> bool {
        self.start + rhs.start <= usize::MAX && self.end + rhs.end <= usize::MAX
    }

    open spec fn add_spec(self, rhs: Span) -> Span {
        Span { start: (self.start + rhs.start) as usize, end: (self.end + rhs.end) as usize }
    }
}

impl core::ops::Sub<Span> for Span {
    type Output = Span;

    /// Subtracts both ends pointwise.
    fn sub(self, rhs: Span) -> (r: Span) {
        Span { start: self.start - rhs.start, end: self.end - rhs.end }
    }
}

impl vstd::std_specs::ops::SubSpecImpl<Span> for Span {
    open spec fn obeys_sub_spec() -> bool {
        true
    }

    open spec fn sub_req(self, rhs: Span) -> bool {
        self.start >= rhs.start && self.end >= rhs.end
    }

    open spec fn sub_spec(self, rhs: Span) -> Span {
        Span { start: (self.start - rhs.start) as usize, end: (self.end - rhs.end) as usize }
    }
}

} // verus!
