use vstd::prelude::*;
use vstd::string::{StrSliceExecFns, StringSliceAdditionalSpecFns};
use vstd::std_specs::cmp::PartialEqSpec;
use vstd::utf8::{decode_utf8, encode_utf8};

use crate::util::span::Span;
use crate::util::{slice_span, span_text};

verus! {

broadcast use vstd::utf8::encode_utf8_valid_utf8, vstd::utf8::encode_utf8_decode_utf8;

/// What a [`Token`] is.
#[derive(Clone, Copy, PartialEq, Eq, Structural, Debug)]
pub enum TokenKind {
    /// Text between quotes (`"`).
    String,
    /// A run of digits, `.` and `-`.
    Number,
    /// One structural character: `{ } [ ] , :`.
    Symbol,
    /// A run of letters, digits and `_` outside quotes.
    Identifier,
    /// A character that no other kind takes.
    Unknown,
}

/// A lexical unit: a kind, and the span of the source text that it covers.
#[derive(Clone, Copy, Debug)]
pub struct Token<'a> {
    pub span: Span,
    pub source: &'a str,
    pub kind: TokenKind,
}

impl<'a> Token<'a> {
    /// The text this token stands for.
    pub open spec fn text(&self) -> Seq<char> {
        span_text(self.source@, self.span)
    }

    pub fn new(span: Span, source: &'a str, kind: TokenKind) -> (r: Token<'a>)
        ensures
            r == (Token { span, source, kind }),
    {
        Token { span, source, kind }
    }

    pub fn new_number(span: Span, source: &'a str) -> (r: Token<'a>)
        ensures
            r == (Token { span, source, kind: TokenKind::Number }),
    {
        Token::new(span, source, TokenKind::Number)
    }

    pub fn new_symbol(span: Span, source: &'a str) -> (r: Token<'a>)
        ensures
            r == (Token { span, source, kind: TokenKind::Symbol }),
    {
        Token::new(span, source, TokenKind::Symbol)
    }

    pub fn new_string(span: Span, source: &'a str) -> (r: Token<'a>)
        ensures
            r == (Token { span, source, kind: TokenKind::String }),
    {
        Token::new(span, source, TokenKind::String)
    }

    pub fn new_identifier(span: Span, source: &'a str) -> (r: Token<'a>)
        ensures
            r == (Token { span, source, kind: TokenKind::Identifier }),
    {
        Token::new(span, source, TokenKind::Identifier)
    }

    pub fn new_unknown(span: Span, source: &'a str) -> (r: Token<'a>)
        ensures
            r == (Token { span, source, kind: TokenKind::Unknown }),
    {
        Token::new(span, source, TokenKind::Unknown)
    }

    /// The text of the source that the span covers; empty where the span
    /// does not fall on a slice of it.
    pub fn value(&self) -> (r: &'a str)
        ensures
            r@ == self.text(),
    {
        slice_span(self.source, self.span)
    }

    /// The same token with its span shrunk by `offset` on both sides.
    pub fn trim(&self, offset: usize) -> (r: Token<'a>)
        requires
            self.span.start + offset <= usize::MAX,
            self.span.end >= offset,
        ensures
            r.span == Span::new_spec((self.span.start + offset) as usize, (self.span.end - offset) as usize),
            r.source == self.source,
            r.kind == self.kind,
    {
        let span = self.span.trim(offset);
        Token::new(span, self.source, self.kind)
    }

    /// A token that covers the whole of `value`, for comparisons where
    /// the position does not matter.
    pub fn test(value: &'a str, kind: TokenKind) -> (r: Token<'a>)
        ensures
            r.source == value,
            r.kind == kind,
            r.text() == value@,
    {
        let len = value.as_bytes().len();
        let end = if len == 0 { 0 } else { len - 1 };
        let r = Token::new(Span::new(0, end), value, kind);
        proof {
            let bytes = value.spec_bytes();
            vstd::utf8::is_char_boundary_start_end_of_seq(bytes);
            if len > 0 {
                assert(bytes.subrange(0, end + 1) =~= bytes);
                assert(decode_utf8(encode_utf8(value@)) == value@);
            } else {
                assert(value@.len() == 0) by {
                    if value@.len() > 0 {
                        vstd::utf8::encode_utf8_first_scalar(value@);
                    }
                }
            }
        }
        r
    }

    pub fn test_symbol(value: &'a str) -> (r: Token<'a>)
        ensures
            r.source == value,
            r.kind == TokenKind::Symbol,
            r.text() == value@,
    {
        Token::test(value, TokenKind::Symbol)
    }

    pub fn test_string(value: &'a str) -> (r: Token<'a>)
        ensures
            r.source == value,
            r.kind == TokenKind::String,
            r.text() == value@,
    {
        Token::test(value, TokenKind::String)
    }

    pub fn test_number(value: &'a str) -> (r: Token<'a>)
        ensures
            r.source == value,
            r.kind == TokenKind::Number,
            r.text() == value@,
    {
        Token::test(value, TokenKind::Number)
    }

    pub fn test_identifier(value: &'a str) -> (r: Token<'a>)
        ensures
            r.source == value,
            r.kind == TokenKind::Identifier,
            r.text() == value@,
    {
        Token::test(value, TokenKind::Identifier)
    }

    pub fn test_unknown(value: &'a str) -> (r: Token<'a>)
        ensures
            r.source == value,
            r.kind == TokenKind::Unknown,
            r.text() == value@,
    {
        Token::test(value, TokenKind::Unknown)
    }
}

/// Whether two strings hold the same characters, compared byte by byte.
pub fn same_text(a: &str, b: &str) -> (r: bool)
    ensures
        r == (a@ == b@),
{
    let x = a.as_bytes();
    let y = b.as_bytes();
    if x.len() != y.len() {
        proof {
            if a@ == b@ {
                assert(x@ == y@);
            }
        }
        return false;
    }
    let mut i: usize = 0;
    while i < x.len()
        invariant
            x@ == a.spec_bytes(),
            y@ == b.spec_bytes(),
            x@.len() == y@.len(),
            0 <= i <= x@.len(),
            forall|j: int| 0 <= j < i ==> x@[j] == y@[j],
        decreases x@.len() - i,
    {
        if x[i] != y[i] {
            proof {
                if a@ == b@ {
                    assert(x@ == y@);
                }
            }
            return false;
        }
        i = i + 1;
    }
    proof {
        assert(x@ =~= y@);
        assert(a@ == decode_utf8(encode_utf8(a@)));
        assert(b@ == decode_utf8(encode_utf8(b@)));
    }
    true
}

impl<'a> PartialEq for Token<'a> {
    /// Tokens are equal when their texts and kinds are, wherever they stand.
    fn eq(&self, other: &Token<'a>) -> (r: bool) {
        same_text(self.value(), other.value()) && self.kind == other.kind
    }
}

impl<'a> vstd::std_specs::cmp::PartialEqSpecImpl for Token<'a> {
    open spec fn obeys_eq_spec() -> bool {
        true
    }

    open spec fn eq_spec(&self, other: &Token<'a>) -> bool {
        self.text() == other.text() && self.kind == other.kind
    }
}

impl<'a> PartialEq<char> for Token<'a> {
    /// A token equals the character its text starts with.
    fn eq(&self, other: &char) -> (r: bool) {
        let v = self.value();
        if v.is_empty() {
            false
        } else {
            v.get_char(0) == *other
        }
    }
}

impl<'a> vstd::std_specs::cmp::PartialEqSpecImpl<char> for Token<'a> {
    open spec fn obeys_eq_spec() -> bool {
        true
    }

    open spec fn eq_spec(&self, other: &char) -> bool {
        self.text().len() > 0 && self.text()[0] == *other
    }
}

/// Two tokens with the same text are equal exactly when their kinds are,
/// wherever their spans place them.
pub proof fn lemma_token_equality(a: Token, b: Token)
    requires
        a.text() == b.text(),
    ensures
        a.eq_spec(&b) <==> a.kind == b.kind,
{
}

} // verus!
