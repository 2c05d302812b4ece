//! The lexer: a forward-only cursor that cuts source text into tokens.
//!
//! The spec functions here describe one step of the lexer over the table of
//! characters and byte offsets of the source; [`Lexer::lex`] returns exactly
//! [`tokens_of`] its source.
use vstd::prelude::*;

pub mod chars;
pub mod token;

pub use token::{Token, TokenKind};

use crate::util::span::Span;
use crate::util::{slice_span, span_text};
use chars::{
    char_indices, char_table, identifier_class, is_identifier, is_number, is_quote, is_space,
    is_symbol, number_class, space_class, symbol_class,
};

verus! {

/// The class of the characters that continue a run: those of a number
/// where `number` holds, else those of an identifier.
pub open spec fn run_class(number: bool, c: char) -> bool {
    if number {
        number_class(c)
    } else {
        identifier_class(c)
    }
}

/// The first index at or after `j` whose character does not continue the run.
pub open spec fn scan_while(cs: Seq<(usize, char)>, j: int, number: bool) -> int
    decreases cs.len() - j,
{
    if j < 0 || j >= cs.len() {
        j
    } else if run_class(number, cs[j].1) {
        scan_while(cs, j + 1, number)
    } else {
        j
    }
}

/// Whether a string that opened at byte `start` goes on past character `j`:
/// it does unless `j` is a quote that no backslash precedes.
pub open spec fn string_goes_on(cs: Seq<(usize, char)>, start: usize, j: int) -> bool {
    cs[j].1 != '"' || (j >= 1 && cs[j - 1].1 == '\\') || start == cs[j].0
}

/// The index just past the character that closes a string opened at byte
/// `start`, scanning from `j`; the end of input where nothing closes it.
pub open spec fn scan_string(cs: Seq<(usize, char)>, start: usize, j: int) -> int
    decreases cs.len() - j,
{
    if j < 0 || j >= cs.len() {
        j
    } else if string_goes_on(cs, start, j) {
        scan_string(cs, start, j + 1)
    } else {
        j + 1
    }
}

/// The span from the character at `k` to the last one before `e`.
pub open spec fn run_span(cs: Seq<(usize, char)>, k: int, e: int) -> Span {
    Span { start: cs[k].0, end: if e > k + 1 { cs[e - 1].0 } else { cs[k].0 } }
}

/// The inside of a quoted span: both quotes cut off.
pub open spec fn string_inner(full: Span) -> Span {
    Span {
        start: if full.start < usize::MAX { (full.start + 1) as usize } else { full.start },
        end: if full.end >= 1 { (full.end - 1) as usize } else { full.end },
    }
}

/// One step of the lexer from character `k`, with `sp` the span it last
/// looked at: the token it makes (none at the end of input), the index it
/// stops at, and the span it looked at last.
pub open spec fn lex_step<'a>(src: &'a str, cs: Seq<(usize, char)>, k: int, sp: Span) -> (
    Option<Token<'a>>,
    int,
    Span,
)
    decreases cs.len() - k,
{
    if k < 0 || k >= cs.len() {
        (None, k, sp)
    } else {
        let c = cs[k].1;
        let here = Span { start: cs[k].0, end: cs[k].0 };
        if c == '"' {
            let e = scan_string(cs, cs[k].0, k + 1);
            let full = run_span(cs, k, e);
            (Some(Token { span: string_inner(full), source: src, kind: TokenKind::String }), e, full)
        } else if number_class(c) {
            let e = scan_while(cs, k + 1, true);
            let full = run_span(cs, k, e);
            (Some(Token { span: full, source: src, kind: TokenKind::Number }), e, full)
        } else if identifier_class(c) {
            let e = scan_while(cs, k + 1, false);
            let full = run_span(cs, k, e);
            (Some(Token { span: full, source: src, kind: TokenKind::Identifier }), e, full)
        } else if symbol_class(c) {
            (Some(Token { span: here, source: src, kind: TokenKind::Symbol }), k + 1, here)
        } else if space_class(c) {
            lex_step(src, cs, k + 1, here)
        } else {
            (Some(Token { span: here, source: src, kind: TokenKind::Unknown }), k + 1, here)
        }
    }
}

/// Every token that the lexer makes from character `k` on.
pub open spec fn tokens_from<'a>(src: &'a str, cs: Seq<(usize, char)>, k: int, sp: Span) -> Seq<
    Token<'a>,
>
    decreases cs.len() - k,
{
    let (t, k2, sp2) = lex_step(src, cs, k, sp);
    match t {
        Some(t) => if k < k2 <= cs.len() {
            seq![t] + tokens_from(src, cs, k2, sp2)
        } else {
            seq![]
        },
        None => seq![],
    }
}

/// Every token of `src`, in order.
pub open spec fn tokens_of<'a>(src: &'a str) -> Seq<Token<'a>> {
    tokens_from(src, char_table(src@), 0, Span { start: 0, end: 0 })
}

proof fn lemma_scan_while_bounds(cs: Seq<(usize, char)>, j: int, number: bool)
    requires
        0 <= j <= cs.len(),
    ensures
        j <= scan_while(cs, j, number) <= cs.len(),
    decreases cs.len() - j,
{
    if j < cs.len() && run_class(number, cs[j].1) {
        lemma_scan_while_bounds(cs, j + 1, number);
    }
}

/// A run whose characters all continue it, and that stops at the end or at
/// one that does not, ends where `scan_while` says.
proof fn lemma_scan_while_exact(cs: Seq<(usize, char)>, j: int, e: int, number: bool)
    requires
        0 <= j <= e <= cs.len(),
        forall|i: int| j <= i < e ==> run_class(number, #[trigger] cs[i].1),
        e < cs.len() ==> !run_class(number, cs[e].1),
    ensures
        scan_while(cs, j, number) == e,
    decreases e - j,
{
    if j < e {
        lemma_scan_while_exact(cs, j + 1, e, number);
    }
}

/// A scan that goes on past every character before its last one, and stops
/// at that one or at the end of input, ends where `scan_string` says.
proof fn lemma_scan_string_exact(cs: Seq<(usize, char)>, start: usize, j: int, e: int)
    requires
        0 <= j <= e <= cs.len(),
        forall|i: int| j <= i < e - 1 ==> #[trigger] string_goes_on(cs, start, i),
        e == j ==> j == cs.len(),
        e > j ==> (!string_goes_on(cs, start, e - 1) || e == cs.len()),
    ensures
        scan_string(cs, start, j) == e,
    decreases e - j,
{
    if j < e {
        if j < e - 1 {
            lemma_scan_string_exact(cs, start, j + 1, e);
        } else if string_goes_on(cs, start, j) {
            assert(scan_string(cs, start, j + 1) == j + 1);
        }
    }
}

proof fn lemma_scan_string_bounds(cs: Seq<(usize, char)>, start: usize, j: int)
    requires
        0 <= j <= cs.len(),
    ensures
        j <= scan_string(cs, start, j) <= cs.len(),
    decreases cs.len() - j,
{
    if j < cs.len() && string_goes_on(cs, start, j) {
        lemma_scan_string_bounds(cs, start, j + 1);
    }
}

/// A step that makes a token moves forward, and never past the end.
pub proof fn lemma_lex_step_progress<'a>(src: &'a str, cs: Seq<(usize, char)>, k: int, sp: Span)
    requires
        0 <= k <= cs.len(),
    ensures
        k <= lex_step(src, cs, k, sp).1 <= cs.len(),
        lex_step(src, cs, k, sp).0 is Some ==> k < lex_step(src, cs, k, sp).1,
    decreases cs.len() - k,
{
    if k < cs.len() {
        let c = cs[k].1;
        lemma_scan_string_bounds(cs, cs[k].0, k + 1);
        lemma_scan_while_bounds(cs, k + 1, true);
        lemma_scan_while_bounds(cs, k + 1, false);
        if c != '"' && !number_class(c) && !identifier_class(c) && !symbol_class(c) && space_class(
            c,
        ) {
            lemma_lex_step_progress(src, cs, k + 1, Span { start: cs[k].0, end: cs[k].0 });
        }
    }
}

/// Whether a string goes on past `c`, the character that `it` took last.
fn string_goes_on_at(c: char, it: &LexerIter) -> (r: bool)
    requires
        it.wf(),
    ensures
        r == (c != '"' || (it.pos >= 2 && it.chars@[it.pos - 2].1 == '\\') || it.span.start
            == it.span.end),
{
    !is_quote(c) || it.follows_backslash() || it.span.is_point()
}

/// Whether a number goes on with `c`.
fn number_goes_on(c: char, _it: &LexerIter) -> (r: bool)
    ensures
        r == number_class(c),
{
    is_number(c)
}

/// Whether an identifier goes on with `c`.
fn identifier_goes_on(c: char, _it: &LexerIter) -> (r: bool)
    ensures
        r == identifier_class(c),
{
    is_identifier(c)
}

/// A lexer over one source text.
#[derive(Clone, Copy, Debug)]
pub struct Lexer<'a> {
    pub source: &'a str,
}

impl<'a> Lexer<'a> {
    pub fn new(source: &'a str) -> (r: Lexer<'a>)
        ensures
            r.source == source,
    {
        Lexer { source }
    }

    /// Every token of the source, in order.
    pub fn lex(self) -> (r: Vec<Token<'a>>)
        ensures
            r@ == tokens_of(self.source),
    {
        let mut it = self.into_iter();
        let mut out: Vec<Token<'a>> = Vec::new();
        loop
            invariant
                it.wf(),
                it.source == self.source,
                out@ + tokens_from(it.source, it.chars@, it.pos as int, it.span) == tokens_of(
                    self.source,
                ),
            decreases it.chars@.len() - it.pos,
        {
            let ghost k = it.pos as int;
            let ghost sp = it.span;
            proof {
                lemma_lex_step_progress(it.source, it.chars@, k, sp);
            }
            match it.next() {
                Some(t) => {
                    proof {
                        assert(tokens_from(it.source, it.chars@, k, sp) == seq![t] + tokens_from(
                            it.source,
                            it.chars@,
                            it.pos as int,
                            it.span,
                        ));
                    }
                    let ghost before = out@;
                    out.push(t);
                    proof {
                        assert(out@ == before + seq![t]);
                        assert(before + (seq![t] + tokens_from(
                            it.source,
                            it.chars@,
                            it.pos as int,
                            it.span,
                        )) =~= out@ + tokens_from(it.source, it.chars@, it.pos as int, it.span));
                    }
                },
                None => {
                    return out;
                },
            }
        }
    }

    /// A cursor over the tokens of the source, from its start.
    pub fn into_iter(self) -> (r: LexerIter<'a>)
        ensures
            r.wf(),
            r.source == self.source,
            r.pos == 0,
            r.span == Span::new(0, 0),
    {
        LexerIter::new(self.source, Span::new(0, 0))
    }
}

/// A forward-only cursor that makes the tokens of a source text one by one.
#[derive(Clone, Debug)]
pub struct LexerIter<'a> {
    pub source: &'a str,
    /// Each character of `source` with its byte offset.
    pub chars: Vec<(usize, char)>,
    /// The index in `chars` of the next character to read.
    pub pos: usize,
    /// The span that the cursor looked at last.
    pub span: Span,
}

impl<'a> LexerIter<'a> {
    pub open spec fn wf(&self) -> bool {
        &&& self.chars@ == char_table(self.source@)
        &&& self.pos <= self.chars@.len()
    }

    /// The state of `lex_until` after it has taken character `j`.
    pub open spec fn until_state(&self, j: int) -> LexerIter<'a> {
        LexerIter {
            source: self.source,
            chars: self.chars,
            pos: (j + 1) as usize,
            span: Span { start: self.span.start, end: self.chars@[j].0 },
        }
    }

    /// The state of `lex_while` when it looks at character `j`.
    pub open spec fn while_state(&self, j: int) -> LexerIter<'a> {
        LexerIter {
            source: self.source,
            chars: self.chars,
            pos: j as usize,
            span: Span {
                start: self.span.start,
                end: if j > self.pos { self.chars@[j - 1].0 } else { self.span.end },
            },
        }
    }

    /// A cursor at the start of `source` that last looked at `span`.
    pub fn new(source: &'a str, span: Span) -> (r: LexerIter<'a>)
        ensures
            r.wf(),
            r.source == source,
            r.pos == 0,
            r.span == span,
    {
        let chars = char_indices(source);
        LexerIter { source, chars, pos: 0, span }
    }

    /// The text of the span that the cursor looked at last.
    pub fn value(&self) -> (r: &'a str)
        ensures
            r@ == span_text(self.source@, self.span),
    {
        slice_span(self.source, self.span)
    }

    /// The character in the byte just before the end of the current span,
    /// where that byte is a whole character.
    pub open spec fn previous_char(&self) -> Option<char> {
        if self.span.end == 0 {
            None
        } else {
            let t = span_text(
                self.source@,
                Span { start: (self.span.end - 1) as usize, end: (self.span.end - 1) as usize },
            );
            if t.len() > 0 {
                Some(t[0])
            } else {
                None
            }
        }
    }

    /// Whether the character before the current position is `token`.
    pub fn previous_token_is(&self, token: char) -> (r: bool)
        ensures
            r == (self.previous_char() == Some(token)),
    {
        match self.previous_token() {
            Some(c) => c == token,
            None => false,
        }
    }

    /// The character just before the current position: none at the very
    /// start, or where that character takes more than one byte.
    pub fn previous_token(&self) -> (r: Option<char>)
        ensures
            r == self.previous_char(),
    {
        if self.span.end == 0 {
            return None;
        }
        let span = self.span.end_point() - Span::new(1, 1);
        let t = slice_span(self.source, span);
        if t.is_empty() {
            None
        } else {
            Some(t.get_char(0))
        }
    }

    /// Takes characters up to and including the first for which
    /// `predicate` says no, or up to the end of input.
    pub fn lex_until(&mut self, predicate: impl Fn(char, &LexerIter<'a>) -> bool)
        requires
            old(self).wf(),
            forall|c: char, it: LexerIter<'a>| it.wf() ==> #[trigger] predicate.requires((c, &it)),
        ensures
            final(self).wf(),
            final(self).source == old(self).source,
            final(self).chars == old(self).chars,
            final(self).span.start == old(self).span.start,
            old(self).pos <= final(self).pos,
            final(self).pos == old(self).pos ==> old(self).pos == old(self).chars@.len(),
            forall|j: int|
                old(self).pos <= j < final(self).pos - 1 ==> predicate.ensures(
                    (old(self).chars@[j].1, &old(self).until_state(j)),
                    true,
                ),
            final(self).pos > old(self).pos ==> {
                ||| predicate.ensures(
                    (old(self).chars@[final(self).pos - 1].1, &old(self).until_state(final(self).pos - 1)),
                    false,
                )
                ||| final(self).pos == old(self).chars@.len() && predicate.ensures(
                    (old(self).chars@[final(self).pos - 1].1, &old(self).until_state(final(self).pos - 1)),
                    true,
                )
            },
            final(self).span.end == if final(self).pos > old(self).pos {
                old(self).chars@[final(self).pos - 1].0
            } else {
                old(self).span.end
            },
    {
        let ghost start = *old(self);
        while self.pos < self.chars.len()
            invariant
                start == *old(self),
                self.wf(),
                self.source == start.source,
                self.chars == start.chars,
                self.span.start == start.span.start,
                start.pos <= self.pos,
                forall|c: char, it: LexerIter<'a>| it.wf() ==> #[trigger] predicate.requires((c, &it)),
                forall|j: int|
                    start.pos <= j < self.pos ==> predicate.ensures(
                        (start.chars@[j].1, &start.until_state(j)),
                        true,
                    ),
                self.span.end == if self.pos > start.pos {
                    start.chars@[self.pos - 1].0
                } else {
                    start.span.end
                },
            decreases self.chars@.len() - self.pos,
        {
            let (index, c) = self.chars[self.pos];
            self.span.end = index;
            self.pos = self.pos + 1;
            proof {
                assert(*self == start.until_state(self.pos - 1));
            }
            if !predicate(c, self) {
                return;
            }
        }
    }

    /// Takes characters while `predicate` says yes; the first for which it
    /// says no stays unread.
    pub fn lex_while(&mut self, predicate: impl Fn(char, &LexerIter<'a>) -> bool)
        requires
            old(self).wf(),
            forall|c: char, it: LexerIter<'a>| it.wf() ==> #[trigger] predicate.requires((c, &it)),
        ensures
            final(self).wf(),
            final(self).source == old(self).source,
            final(self).chars == old(self).chars,
            final(self).span.start == old(self).span.start,
            old(self).pos <= final(self).pos,
            forall|j: int|
                old(self).pos <= j < final(self).pos ==> predicate.ensures(
                    (old(self).chars@[j].1, &old(self).while_state(j)),
                    true,
                ),
            final(self).pos < old(self).chars@.len() ==> predicate.ensures(
                (old(self).chars@[final(self).pos as int].1, &old(self).while_state(final(self).pos as int)),
                false,
            ),
            final(self).span.end == if final(self).pos > old(self).pos {
                old(self).chars@[final(self).pos - 1].0
            } else {
                old(self).span.end
            },
    {
        let ghost start = *old(self);
        while self.pos < self.chars.len()
            invariant
                start == *old(self),
                self.wf(),
                self.source == start.source,
                self.chars == start.chars,
                self.span.start == start.span.start,
                start.pos <= self.pos,
                forall|c: char, it: LexerIter<'a>| it.wf() ==> #[trigger] predicate.requires((c, &it)),
                forall|j: int|
                    start.pos <= j < self.pos ==> predicate.ensures(
                        (start.chars@[j].1, &start.while_state(j)),
                        true,
                    ),
                self.span.end == if self.pos > start.pos {
                    start.chars@[self.pos - 1].0
                } else {
                    start.span.end
                },
            decreases self.chars@.len() - self.pos,
        {
            let (index, c) = self.chars[self.pos];
            proof {
                assert(*self == start.while_state(self.pos as int));
            }
            if !predicate(c, self) {
                return;
            }
            self.span.end = index;
            self.pos = self.pos + 1;
        }
    }

    /// Whether the character before the one last taken is a backslash.
    fn follows_backslash(&self) -> (r: bool)
        requires
            self.wf(),
        ensures
            r == (self.pos >= 2 && self.chars@[self.pos - 2].1 == '\\'),
    {
        self.pos >= 2 && self.chars[self.pos - 2].1 == '\\'
    }

    /// Reads a string whose opening quote was the last character taken.
    fn lex_string(&mut self) -> (r: Token<'a>)
        requires
            old(self).wf(),
            old(self).pos >= 1,
            old(self).span == Span::new_spec(
                old(self).chars@[old(self).pos - 1].0,
                old(self).chars@[old(self).pos - 1].0,
            ),
        ensures
            final(self).wf(),
            final(self).source == old(self).source,
            final(self).chars == old(self).chars,
            final(self).pos == scan_string(old(self).chars@, old(self).span.start, old(self).pos as int),
            final(self).span == run_span(old(self).chars@, old(self).pos - 1, final(self).pos as int),
            r == (Token {
                span: string_inner(final(self).span),
                source: old(self).source,
                kind: TokenKind::String,
            }),
    {
        let ghost cs = self.chars@;
        let ghost p0 = self.pos as int;
        let ghost start = self.span.start;
        let ghost s0 = *self;
        self.lex_until(string_goes_on_at);
        proof {
            let e = self.pos as int;
            assert forall|i: int| p0 <= i < e - 1 implies #[trigger] string_goes_on(cs, start, i) by {
                assert(string_goes_on_at.ensures((cs[i].1, &s0.until_state(i)), true));
            }
            if e > p0 {
                let st = s0.until_state(e - 1);
                if string_goes_on_at.ensures((cs[e - 1].1, &st), false) {
                    assert(!string_goes_on(cs, start, e - 1));
                }
            }
            lemma_scan_string_exact(cs, start, p0, e);
        }
        if self.span.start < usize::MAX && self.span.end >= 1 {
            Token::new_string(self.span, self.source).trim(1)
        } else {
            let inner_start = if self.span.start < usize::MAX {
                self.span.start + 1
            } else {
                self.span.start
            };
            let inner_end = if self.span.end >= 1 {
                self.span.end - 1
            } else {
                self.span.end
            };
            Token::new_string(Span::new(inner_start, inner_end), self.source)
        }
    }

    /// Reads an identifier whose first character was the last one taken.
    fn lex_identifier(&mut self) -> (r: Token<'a>)
        requires
            old(self).wf(),
            old(self).pos >= 1,
            old(self).span == Span::new_spec(
                old(self).chars@[old(self).pos - 1].0,
                old(self).chars@[old(self).pos - 1].0,
            ),
        ensures
            final(self).wf(),
            final(self).source == old(self).source,
            final(self).chars == old(self).chars,
            final(self).pos == scan_while(old(self).chars@, old(self).pos as int, false),
            final(self).span == run_span(old(self).chars@, old(self).pos - 1, final(self).pos as int),
            r == (Token { span: final(self).span, source: old(self).source, kind: TokenKind::Identifier }),
    {
        let ghost cs = self.chars@;
        let ghost p0 = self.pos as int;
        let ghost s0 = *self;
        self.lex_while(identifier_goes_on);
        proof {
            let e = self.pos as int;
            assert forall|i: int| p0 <= i < e implies run_class(false, #[trigger] cs[i].1) by {
                assert(identifier_goes_on.ensures((cs[i].1, &s0.while_state(i)), true));
            }
            if e < cs.len() {
                assert(identifier_goes_on.ensures((cs[e].1, &s0.while_state(e)), false));
            }
            lemma_scan_while_exact(cs, p0, e, false);
        }
        Token::new_identifier(self.span, self.source)
    }

    /// Reads a number whose first character was the last one taken.
    fn lex_number(&mut self) -> (r: Token<'a>)
        requires
            old(self).wf(),
            old(self).pos >= 1,
            old(self).span == Span::new_spec(
                old(self).chars@[old(self).pos - 1].0,
                old(self).chars@[old(self).pos - 1].0,
            ),
        ensures
            final(self).wf(),
            final(self).source == old(self).source,
            final(self).chars == old(self).chars,
            final(self).pos == scan_while(old(self).chars@, old(self).pos as int, true),
            final(self).span == run_span(old(self).chars@, old(self).pos - 1, final(self).pos as int),
            r == (Token { span: final(self).span, source: old(self).source, kind: TokenKind::Number }),
    {
        let ghost cs = self.chars@;
        let ghost p0 = self.pos as int;
        let ghost s0 = *self;
        self.lex_while(number_goes_on);
        proof {
            let e = self.pos as int;
            assert forall|i: int| p0 <= i < e implies run_class(true, #[trigger] cs[i].1) by {
                assert(number_goes_on.ensures((cs[i].1, &s0.while_state(i)), true));
            }
            if e < cs.len() {
                assert(number_goes_on.ensures((cs[e].1, &s0.while_state(e)), false));
            }
            lemma_scan_while_exact(cs, p0, e, true);
        }
        Token::new_number(self.span, self.source)
    }

    /// The next token, or none at the end of input. Whitespace is skipped.
    pub fn next(&mut self) -> (r: Option<Token<'a>>)
        requires
            old(self).wf(),
        ensures
            final(self).wf(),
            final(self).source == old(self).source,
            final(self).chars == old(self).chars,
            (r, final(self).pos as int, final(self).span) == lex_step(
                old(self).source,
                old(self).chars@,
                old(self).pos as int,
                old(self).span,
            ),
    {
        let ghost start = *old(self);
        loop
            invariant
                start == *old(self),
                self.wf(),
                self.source == start.source,
                self.chars == start.chars,
                lex_step(start.source, start.chars@, start.pos as int, start.span) == lex_step(
                    self.source,
                    self.chars@,
                    self.pos as int,
                    self.span,
                ),
            decreases self.chars@.len() - self.pos,
        {
            if self.pos >= self.chars.len() {
                return None;
            }
            let (index, c) = self.chars[self.pos];
            self.pos = self.pos + 1;
            self.span = Span::new(index, index);
            if is_quote(c) {
                return Some(self.lex_string());
            } else if is_number(c) {
                return Some(self.lex_number());
            } else if is_identifier(c) {
                return Some(self.lex_identifier());
            } else if is_symbol(c) {
                return Some(Token::new_symbol(self.span, self.source));
            } else if !is_space(c) {
                return Some(Token::new_unknown(self.span, self.source));
            }
        }
    }
}

} // verus!
