use vstd::prelude::*;

use crate::lexer::token::{Token, TokenKind};
use crate::util::span::Span;

verus! {

/// Why a parse failed.
#[derive(Debug, Clone, PartialEq)]
pub enum ParseError<'a> {
    /// Input ended while a value, key, delimiter or separator was expected;
    /// with the span of the last token that began a value.
    UnexpectedEndOfFile(Span),
    /// A token that no value or key can start with.
    InvalidToken(Token<'a>),
    /// The token found, and the symbol that was expected in its place.
    UnexpectedToken(Token<'a>, Token<'a>),
}

/// A parse error as mathematics: an expected token is the symbol it holds.
pub enum Failure<'a> {
    EndOfFile(Span),
    Invalid(Token<'a>),
    Unexpected(Token<'a>, char),
}

/// Whether `e` is the error that `f` describes.
pub open spec fn error_matches<'a>(e: ParseError<'a>, f: Failure<'a>) -> bool {
    match (e, f) {
        (ParseError::UnexpectedEndOfFile(s), Failure::EndOfFile(t)) => s == t,
        (ParseError::InvalidToken(x), Failure::Invalid(y)) => x == y,
        (ParseError::UnexpectedToken(found, expected), Failure::Unexpected(y, c)) => {
            &&& found == y
            &&& expected.kind == TokenKind::Symbol
            &&& expected.text() == seq![c]
        },
        _ => false,
    }
}

} // verus!
