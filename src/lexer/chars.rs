//! How the lexer classifies characters.
use vstd::prelude::*;
use vstd::utf8::encode_utf8;

verus! {

/// Each character of `s` with the byte offset at which it starts.
pub open spec fn char_table(s: Seq<char>) -> Seq<(usize, char)> {
    Seq::new(s.len(), |i: int| (encode_utf8(s.take(i)).len() as usize, s[i]))
}

/// Relies on `str::char_indices`: every character of the string in order,
/// each with the byte offset where its encoding starts.
#[verifier::external_body]
pub(crate) fn char_indices(s: &str) -> (r: Vec<(usize, char)>)
    ensures
        r@ == char_table(s@),
{
    s.char_indices().collect()
}

/// Whether Unicode gives `c` a numeric general category (`Nd`, `Nl`, `No`).
pub uninterp spec fn unicode_numeric(c: char) -> bool;

/// Whether Unicode gives `c` the `Alphabetic` property or a numeric category.
pub uninterp spec fn unicode_alphanumeric(c: char) -> bool;

/// Whether Unicode gives `c` the `White_Space` property.
pub uninterp spec fn unicode_whitespace(c: char) -> bool;

/// Relies on `char::is_numeric`: its answer depends on the character alone.
#[verifier::external_body]
fn numeric(c: char) -> (r: bool)
    ensures
        r == unicode_numeric(c),
{
    c.is_numeric()
}

/// Relies on `char::is_alphanumeric`: its answer depends on the character alone.
#[verifier::external_body]
fn alphanumeric(c: char) -> (r: bool)
    ensures
        r == unicode_alphanumeric(c),
{
    c.is_alphanumeric()
}

/// Relies on `char::is_whitespace`: its answer depends on the character alone.
#[verifier::external_body]
fn whitespace(c: char) -> (r: bool)
    ensures
        r == unicode_whitespace(c),
{
    c.is_whitespace()
}

/// Whether `c` is in the ASCII range.
pub open spec fn is_ascii_char(c: char) -> bool {
    (c as u32) < 128
}

/// Whether `c` is one of `0` to `9`.
pub open spec fn is_ascii_digit(c: char) -> bool {
    48 <= (c as u32) <= 57
}

/// Whether `c` is one of `A` to `Z` or `a` to `z`.
pub open spec fn is_ascii_letter(c: char) -> bool {
    65 <= (c as u32) <= 90 || 97 <= (c as u32) <= 122
}

/// Characters that make up a number: digits, `.` and `-`.
pub open spec fn number_class(c: char) -> bool {
    c == '.' || c == '-' || if is_ascii_char(c) {
        is_ascii_digit(c)
    } else {
        unicode_numeric(c)
    }
}

/// Characters that make up an identifier: letters, digits and `_`.
pub open spec fn identifier_class(c: char) -> bool {
    c == '_' || if is_ascii_char(c) {
        is_ascii_digit(c) || is_ascii_letter(c)
    } else {
        unicode_alphanumeric(c)
    }
}

/// The structural characters, and the quote.
pub open spec fn symbol_class(c: char) -> bool {
    c == '{' || c == '}' || c == '[' || c == ']' || c == ',' || c == ':' || c == '"'
}

/// Characters that separate tokens and make none.
pub open spec fn space_class(c: char) -> bool {
    if is_ascii_char(c) {
        c == ' ' || 9 <= (c as u32) <= 13
    } else {
        unicode_whitespace(c)
    }
}

/// Whether `c` is the quote that opens and closes strings.
pub fn is_quote(c: char) -> (r: bool)
    ensures
        r == (c == '"'),
{
    c == '"'
}

/// Whether `c` belongs in a number. ASCII characters are classified here;
/// the others as Unicode says.
pub fn is_number(c: char) -> (r: bool)
    ensures
        r == number_class(c),
{
    if c == '.' || c == '-' {
        true
    } else if (c as u32) < 128 {
        '0' <= c && c <= '9'
    } else {
        numeric(c)
    }
}

/// Whether `c` belongs in an identifier.
pub fn is_identifier(c: char) -> (r: bool)
    ensures
        r == identifier_class(c),
{
    if c == '_' {
        true
    } else if (c as u32) < 128 {
        ('0' <= c && c <= '9') || ('A' <= c && c <= 'Z') || ('a' <= c && c <= 'z')
    } else {
        alphanumeric(c)
    }
}

/// Whether `c` is a structural character or the quote.
pub fn is_symbol(c: char) -> (r: bool)
    ensures
        r == symbol_class(c),
{
    c == '{' || c == '}' || c == '[' || c == ']' || c == ',' || c == ':' || is_quote(c)
}

/// Whether `c` is whitespace.
pub fn is_space(c: char) -> (r: bool)
    ensures
        r == space_class(c),
{
    if (c as u32) < 128 {
        c == ' ' || ('\t' <= c && c <= '\r')
    } else {
        whitespace(c)
    }
}

} // verus!
