//! Spans, slicing of source text by span, and the one-call entry point
//! [`from_str`].
use vstd::prelude::*;
use vstd::utf8::{decode_utf8, encode_utf8, is_char_boundary};
use vstd::string::StringSliceAdditionalSpecFns;

pub mod span;

use span::Span;
use crate::parser::{ParseResult, Parser, parse_result_matches, parse_text};

verus! {

broadcast use vstd::utf8::encode_utf8_valid_utf8, vstd::utf8::encode_utf8_decode_utf8;

/// Whether `bytes[start..end]` is a slice that falls on character boundaries.
pub open spec fn slice_ok(bytes: Seq<u8>, start: int, end: int) -> bool {
    &&& 0 <= start <= end <= bytes.len()
    &&& is_char_boundary(bytes, start)
    &&& is_char_boundary(bytes, end)
}

/// The text that `span` covers in `src`: the characters of the bytes
/// `start..=end`, or nothing when that range is out of bounds or cuts a
/// character in two.
pub open spec fn span_text(src: Seq<char>, span: Span) -> Seq<char> {
    let bytes = encode_utf8(src);
    if span.end < usize::MAX && slice_ok(bytes, span.start as int, span.end + 1) {
        decode_utf8(bytes.subrange(span.start as int, span.end + 1))
    } else {
        Seq::empty()
    }
}

proof fn lemma_suffix_boundary(bytes: Seq<u8>, s: int, k: int)
    requires
        vstd::utf8::valid_utf8(bytes),
        0 <= s <= bytes.len(),
        is_char_boundary(bytes, s),
        0 <= k <= bytes.len() - s,
        is_char_boundary(bytes, s + k),
    ensures
        vstd::utf8::valid_utf8(bytes.subrange(s, bytes.len() as int)),
        is_char_boundary(bytes.subrange(s, bytes.len() as int), k),
{
    let rest = bytes.subrange(s, bytes.len() as int);
    vstd::utf8::valid_utf8_split(bytes, s);
    vstd::utf8::is_char_boundary_start_end_of_seq(rest);
    if k < rest.len() {
        vstd::utf8::is_char_boundary_iff_not_is_continuation_byte(rest, k);
        vstd::utf8::is_char_boundary_iff_not_is_continuation_byte(bytes, s + k);
    }
}

/// The text of `source` at `span`, as `str::get` on the inclusive range
/// gives it, and the empty string where that finds no slice.
pub fn slice_span<'a>(source: &'a str, span: Span) -> (r: &'a str)
    ensures
        r@ == span_text(source@, span),
{
    let s = span.start;
    let e = span.end;
    let len = source.as_bytes().len();
    if e < usize::MAX && s <= e + 1 && e + 1 <= len && source.is_char_boundary(s)
        && source.is_char_boundary(e + 1) {
        let ghost bytes = source.spec_bytes();
        proof {
            lemma_suffix_boundary(bytes, s as int, e + 1 - s);
        }
        let (_, rest) = source.split_at(s);
        let (mid, _) = rest.split_at(e + 1 - s);
        proof {
            assert(mid.spec_bytes() =~= bytes.subrange(s as int, e + 1));
            assert(mid@ == decode_utf8(encode_utf8(mid@)));
        }
        mid
    } else {
        let r = "";
        proof {
            reveal_strlit("");
        }
        r
    }
}

/// Parses the first value of `content`.
pub fn from_str<'a>(content: &'a str) -> (r: ParseResult<'a>)
    ensures
        parse_result_matches(r, parse_text(content)),
{
    let mut parser = Parser::new(content);
    parser.parse()
}

} // verus!
