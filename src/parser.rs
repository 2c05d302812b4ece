//! The recursive-descent parser from tokens to [`Value`] trees.
//!
//! [`parse_value`] and its two companions state, token by token, what a
//! parse gives; the executable parser is proved to give exactly that.
use vstd::prelude::*;
use vstd::string::StrSliceExecFns;

pub mod error;

pub use error::{Failure, ParseError, error_matches};

use crate::lexer::token::{Token, TokenKind, same_text};
use crate::lexer::{Lexer, tokens_of};
use crate::util::span::Span;
use crate::value::{
    Item, Json, Literal, Value, element, elements_view, entries_view, find_entry, find_key,
    find_key_from, lemma_find_key_from, lookup,
};

verus! {

pub type ParseResult<'a> = Result<Value, ParseError<'a>>;

/// The outcome of parsing from a token index: the value, the index after
/// it and the span of the last token that began a value; or a failure.
pub enum Parsed<'a> {
    Done(Json, int, Span),
    Failed(Failure<'a>),
}

/// Whether `t` is the one-character symbol `c`.
pub open spec fn is_symbol(t: Token, c: char) -> bool {
    t.kind == TokenKind::Symbol && t.text() == seq![c]
}

/// The smallest span that encloses both.
pub open spec fn span_union(a: Span, b: Span) -> Span {
    Span {
        start: if a.start <= b.start { a.start } else { b.start },
        end: if a.end >= b.end { a.end } else { b.end },
    }
}

/// The value that a single token stands for, if any: numbers and strings
/// keep their text; the identifiers `true`, `false` and `null` are
/// keywords.
pub open spec fn scalar(t: Token) -> Option<Json> {
    match t.kind {
        TokenKind::Number => Some(Json::Number(t.span, t.text())),
        TokenKind::String => Some(Json::Literal(t.span, t.text())),
        TokenKind::Identifier => if t.text() == seq!['t', 'r', 'u', 'e'] {
            Some(Json::Bool(t.span, true))
        } else if t.text() == seq!['f', 'a', 'l', 's', 'e'] {
            Some(Json::Bool(t.span, false))
        } else if t.text() == seq!['n', 'u', 'l', 'l'] {
            Some(Json::Null(t.span))
        } else {
            None
        },
        _ => None,
    }
}

/// Stores `v` under the key: an entry with the same key text keeps its
/// place and key span and takes the new value; a new key goes last.
pub open spec fn insert_entry(
    es: Seq<(Span, Seq<char>, Json)>,
    key_span: Span,
    key: Seq<char>,
    v: Json,
) -> Seq<(Span, Seq<char>, Json)> {
    let m = find_key(es, key);
    if 0 <= m < es.len() {
        es.update(m, (es[m].0, es[m].1, v))
    } else {
        es.push((key_span, key, v))
    }
}

/// Parses one value from token `i`, with `pos` the span of the last token
/// that began a value.
pub open spec fn parse_value<'a>(toks: Seq<Token<'a>>, i: int, pos: Span) -> Parsed<'a>
    decreases toks.len() - i,
{
    if i < 0 || i >= toks.len() {
        Parsed::Failed(Failure::EndOfFile(pos))
    } else {
        let t = toks[i];
        if is_symbol(t, '{') {
            parse_members(toks, i + 1, t.span, t.span, Seq::empty(), true)
        } else if is_symbol(t, '[') {
            match parse_value(toks, i + 1, t.span) {
                Parsed::Done(v, k, p) => if i + 1 < k <= toks.len() {
                    parse_elements(toks, k, p, t.span, seq![v])
                } else {
                    Parsed::Failed(Failure::EndOfFile(p))
                },
                Parsed::Failed(e) => Parsed::Failed(e),
            }
        } else {
            match scalar(t) {
                Some(v) => Parsed::Done(v, i + 1, t.span),
                None => Parsed::Failed(Failure::Invalid(t)),
            }
        }
    }
}

/// Parses the rest of an object from token `j`, where a key is expected:
/// `open` is the span of its `{`, `es` the entries so far, and `first`
/// whether no entry has been read yet. A `}` where a key is expected closes
/// the object after a comma, and is an invalid token right after `{`.
pub open spec fn parse_members<'a>(
    toks: Seq<Token<'a>>,
    j: int,
    pos: Span,
    open: Span,
    es: Seq<(Span, Seq<char>, Json)>,
    first: bool,
) -> Parsed<'a>
    decreases toks.len() - j,
{
    if j < 0 || j >= toks.len() {
        Parsed::Failed(Failure::EndOfFile(pos))
    } else {
        let kt = toks[j];
        if kt.kind == TokenKind::Symbol {
            if !first && is_symbol(kt, '}') {
                Parsed::Done(Json::Object(span_union(open, kt.span), es), j + 1, pos)
            } else {
                Parsed::Failed(Failure::Invalid(kt))
            }
        } else if j + 1 >= toks.len() {
            Parsed::Failed(Failure::EndOfFile(pos))
        } else if !is_symbol(toks[j + 1], ':') {
            Parsed::Failed(Failure::Unexpected(toks[j + 1], ':'))
        } else {
            match parse_value(toks, j + 2, pos) {
                Parsed::Done(v, k, p) => {
                    let es2 = insert_entry(es, kt.span, kt.text(), v);
                    if k <= j + 1 || k >= toks.len() {
                        Parsed::Failed(Failure::EndOfFile(p))
                    } else if is_symbol(toks[k], '}') {
                        Parsed::Done(Json::Object(span_union(open, toks[k].span), es2), k + 1, p)
                    } else if is_symbol(toks[k], ',') {
                        parse_members(toks, k + 1, p, open, es2, false)
                    } else {
                        Parsed::Failed(Failure::Unexpected(toks[k], ','))
                    }
                },
                Parsed::Failed(e) => Parsed::Failed(e),
            }
        }
    }
}

/// Parses the rest of an array from token `k`, where a separator is
/// expected: `open` is the span of its `[` and `vs` the elements so far.
pub open spec fn parse_elements<'a>(
    toks: Seq<Token<'a>>,
    k: int,
    pos: Span,
    open: Span,
    vs: Seq<Json>,
) -> Parsed<'a>
    decreases toks.len() - k,
{
    if k < 0 || k >= toks.len() {
        Parsed::Failed(Failure::EndOfFile(pos))
    } else if is_symbol(toks[k], ']') {
        Parsed::Done(Json::Array(span_union(open, toks[k].span), vs), k + 1, pos)
    } else if !is_symbol(toks[k], ',') {
        Parsed::Failed(Failure::Unexpected(toks[k], ','))
    } else {
        match parse_value(toks, k + 1, pos) {
            Parsed::Done(v, k2, p) => if k + 1 < k2 <= toks.len() {
                parse_elements(toks, k2, p, open, vs.push(v))
            } else {
                Parsed::Failed(Failure::EndOfFile(p))
            },
            Parsed::Failed(e) => Parsed::Failed(e),
        }
    }
}

/// What parsing the whole of `src` from its start gives.
pub open spec fn parse_text<'a>(src: &'a str) -> Parsed<'a> {
    parse_value(tokens_of(src), 0, Span { start: 0, end: 0 })
}

/// Whether an executable result is the outcome `p`.
pub open spec fn result_matches<'a>(r: Result<(Value, usize, Span), ParseError<'a>>, p: Parsed<'a>) -> bool {
    match (r, p) {
        (Ok((v, k, s)), Parsed::Done(j, k2, s2)) => v@ == j && k == k2 && s == s2,
        (Err(e), Parsed::Failed(f)) => error_matches(e, f),
        _ => false,
    }
}

/// Whether a parse result is the outcome `p`.
pub open spec fn parse_result_matches<'a>(r: ParseResult<'a>, p: Parsed<'a>) -> bool {
    match (r, p) {
        (Ok(v), Parsed::Done(j, _, _)) => v@ == j,
        (Err(e), Parsed::Failed(f)) => error_matches(e, f),
        _ => false,
    }
}

/// Whether `t` is the one-character symbol `c`.
fn symbol_is(t: &Token, c: char) -> (r: bool)
    ensures
        r == is_symbol(*t, c),
{
    if t.kind != TokenKind::Symbol {
        return false;
    }
    let v = t.value();
    if v.unicode_len() != 1 {
        return false;
    }
    let r = v.get_char(0) == c;
    proof {
        if r {
            assert(v@ =~= seq![c]);
        }
    }
    r
}

/// The symbol token `:` that was expected, for error reports.
fn expected_colon() -> (r: Token<'static>)
    ensures
        r.kind == TokenKind::Symbol,
        r.text() == seq![':'],
{
    let r = Token::test_symbol(":");
    proof {
        reveal_strlit(":");
    }
    r
}

/// The symbol token `,` that was expected, for error reports.
fn expected_comma() -> (r: Token<'static>)
    ensures
        r.kind == TokenKind::Symbol,
        r.text() == seq![','],
{
    let r = Token::test_symbol(",");
    proof {
        reveal_strlit(",");
    }
    r
}

/// The value that a single token stands for, if any: numbers and strings
/// keep their text and span, and `true`, `false` and `null` become
/// booleans and null.
pub fn scalar_value(t: &Token) -> (r: Option<Value>)
    ensures
        match r {
            Some(v) => scalar(*t) == Some(v@),
            None => scalar(*t) is None,
        },
{
    match t.kind {
        TokenKind::Number => Some(Value::new_number(t.span, t.value())),
        TokenKind::String => Some(Value::new_string(t.span, t.value())),
        TokenKind::Identifier => {
            let v = t.value();
            proof {
                reveal_strlit("true");
                reveal_strlit("false");
                reveal_strlit("null");
                assert("true"@ =~= seq!['t', 'r', 'u', 'e']);
                assert("false"@ =~= seq!['f', 'a', 'l', 's', 'e']);
                assert("null"@ =~= seq!['n', 'u', 'l', 'l']);
            }
            if same_text(v, "true") {
                Some(Value::new_bool(t.span, true))
            } else if same_text(v, "false") {
                Some(Value::new_bool(t.span, false))
            } else if same_text(v, "null") {
                Some(Value::new_null(t.span))
            } else {
                None
            }
        },
        _ => None,
    }
}

/// Stores `v` under `key`, as `insert_entry` says.
fn insert_value(es: &mut Vec<(Literal, Value)>, key: Literal, v: Value)
    ensures
        entries_view(final(es)@) == insert_entry(entries_view(old(es)@), key.span, key.value@, v@),
{
    match find_entry(es, key.value.as_str()) {
        Some(m) => {
            let kept = Item::new(es[m].0.span, es[m].0.value.clone());
            let ghost before = es@;
            es.set(m, (kept, v));
            proof {
                assert(entries_view(es@) =~= entries_view(before).update(
                    m as int,
                    (entries_view(before)[m as int].0, entries_view(before)[m as int].1, v@),
                ));
            }
        },
        None => {
            let ghost before = es@;
            es.push((key, v));
            proof {
                assert(entries_view(es@) =~= entries_view(before).push((key.span, key.value@, v@)));
            }
        },
    }
}

/// Parses one value from token `i`.
fn parse_value_at<'a>(toks: &Vec<Token<'a>>, i: usize, pos: Span) -> (r: Result<
    (Value, usize, Span),
    ParseError<'a>,
>)
    requires
        i <= toks@.len(),
    ensures
        result_matches(r, parse_value(toks@, i as int, pos)),
        r is Ok ==> i < r->Ok_0.1 <= toks@.len(),
    decreases toks@.len() - i, 1int,
{
    if i >= toks.len() {
        return Err(ParseError::UnexpectedEndOfFile(pos));
    }
    let t = toks[i];
    if symbol_is(&t, '{') {
        parse_object_at(toks, i)
    } else if symbol_is(&t, '[') {
        parse_array_at(toks, i)
    } else {
        match scalar_value(&t) {
            Some(v) => Ok((v, i + 1, t.span)),
            None => Err(ParseError::InvalidToken(t)),
        }
    }
}

/// Parses an object whose `{` is token `i`.
fn parse_object_at<'a>(toks: &Vec<Token<'a>>, i: usize) -> (r: Result<
    (Value, usize, Span),
    ParseError<'a>,
>)
    requires
        i < toks@.len() <= usize::MAX,
        is_symbol(toks@[i as int], '{'),
    ensures
        result_matches(
            r,
            parse_members(
                toks@,
                i + 1,
                toks@[i as int].span,
                toks@[i as int].span,
                Seq::empty(),
                true,
            ),
        ),
        r is Ok ==> i < r->Ok_0.1 <= toks@.len(),
    decreases toks@.len() - i, 0int,
{
    let open = toks[i].span;
    let ghost goal = parse_members(toks@, i + 1, open, open, Seq::empty(), true);
    let mut es: Vec<(Literal, Value)> = Vec::new();
    proof {
        assert(entries_view(es@) =~= Seq::empty());
    }
    let mut j: usize = i + 1;
    let mut pos = open;
    let mut first = true;
    loop
        invariant
            i < j <= toks@.len(),
            open == toks@[i as int].span,
            goal == parse_members(toks@, i + 1, open, open, Seq::empty(), true),
            goal == parse_members(toks@, j as int, pos, open, entries_view(es@), first),
        decreases toks@.len() - j,
    {
        if j >= toks.len() {
            return Err(ParseError::UnexpectedEndOfFile(pos));
        }
        let kt = toks[j];
        if kt.kind == TokenKind::Symbol {
            if !first && symbol_is(&kt, '}') {
                let r = Value::new_object(Span::from_span(open, kt.span), es);
                return Ok((r, j + 1, pos));
            } else {
                return Err(ParseError::InvalidToken(kt));
            }
        }
        if j + 1 >= toks.len() {
            return Err(ParseError::UnexpectedEndOfFile(pos));
        }
        let ct = toks[j + 1];
        if !symbol_is(&ct, ':') {
            return Err(ParseError::UnexpectedToken(ct, expected_colon()));
        }
        match parse_value_at(toks, j + 2, pos) {
            Err(e) => {
                return Err(e);
            },
            Ok((v, k, p)) => {
                let key = Item::new(kt.span, kt.value().to_owned());
                insert_value(&mut es, key, v);
                if k >= toks.len() {
                    return Err(ParseError::UnexpectedEndOfFile(p));
                }
                let st = toks[k];
                if symbol_is(&st, '}') {
                    let r = Value::new_object(Span::from_span(open, st.span), es);
                    return Ok((r, k + 1, p));
                } else if symbol_is(&st, ',') {
                    j = k + 1;
                    pos = p;
                    first = false;
                } else {
                    return Err(ParseError::UnexpectedToken(st, expected_comma()));
                }
            },
        }
    }
}

/// Parses an array whose `[` is token `i`.
fn parse_array_at<'a>(toks: &Vec<Token<'a>>, i: usize) -> (r: Result<
    (Value, usize, Span),
    ParseError<'a>,
>)
    requires
        i < toks@.len() <= usize::MAX,
        is_symbol(toks@[i as int], '['),
    ensures
        result_matches(r, parse_value(toks@, i as int, toks@[i as int].span)),
        r is Ok ==> i < r->Ok_0.1 <= toks@.len(),
    decreases toks@.len() - i, 0int,
{
    let open = toks[i].span;
    let ghost goal = parse_value(toks@, i as int, open);
    proof {
        assert(!is_symbol(toks@[i as int], '{')) by {
            assert(toks@[i as int].text()[0] == '[');
        }
    }
    match parse_value_at(toks, i + 1, open) {
        Err(e) => Err(e),
        Ok((v, k0, p0)) => {
            let mut vs: Vec<Value> = Vec::new();
            vs.push(v);
            let mut k = k0;
            let mut pos = p0;
            proof {
                assert(elements_view(vs@) =~= seq![v@]);
            }
            loop
                invariant
                    i + 1 < k <= toks@.len(),
                    open == toks@[i as int].span,
                    goal == parse_value(toks@, i as int, open),
                    goal == parse_elements(toks@, k as int, pos, open, elements_view(vs@)),
                decreases toks@.len() - k,
            {
                if k >= toks.len() {
                    return Err(ParseError::UnexpectedEndOfFile(pos));
                }
                let st = toks[k];
                if symbol_is(&st, ']') {
                    let r = Value::new_array(Span::from_span(open, st.span), vs);
                    return Ok((r, k + 1, pos));
                }
                if !symbol_is(&st, ',') {
                    return Err(ParseError::UnexpectedToken(st, expected_comma()));
                }
                match parse_value_at(toks, k + 1, pos) {
                    Err(e) => {
                        return Err(e);
                    },
                    Ok((v, k2, p)) => {
                        let ghost before = vs@;
                        vs.push(v);
                        proof {
                            assert(elements_view(vs@) =~= elements_view(before).push(v@));
                        }
                        k = k2;
                        pos = p;
                    },
                }
            }
        },
    }
}

/// A cursor that reads values from the tokens of one source text.
pub struct Parser<'a> {
    /// Every token of the source, in order.
    pub tokens: Vec<Token<'a>>,
    /// The index of the next token to read.
    pub next: usize,
    /// The span of the last token that began a value.
    pub pos: Span,
}

impl<'a> Parser<'a> {
    pub open spec fn wf(&self) -> bool {
        self.next <= self.tokens@.len()
    }

    /// A parser at the start of `source`.
    pub fn new(source: &'a str) -> (r: Parser<'a>)
        ensures
            r.wf(),
            r.tokens@ == tokens_of(source),
            r.next == 0,
            r.pos == Span::new_spec(0, 0),
    {
        let tokens = Lexer::new(source).lex();
        Parser { tokens, next: 0, pos: Span::new(0, 0) }
    }

    /// Reads the next complete value. On success the cursor moves past it;
    /// on failure the error says where and why.
    pub fn parse(&mut self) -> (r: ParseResult<'a>)
        requires
            old(self).wf(),
        ensures
            final(self).wf(),
            final(self).tokens == old(self).tokens,
            parse_result_matches(r, parse_value(old(self).tokens@, old(self).next as int, old(self).pos)),
            r is Ok ==> (parse_value(old(self).tokens@, old(self).next as int, old(self).pos) matches Parsed::Done(
                _,
                k,
                p,
            ) && final(self).next == k && final(self).pos == p),
    {
        match parse_value_at(&self.tokens, self.next, self.pos) {
            Ok((v, k, p)) => {
                self.next = k;
                self.pos = p;
                Ok(v)
            },
            Err(e) => Err(e),
        }
    }
}

/// The index of the closing `}` of a flat object with `n` entries.
pub open spec fn flat_close(n: int, trailing: bool) -> int {
    if trailing {
        4 * n + 1
    } else {
        4 * n
    }
}

/// Whether `toks` is the flat object `{k0: v0, ..., kn: vn}`, with a comma
/// before the `}` where `trailing` holds: at least one entry, string keys,
/// and values that are single scalar tokens.
pub open spec fn flat_object(
    toks: Seq<Token>,
    keys: Seq<Token>,
    vals: Seq<Token>,
    trailing: bool,
) -> bool {
    let n = keys.len() as int;
    &&& n >= 1
    &&& vals.len() == n
    &&& toks.len() == flat_close(n, trailing) + 1
    &&& is_symbol(toks[0], '{')
    &&& is_symbol(toks[flat_close(n, trailing)], '}')
    &&& forall|i: int|
        0 <= i < n ==> {
            &&& toks[4 * i + 1] == #[trigger] keys[i]
            &&& keys[i].kind == TokenKind::String
            &&& is_symbol(toks[4 * i + 2], ':')
            &&& toks[4 * i + 3] == vals[i]
            &&& scalar(vals[i]) is Some
            &&& (i + 1 < n || trailing ==> is_symbol(toks[4 * i + 4], ','))
        }
}

/// Whether no two keys have the same text.
pub open spec fn distinct_keys(keys: Seq<Token>) -> bool {
    forall|i: int, j: int|
        0 <= i < keys.len() && 0 <= j < keys.len() && i != j ==> #[trigger] keys[i].text()
            != #[trigger] keys[j].text()
}

/// The first `m` entries of a flat object.
pub open spec fn flat_entries(keys: Seq<Token>, vals: Seq<Token>, m: int) -> Seq<
    (Span, Seq<char>, Json),
> {
    Seq::new(m as nat, |i: int| (keys[i].span, keys[i].text(), scalar(vals[i])->Some_0))
}

proof fn lemma_distinct_symbols(t: Token, a: char, b: char)
    requires
        a != b,
    ensures
        !(is_symbol(t, a) && is_symbol(t, b)),
{
    if is_symbol(t, a) && is_symbol(t, b) {
        assert(seq![a][0] == seq![b][0]);
    }
}

/// The index of a key that occurs in the entries exactly once.
proof fn lemma_find_unique(es: Seq<(Span, Seq<char>, Json)>, i: int)
    requires
        0 <= i < es.len(),
        forall|j: int| 0 <= j < es.len() && j != i ==> es[j].1 != es[i].1,
    ensures
        find_key(es, es[i].1) == i,
{
    lemma_find_key_from(es, es[i].1, 0);
}

proof fn lemma_scalar_not_open(t: Token)
    requires
        scalar(t) is Some,
    ensures
        !is_symbol(t, '{'),
        !is_symbol(t, '['),
{
}

proof fn lemma_flat_members<'a>(
    toks: Seq<Token<'a>>,
    keys: Seq<Token<'a>>,
    vals: Seq<Token<'a>>,
    trailing: bool,
    m: int,
    p: Span,
    open: Span,
)
    requires
        flat_object(toks, keys, vals, trailing),
        distinct_keys(keys),
        0 <= m < keys.len(),
    ensures
        parse_members(toks, 4 * m + 1, p, open, flat_entries(keys, vals, m), m == 0)
            == Parsed::Done(
            Json::Object(
                span_union(open, toks[flat_close(keys.len() as int, trailing)].span),
                flat_entries(keys, vals, keys.len() as int),
            ),
            flat_close(keys.len() as int, trailing) + 1,
            vals[keys.len() - 1].span,
        ),
    decreases keys.len() - m,
{
    let n = keys.len() as int;
    let j = 4 * m + 1;
    assert(toks[4 * m + 1] == keys[m]);
    let v = vals[m];
    assert(toks[4 * m + 3] == v);
    lemma_scalar_not_open(v);
    assert(parse_value(toks, j + 2, p) == Parsed::Done(scalar(v)->Some_0, j + 3, v.span));
    let es = flat_entries(keys, vals, m);
    assert(find_key(es, keys[m].text()) == -1) by {
        lemma_find_key_from(es, keys[m].text(), 0);
        if find_key(es, keys[m].text()) >= 0 {
            let r = find_key(es, keys[m].text());
            assert(keys[r].text() == keys[m].text());
        }
    }
    assert(insert_entry(es, keys[m].span, keys[m].text(), scalar(v)->Some_0) =~= flat_entries(
        keys,
        vals,
        m + 1,
    ));
    let k = j + 3;
    if m + 1 < n {
        lemma_distinct_symbols(toks[k], ',', '}');
        lemma_flat_members(toks, keys, vals, trailing, m + 1, v.span, open);
        assert(4 * (m + 1) + 1 == k + 1);
    } else if trailing {
        lemma_distinct_symbols(toks[k], ',', '}');
        assert(flat_entries(keys, vals, m + 1) == flat_entries(keys, vals, n));
        assert(k + 1 == flat_close(n, trailing));
    } else {
        assert(flat_entries(keys, vals, m + 1) == flat_entries(keys, vals, n));
    }
}

/// A flat object with distinct string keys and scalar values parses, with
/// or without a comma before its `}`, to an object in which each key finds
/// the value written after it.
pub proof fn lemma_flat_object_lookup<'a>(
    src: &'a str,
    keys: Seq<Token<'a>>,
    vals: Seq<Token<'a>>,
    trailing: bool,
)
    requires
        flat_object(tokens_of(src), keys, vals, trailing),
        distinct_keys(keys),
    ensures
        parse_text(src) matches Parsed::Done(j, k, _) && k == tokens_of(src).len() && forall|i: int|
            0 <= i < keys.len() ==> lookup(j, #[trigger] keys[i].text()) == scalar(vals[i]),
{
    let toks = tokens_of(src);
    let n = keys.len() as int;
    let open = toks[0].span;
    lemma_flat_members(toks, keys, vals, trailing, 0, open, open);
    assert(flat_entries(keys, vals, 0) =~= Seq::<(Span, Seq<char>, Json)>::empty());
    let es = flat_entries(keys, vals, n);
    assert forall|i: int| 0 <= i < n implies lookup(
        Json::Object(span_union(open, toks[flat_close(n, trailing)].span), es),
        #[trigger] keys[i].text(),
    ) == scalar(vals[i]) by {
        assert(toks[4 * i + 1] == keys[i]);
        assert(es[i] == (keys[i].span, keys[i].text(), scalar(vals[i])->Some_0));
        assert forall|j: int| 0 <= j < es.len() && j != i implies es[j].1 != es[i].1 by {
            assert(es[j].1 == keys[j].text());
            assert(keys[j].text() != keys[i].text());
        }
        lemma_find_unique(es, i);
    }
}

/// Whether `toks` is the array `[v0, ..., vn]` of at least one scalar.
pub open spec fn scalar_array(toks: Seq<Token>, vals: Seq<Token>) -> bool {
    let n = vals.len();
    &&& n >= 1
    &&& toks.len() == 2 * n + 1
    &&& is_symbol(toks[0], '[')
    &&& forall|i: int|
        0 <= i < n ==> {
            &&& toks[2 * i + 1] == #[trigger] vals[i]
            &&& scalar(vals[i]) is Some
            &&& is_symbol(toks[2 * i + 2], if i + 1 < n { ',' } else { ']' })
        }
}

/// The first `m` elements of a scalar array.
pub open spec fn scalar_elements(vals: Seq<Token>, m: int) -> Seq<Json> {
    Seq::new(m as nat, |i: int| scalar(vals[i])->Some_0)
}

proof fn lemma_scalar_elements<'a>(toks: Seq<Token<'a>>, vals: Seq<Token<'a>>, m: int, open: Span)
    requires
        scalar_array(toks, vals),
        1 <= m <= vals.len(),
    ensures
        parse_elements(toks, 2 * m, vals[m - 1].span, open, scalar_elements(vals, m))
            == Parsed::Done(
            Json::Array(
                span_union(open, toks[2 * vals.len() as int].span),
                scalar_elements(vals, vals.len() as int),
            ),
            2 * vals.len() as int + 1,
            vals[vals.len() - 1].span,
        ),
    decreases vals.len() - m,
{
    let n = vals.len() as int;
    let k = 2 * m;
    assert(toks[2 * (m - 1) + 1] == vals[m - 1]);
    assert(is_symbol(toks[2 * (m - 1) + 2], if m < n { ',' } else { ']' }));
    if m < n {
        assert(toks[2 * m + 1] == vals[m]);
        lemma_distinct_symbols(toks[k], ',', ']');
        lemma_scalar_not_open(vals[m]);
        assert(scalar_elements(vals, m).push(scalar(vals[m])->Some_0) =~= scalar_elements(
            vals,
            m + 1,
        ));
        lemma_scalar_elements(toks, vals, m + 1, open);
        assert(2 * (m + 1) == k + 2);
        assert(is_symbol(toks[k], ','));
        assert(!is_symbol(toks[k], ']'));
        assert(parse_value(toks, k + 1, vals[m - 1].span) == Parsed::Done(
            scalar(vals[m])->Some_0,
            k + 2,
            vals[m].span,
        ));
    } else {
        assert(is_symbol(toks[k], ']'));
        assert(scalar_elements(vals, m) == scalar_elements(vals, n));
    }
}

/// An array of scalars parses to an array whose element at each index is
/// the scalar written there.
pub proof fn lemma_scalar_array_index<'a>(src: &'a str, vals: Seq<Token<'a>>)
    requires
        scalar_array(tokens_of(src), vals),
    ensures
        parse_text(src) matches Parsed::Done(j, k, _) && k == tokens_of(src).len() && forall|i: int|
            0 <= i < vals.len() ==> element(j, i) == scalar(#[trigger] vals[i]),
{
    let toks = tokens_of(src);
    let n = vals.len() as int;
    let open = toks[0].span;
    lemma_distinct_symbols(toks[0], '{', '[');
    assert(toks[1] == vals[0]);
    lemma_scalar_not_open(vals[0]);
    assert(seq![scalar(vals[0])->Some_0] =~= scalar_elements(vals, 1));
    lemma_scalar_elements(toks, vals, 1, open);
    assert(parse_value(toks, 1, open) == Parsed::Done(scalar(vals[0])->Some_0, 2, vals[0].span));
    assert(parse_value(toks, 0, Span { start: 0, end: 0 }) == parse_elements(
        toks,
        2,
        vals[0].span,
        open,
        seq![scalar(vals[0])->Some_0],
    ));
    let es = scalar_elements(vals, n);
    assert forall|i: int| 0 <= i < n implies element(
        Json::Array(span_union(open, toks[2 * n].span), es),
        i,
    ) == scalar(#[trigger] vals[i]) by {
        assert(toks[2 * i + 1] == vals[i]);
    }
}

} // verus!
