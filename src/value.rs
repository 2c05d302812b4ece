//! The value tree that parsing builds, its mathematical view [`Json`], and
//! read access by index and key.
use vstd::prelude::*;

pub mod index;
pub mod item;

pub use index::VIndex;
pub use item::{Array, Bool, Item, Literal, Null, Number, Object};

use crate::lexer::token::same_text;
use crate::util::span::Span;

verus! {

broadcast use vstd::std_specs::vec::group_vec_axioms, vstd::seq::group_seq_axioms;

/// A parsed value; each carries the span of the text it was read from.
#[derive(Debug)]
pub enum Value {
    Object(Object),
    Array(Array),
    Literal(Literal),
    Number(Number),
    Bool(Bool),
    Null(Null),
}

/// What a [`Value`] holds, as mathematics: object entries are (key span,
/// key text, value) in the order their keys first appeared.
pub enum Json {
    Object(Span, Seq<(Span, Seq<char>, Json)>),
    Array(Span, Seq<Json>),
    Literal(Span, Seq<char>),
    Number(Span, Seq<char>),
    Bool(Span, bool),
    Null(Span),
}

impl View for Value {
    type V = Json;

    open spec fn view(&self) -> Json
        decreases self,
    {
        match self {
            Value::Object(item) => Json::Object(
                item.span,
                Seq::new(
                    item.value@.len(),
                    |i: int|
                        if 0 <= i < item.value@.len() {
                            (item.value@[i].0.span, item.value@[i].0.value@, item.value@[i].1.view())
                        } else {
                            (item.span, Seq::empty(), Json::Null(item.span))
                        },
                ),
            ),
            Value::Array(item) => Json::Array(
                item.span,
                Seq::new(
                    item.value@.len(),
                    |i: int|
                        if 0 <= i < item.value@.len() {
                            item.value@[i].view()
                        } else {
                            Json::Null(item.span)
                        },
                ),
            ),
            Value::Literal(item) => Json::Literal(item.span, item.value@),
            Value::Number(item) => Json::Number(item.span, item.value@),
            Value::Bool(item) => Json::Bool(item.span, item.value),
            Value::Null(item) => Json::Null(item.span),
        }
    }
}

/// The entries of an object, as mathematics.
pub open spec fn entries_view(es: Seq<(Literal, Value)>) -> Seq<(Span, Seq<char>, Json)> {
    Seq::new(es.len(), |i: int| (es[i].0.span, es[i].0.value@, es[i].1@))
}

/// The elements of an array, as mathematics.
pub open spec fn elements_view(vs: Seq<Value>) -> Seq<Json> {
    Seq::new(vs.len(), |i: int| vs[i]@)
}

/// The view of a value that may be absent.
pub open spec fn opt_view(o: Option<Value>) -> Option<Json> {
    match o {
        Some(v) => Some(v@),
        None => None,
    }
}

/// The view of an object is its span and the view of its entries.
pub proof fn lemma_object_view(item: Object)
    ensures
        Value::Object(item)@ == Json::Object(item.span, entries_view(item.value@)),
{
    reveal_with_fuel(<Value as View>::view, 2);
    let v = Value::Object(item);
    if let Json::Object(_, es) = v@ {
        assert(es =~= entries_view(item.value@));
    }
}

/// The view of an array is its span and the views of its elements.
pub proof fn lemma_array_view(item: Array)
    ensures
        Value::Array(item)@ == Json::Array(item.span, elements_view(item.value@)),
{
    reveal_with_fuel(<Value as View>::view, 2);
    let v = Value::Array(item);
    if let Json::Array(_, vs) = v@ {
        assert(vs =~= elements_view(item.value@));
    }
}

/// The span that a value was read from.
pub open spec fn json_span(j: Json) -> Span {
    match j {
        Json::Object(s, _) => s,
        Json::Array(s, _) => s,
        Json::Literal(s, _) => s,
        Json::Number(s, _) => s,
        Json::Bool(s, _) => s,
        Json::Null(s) => s,
    }
}

/// The index of the first entry whose key is `key`, from `i` on; -1 where
/// there is none.
pub open spec fn find_key_from(es: Seq<(Span, Seq<char>, Json)>, key: Seq<char>, i: int) -> int
    decreases es.len() - i,
{
    if i < 0 || i >= es.len() {
        -1
    } else if es[i].1 == key {
        i
    } else {
        find_key_from(es, key, i + 1)
    }
}

/// The index of the entry whose key is `key`, or -1.
pub open spec fn find_key(es: Seq<(Span, Seq<char>, Json)>, key: Seq<char>) -> int {
    find_key_from(es, key, 0)
}

/// The value stored under `key` where `j` is an object.
pub open spec fn lookup(j: Json, key: Seq<char>) -> Option<Json> {
    match j {
        Json::Object(_, es) => {
            let m = find_key(es, key);
            if 0 <= m < es.len() {
                Some(es[m].2)
            } else {
                None
            }
        },
        _ => None,
    }
}

/// The element at `i` where `j` is an array.
pub open spec fn element(j: Json, i: int) -> Option<Json> {
    match j {
        Json::Array(_, vs) => if 0 <= i < vs.len() {
            Some(vs[i])
        } else {
            None
        },
        _ => None,
    }
}

/// Equality of content: spans are ignored, and two objects are equal when
/// they have as many entries and each key of the first finds an equal
/// value under the same key in the second.
pub open spec fn same_value(a: Json, b: Json) -> bool
    decreases a,
{
    match (a, b) {
        (Json::Object(_, ea), Json::Object(_, eb)) => ea.len() == eb.len() && forall|i: int|
            0 <= i < ea.len() ==> {
                let m = #[trigger] find_key(eb, ea[i].1);
                0 <= m < eb.len() && same_value(ea[i].2, eb[m].2)
            },
        (Json::Array(_, va), Json::Array(_, vb)) => va.len() == vb.len() && forall|i: int|
            0 <= i < va.len() ==> same_value(#[trigger] va[i], vb[i]),
        (Json::Literal(_, x), Json::Literal(_, y)) => x == y,
        (Json::Number(_, x), Json::Number(_, y)) => x == y,
        (Json::Bool(_, x), Json::Bool(_, y)) => x == y,
        (Json::Null(_), Json::Null(_)) => true,
        _ => false,
    }
}

pub proof fn lemma_find_key_from(es: Seq<(Span, Seq<char>, Json)>, key: Seq<char>, i: int)
    requires
        0 <= i,
    ensures
        -1 <= find_key_from(es, key, i) < es.len(),
        find_key_from(es, key, i) >= 0 ==> i <= find_key_from(es, key, i) && es[find_key_from(
            es,
            key,
            i,
        )].1 == key,
        find_key_from(es, key, i) == -1 ==> forall|j: int| i <= j < es.len() ==> es[j].1 != key,
        find_key_from(es, key, i) >= 0 ==> forall|j: int|
            i <= j < find_key_from(es, key, i) ==> es[j].1 != key,
    decreases es.len() - i,
{
    if i < es.len() && es[i].1 != key {
        lemma_find_key_from(es, key, i + 1);
    }
}

/// Finds the entry whose key is `key`.
pub fn find_entry(es: &Vec<(Literal, Value)>, key: &str) -> (r: Option<usize>)
    ensures
        match r {
            Some(m) => m == find_key(entries_view(es@), key@) && m < es@.len(),
            None => find_key(entries_view(es@), key@) == -1,
        },
{
    let ghost ev = entries_view(es@);
    let mut i: usize = 0;
    while i < es.len()
        invariant
            ev == entries_view(es@),
            0 <= i <= es@.len(),
            forall|j: int| 0 <= j < i ==> ev[j].1 != key@,
        decreases es@.len() - i,
    {
        if same_text(es[i].0.value.as_str(), key) {
            proof {
                lemma_find_key_from(ev, key@, 0);
                assert(ev[i as int].1 == key@);
            }
            return Some(i);
        }
        i = i + 1;
    }
    proof {
        lemma_find_key_from(ev, key@, 0);
    }
    None
}

/// A copy of a key.
fn copy_literal(k: &Literal) -> (r: Literal)
    ensures
        r.span == k.span,
        r.value@ == k.value@,
{
    Item::new(k.span, k.value.clone())
}

/// A deep copy of `v`.
pub fn clone_value(v: &Value) -> (r: Value)
    ensures
        r@ == v@,
    decreases v,
{
    match v {
            Value::Object(item) => {
                proof {
                    lemma_object_view(*item);
                }
                let mut es: Vec<(Literal, Value)> = Vec::new();
                let mut i: usize = 0;
                while i < item.value.len()
                    invariant
                        *v == Value::Object(*item),
                        v@ == Json::Object(item.span, entries_view(item.value@)),
                        0 <= i <= item.value@.len(),
                        entries_view(es@) =~= entries_view(item.value@).take(i as int),
                    decreases item.value@.len() - i,
                {
                    proof {
                        assert(decreases_to!(*v => *item));
                        assert(decreases_to!(item.value => item.value[i as int]));
                    }
                    let k = copy_literal(&item.value[i].0);
                    let c = clone_value(&item.value[i].1);
                    let ghost before = es@;
                    es.push((k, c));
                    i = i + 1;
                    proof {
                        assert(es@ == before.push((k, c)));
                        assert(entries_view(before) =~= entries_view(item.value@).take(i - 1));
                        assert forall|j: int| 0 <= j < i implies #[trigger] entries_view(es@)[j]
                            == entries_view(item.value@)[j] by {
                            if j < i - 1 {
                                assert(entries_view(es@)[j] == entries_view(before)[j]);
                            }
                        }
                        assert(entries_view(es@) =~= entries_view(item.value@).take(i as int));
                    }
                }
                proof {
                    assert(entries_view(item.value@).take(i as int) =~= entries_view(item.value@));
                    lemma_object_view(*item);
                    lemma_object_view(Item { span: item.span, value: es });
                }
                Value::Object(Item::new(item.span, es))
            },
            Value::Array(item) => {
                proof {
                    lemma_array_view(*item);
                }
                let mut vs: Vec<Value> = Vec::new();
                let mut i: usize = 0;
                while i < item.value.len()
                    invariant
                        *v == Value::Array(*item),
                        v@ == Json::Array(item.span, elements_view(item.value@)),
                        0 <= i <= item.value@.len(),
                        elements_view(vs@) =~= elements_view(item.value@).take(i as int),
                    decreases item.value@.len() - i,
                {
                    proof {
                        assert(decreases_to!(*v => *item));
                        assert(decreases_to!(item.value => item.value[i as int]));
                    }
                    let c = clone_value(&item.value[i]);
                    let ghost before = vs@;
                    vs.push(c);
                    i = i + 1;
                    proof {
                        assert(vs@ == before.push(c));
                        assert(elements_view(before) =~= elements_view(item.value@).take(i - 1));
                        assert forall|j: int| 0 <= j < i implies #[trigger] elements_view(vs@)[j]
                            == elements_view(item.value@)[j] by {
                            if j < i - 1 {
                                assert(elements_view(vs@)[j] == elements_view(before)[j]);
                            }
                        }
                    }
                    proof {
                        assert(elements_view(vs@) =~= elements_view(item.value@).take(i as int));
                    }
                }
                proof {
                    assert(elements_view(item.value@).take(i as int) =~= elements_view(item.value@));
                    lemma_array_view(*item);
                    lemma_array_view(Item { span: item.span, value: vs });
                }
                Value::Array(Item::new(item.span, vs))
            },
            Value::Literal(item) => Value::Literal(Item::new(item.span, item.value.clone())),
            Value::Number(item) => Value::Number(Item::new(item.span, item.value.clone())),
            Value::Bool(item) => Value::Bool(Item::new(item.span, item.value)),
            Value::Null(item) => Value::Null(Item::new(item.span, ())),
    }
}

impl Clone for Value {
    fn clone(&self) -> (r: Value)
        ensures
            r@ == self@,
    {
        clone_value(self)
    }
}

/// Whether two values hold the same content, spans aside.
pub fn values_equal(a: &Value, b: &Value) -> (r: bool)
    ensures
        r == same_value(a@, b@),
    decreases a,
{
    match (a, b) {
        (Value::Object(x), Value::Object(y)) => {
            proof {
                lemma_object_view(*x);
                lemma_object_view(*y);
            }
            let ghost ea = entries_view(x.value@);
            let ghost eb = entries_view(y.value@);
            if x.value.len() != y.value.len() {
                return false;
            }
            let mut i: usize = 0;
            while i < x.value.len()
                invariant
                    *a == Value::Object(*x),
                    ea == entries_view(x.value@),
                    eb == entries_view(y.value@),
                    a@ == Json::Object(x.span, ea),
                    b@ == Json::Object(y.span, eb),
                    ea.len() == eb.len(),
                    0 <= i <= ea.len(),
                    forall|j: int|
                        0 <= j < i ==> {
                            let m = #[trigger] find_key(eb, ea[j].1);
                            0 <= m < eb.len() && same_value(ea[j].2, eb[m].2)
                        },
                decreases ea.len() - i,
            {
                proof {
                    assert(decreases_to!(x.value => x.value[i as int]));
                    assert(ea[i as int].1 == x.value@[i as int].0.value@);
                }
                match find_entry(&y.value, x.value[i].0.value.as_str()) {
                    Some(m) => {
                        if !values_equal(&x.value[i].1, &y.value[m].1) {
                            proof {
                                assert(ea[i as int].2 == x.value@[i as int].1@);
                                assert(eb[m as int].2 == y.value@[m as int].1@);
                                let k = find_key(eb, ea[i as int].1);
                                assert(!(0 <= k < eb.len() && same_value(ea[i as int].2, eb[k].2)));
                            }
                            return false;
                        }
                        proof {
                            assert(ea[i as int].2 == x.value@[i as int].1@);
                            assert(eb[m as int].2 == y.value@[m as int].1@);
                        }
                    },
                    None => {
                        proof {
                            let k = find_key(eb, ea[i as int].1);
                            assert(!(0 <= k < eb.len()));
                        }
                        return false;
                    },
                }
                i = i + 1;
            }
            true
        },
        (Value::Array(x), Value::Array(y)) => {
            proof {
                lemma_array_view(*x);
                lemma_array_view(*y);
            }
            let ghost va = elements_view(x.value@);
            let ghost vb = elements_view(y.value@);
            if x.value.len() != y.value.len() {
                return false;
            }
            let mut i: usize = 0;
            while i < x.value.len()
                invariant
                    *a == Value::Array(*x),
                    va == elements_view(x.value@),
                    vb == elements_view(y.value@),
                    a@ == Json::Array(x.span, va),
                    b@ == Json::Array(y.span, vb),
                    va.len() == vb.len(),
                    0 <= i <= va.len(),
                    forall|j: int| 0 <= j < i ==> same_value(#[trigger] va[j], vb[j]),
                decreases va.len() - i,
            {
                proof {
                    assert(decreases_to!(x.value => x.value[i as int]));
                }
                if !values_equal(&x.value[i], &y.value[i]) {
                    proof {
                        assert(!same_value(va[i as int], vb[i as int]));
                    }
                    return false;
                }
                i = i + 1;
            }
            true
        },
        (Value::Literal(x), Value::Literal(y)) => same_text(x.value.as_str(), y.value.as_str()),
        (Value::Number(x), Value::Number(y)) => same_text(x.value.as_str(), y.value.as_str()),
        (Value::Bool(x), Value::Bool(y)) => x.value == y.value,
        (Value::Null(_), Value::Null(_)) => true,
        _ => false,
    }
}

impl PartialEq for Value {
    /// Values are equal when their contents are; spans do not count.
    fn eq(&self, other: &Value) -> (r: bool) {
        values_equal(self, other)
    }
}

impl vstd::std_specs::cmp::PartialEqSpecImpl for Value {
    open spec fn obeys_eq_spec() -> bool {
        true
    }

    open spec fn eq_spec(&self, other: &Value) -> bool {
        same_value(self@, other@)
    }
}

/// The text of a string or a number.
pub open spec fn scalar_text(j: Json) -> Option<Seq<char>> {
    match j {
        Json::Literal(_, t) => Some(t),
        Json::Number(_, t) => Some(t),
        _ => None,
    }
}

impl PartialEq<String> for Value {
    /// A string or a number equals the text it holds.
    fn eq(&self, other: &String) -> (r: bool) {
        match self {
            Value::Literal(item) => same_text(item.value.as_str(), other.as_str()),
            Value::Number(item) => same_text(item.value.as_str(), other.as_str()),
            _ => false,
        }
    }
}

impl vstd::std_specs::cmp::PartialEqSpecImpl<String> for Value {
    open spec fn obeys_eq_spec() -> bool {
        true
    }

    open spec fn eq_spec(&self, other: &String) -> bool {
        scalar_text(self@) == Some(other@)
    }
}

impl<'b> PartialEq<&'b str> for Value {
    /// A string or a number equals the text it holds.
    fn eq(&self, other: &&'b str) -> (r: bool) {
        match self {
            Value::Literal(item) => same_text(item.value.as_str(), *other),
            Value::Number(item) => same_text(item.value.as_str(), *other),
            _ => false,
        }
    }
}

impl<'b> vstd::std_specs::cmp::PartialEqSpecImpl<&'b str> for Value {
    open spec fn obeys_eq_spec() -> bool {
        true
    }

    open spec fn eq_spec(&self, other: &&'b str) -> bool {
        scalar_text(self@) == Some(other@)
    }
}

impl Value {
    /// A null at `0..=0`.
    pub fn null() -> (r: Value)
        ensures
            r@ == Json::Null(Span::new_spec(0, 0)),
    {
        Self::new_null(Span::new(0, 0))
    }

    pub fn is_object(&self) -> (r: bool)
        ensures
            r == (self@ is Object),
    {
        match self {
            Value::Object(_) => true,
            _ => false,
        }
    }

    pub fn is_array(&self) -> (r: bool)
        ensures
            r == (self@ is Array),
    {
        match self {
            Value::Array(_) => true,
            _ => false,
        }
    }

    pub fn is_string(&self) -> (r: bool)
        ensures
            r == (self@ is Literal),
    {
        match self {
            Value::Literal(_) => true,
            _ => false,
        }
    }

    pub fn is_number(&self) -> (r: bool)
        ensures
            r == (self@ is Number),
    {
        match self {
            Value::Number(_) => true,
            _ => false,
        }
    }

    pub fn is_null(&self) -> (r: bool)
        ensures
            r == (self@ is Null),
    {
        match self {
            Value::Null(_) => true,
            _ => false,
        }
    }

    pub fn is_bool(&self) -> (r: bool)
        ensures
            r == (self@ is Bool),
    {
        match self {
            Value::Bool(_) => true,
            _ => false,
        }
    }

    /// The span of text the value was read from.
    pub fn span(&self) -> (r: Span)
        ensures
            r == json_span(self@),
    {
        match self {
            Self::Object(item) => item.span(),
            Self::Array(item) => item.span(),
            Self::Literal(item) => item.span(),
            Self::Number(item) => item.span(),
            Self::Null(item) => item.span(),
            Self::Bool(item) => item.span(),
        }
    }

    /// The value wrapped in `Some`.
    pub fn some(self) -> (r: Option<Self>)
        ensures
            r == Some(self),
    {
        Some(self)
    }

    /// An object with the given entries, in that order.
    pub fn new_object(span: Span, value: Vec<(Literal, Value)>) -> (r: Value)
        ensures
            r@ == Json::Object(span, entries_view(value@)),
    {
        let item = Item::new(span, value);
        proof {
            lemma_object_view(item);
        }
        Value::Object(item)
    }

    pub fn new_array(span: Span, value: Vec<Value>) -> (r: Value)
        ensures
            r@ == Json::Array(span, elements_view(value@)),
    {
        let item = Item::new(span, value);
        proof {
            lemma_array_view(item);
        }
        Value::Array(item)
    }

    pub fn new_string(span: Span, value: &str) -> (r: Value)
        ensures
            r@ == Json::Literal(span, value@),
    {
        let value = value.to_owned();
        let item = Item::new(span, value);
        Value::Literal(item)
    }

    pub fn new_number(span: Span, value: &str) -> (r: Value)
        ensures
            r@ == Json::Number(span, value@),
    {
        let value = value.to_owned();
        let item = Item::new(span, value);
        Value::Number(item)
    }

    pub fn new_null(span: Span) -> (r: Value)
        ensures
            r@ == Json::Null(span),
    {
        let item = Item::new(span, ());
        Value::Null(item)
    }

    pub fn new_bool(span: Span, value: bool) -> (r: Value)
        ensures
            r@ == Json::Bool(span, value),
    {
        let item = Item::new(span, value);
        Value::Bool(item)
    }

    pub fn test_object(value: Vec<(Literal, Value)>) -> (r: Value)
        ensures
            r@ == Json::Object(Span::new_spec(0, 0), entries_view(value@)),
    {
        Value::new_object(Span::test(), value)
    }

    pub fn test_array(value: Vec<Value>) -> (r: Value)
        ensures
            r@ == Json::Array(Span::new_spec(0, 0), elements_view(value@)),
    {
        Value::new_array(Span::test(), value)
    }

    pub fn test_string(value: &str) -> (r: Value)
        ensures
            r@ == Json::Literal(Span::new_spec(0, 0), value@),
    {
        Value::new_string(Span::test(), value)
    }

    pub fn test_number(value: &str) -> (r: Value)
        ensures
            r@ == Json::Number(Span::new_spec(0, 0), value@),
    {
        Value::new_number(Span::test(), value)
    }

    pub fn test_null() -> (r: Value)
        ensures
            r@ == Json::Null(Span::new_spec(0, 0)),
    {
        Value::new_null(Span::test())
    }

    pub fn test_bool(value: bool) -> (r: Value)
        ensures
            r@ == Json::Bool(Span::new_spec(0, 0), value),
    {
        Value::new_bool(Span::test(), value)
    }
}

/// Read access by position.
pub trait Indexable<'a, I = usize> {
    type Output;

    /// Whether `r` is what indexing `self` at `index` gives.
    spec fn index_result(&self, index: I, r: Self::Output) -> bool;

    fn index(&'a self, index: I) -> (r: Self::Output)
        ensures
            self.index_result(index, r),
    ;
}

/// Read access by key.
pub trait Keyable<'a, K> {
    type Output;

    /// Whether `r` is what looking `key` up in `self` gives.
    spec fn get_result(&self, key: K, r: Self::Output) -> bool;

    fn get(&'a self, key: K) -> (r: Self::Output)
        ensures
            self.get_result(key, r),
    ;
}

impl<'a> Indexable<'a> for Value {
    type Output = Option<Value>;

    open spec fn index_result(&self, index: usize, r: Option<Value>) -> bool {
        opt_view(r) == element(self@, index as int)
    }

    /// The element at `index` of an array; none for another value or an
    /// index out of range.
    fn index(&'a self, index: usize) -> (r: Option<Value>) {
        if let Self::Array(item) = self {
            proof {
                lemma_array_view(*item);
            }
            if index < item.value.len() {
                Some(item.value[index].clone())
            } else {
                None
            }
        } else {
            None
        }
    }
}

impl<'a, 'k> Keyable<'a, &'k str> for Value {
    type Output = Option<Value>;

    open spec fn get_result(&self, key: &'k str, r: Option<Value>) -> bool {
        opt_view(r) == lookup(self@, key@)
    }

    /// The value under `key` in an object; none for another value or an
    /// absent key.
    fn get(&'a self, key: &'k str) -> (r: Option<Value>) {
        if let Self::Object(item) = self {
            proof {
                lemma_object_view(*item);
            }
            match find_entry(&item.value, key) {
                Some(m) => Some(item.value[m].1.clone()),
                None => None,
            }
        } else {
            None
        }
    }
}

/// What indexing a value that may be absent gives.
pub open spec fn index_opt(o: Option<Value>, index: int) -> Option<Json> {
    match o {
        Some(v) => element(v@, index),
        None => None,
    }
}

/// What looking up a key in a value that may be absent gives.
pub open spec fn lookup_opt(o: Option<Value>, key: Seq<char>) -> Option<Json> {
    match o {
        Some(v) => lookup(v@, key),
        None => None,
    }
}

impl<'a> Indexable<'a> for Option<Value> {
    type Output = Option<Value>;

    open spec fn index_result(&self, index: usize, r: Option<Value>) -> bool {
        opt_view(r) == index_opt(*self, index as int)
    }

    /// Indexes the value where there is one; an absent value stays absent.
    fn index(&'a self, index: usize) -> (r: Option<Value>) {
        match self {
            Some(v) => v.index(index),
            None => None,
        }
    }
}

impl<'a, 'k> Keyable<'a, &'k str> for Option<Value> {
    type Output = Option<Value>;

    open spec fn get_result(&self, key: &'k str, r: Option<Value>) -> bool {
        opt_view(r) == lookup_opt(*self, key@)
    }

    /// Looks `key` up where there is a value; an absent value stays absent.
    fn get(&'a self, key: &'k str) -> (r: Option<Value>) {
        match self {
            Some(v) => v.get(key),
            None => None,
        }
    }
}

} // verus!
