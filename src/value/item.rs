use vstd::prelude::*;

use super::Value;
use crate::util::span::Span;

verus! {

/// A payload with the span of source text that it was read from.
#[derive(Clone, Debug)]
pub struct Item<T> {
    pub span: Span,
    pub value: T,
}

/// The entries of an object in the order their keys first appeared.
pub type Object = Item<Vec<(Literal, Value)>>;

pub type Array = Item<Vec<Value>>;

pub type Number = Item<String>;

pub type Literal = Item<String>;

pub type Bool = Item<bool>;

pub type Null = Item<()>;

impl<T> Item<T> {
    pub fn new(span: Span, value: T) -> (r: Item<T>)
        ensures
            r.span == span,
            r.value == value,
    {
        Item { span, value }
    }

    pub fn span(&self) -> (r: Span)
        ensures
            r == self.span,
    {
        self.span
    }
}

impl Item<String> {
    /// A key or string with the text `value` and the span `0..=0`.
    pub fn new_literal(value: &str) -> (r: Literal)
        ensures
            r.span == Span::new_spec(0, 0),
            r.value@ == value@,
    {
        let value = value.to_owned();
        let span = Span::new(0, 0);
        Item { span, value }
    }

    /// A number with the text `value` and the span `0..=0`.
    pub fn new_number(value: String) -> (r: Number)
        ensures
            r.span == Span::new_spec(0, 0),
            r.value == value,
    {
        let span = Span::new(0, 0);
        Item { span, value }
    }
}

impl Item<Vec<Value>> {
    pub fn new_array(value: Vec<Value>) -> (r: Array)
        ensures
            r.span == Span::new_spec(0, 0),
            r.value == value,
    {
        let span = Span::new(0, 0);
        Item { span, value }
    }
}

impl Item<bool> {
    pub fn new_bool(value: bool) -> (r: Bool)
        ensures
            r.span == Span::new_spec(0, 0),
            r.value == value,
    {
        let span = Span::new(0, 0);
        Item { span, value }
    }
}

impl Item<()> {
    pub fn new_null() -> (r: Null)
        ensures
            r.span == Span::new_spec(0, 0),
    {
        let span = Span::new(0, 0);
        Item { span, value: () }
    }
}

impl Item<Vec<(Literal, Value)>> {
    pub fn new_object(value: Vec<(Literal, Value)>) -> (r: Object)
        ensures
            r.span == Span::new_spec(0, 0),
            r.value == value,
    {
        let span = Span::new(0, 0);
        Item { span, value }
    }
}

} // verus!
