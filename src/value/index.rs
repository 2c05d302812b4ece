use vstd::prelude::*;

use super::{Json, Value, element, find_entry, lemma_array_view, lemma_object_view, lookup};

verus! {

/// Something that picks a child out of a value: a position or a key.
pub trait VIndex {
    /// The child that this index picks out of `v`, if any.
    spec fn picks(&self, v: Json) -> Option<Json>;

    /// A reference to the child that this index picks out of `v`.
    fn index_into<'v>(&self, v: &'v Value) -> (r: Option<&'v Value>)
        ensures
            match r {
                Some(x) => self.picks(v@) == Some(x@),
                None => self.picks(v@) is None,
            },
    ;

    /// A mutable reference to the child that this index picks out of `v`.
    fn index_into_mut<'v>(&self, v: &'v mut Value) -> (r: Option<&'v mut Value>)
        ensures
            match r {
                Some(x) => self.picks(old(v)@) == Some(x@),
                None => self.picks(old(v)@) is None,
            },
    ;
}

impl VIndex for usize {
    open spec fn picks(&self, v: Json) -> Option<Json> {
        element(v, *self as int)
    }

    fn index_into<'v>(&self, v: &'v Value) -> (r: Option<&'v Value>) {
        if let Value::Array(item) = v {
            proof {
                lemma_array_view(*item);
            }
            if *self < item.value.len() {
                Some(&item.value[*self])
            } else {
                None
            }
        } else {
            None
        }
    }

    fn index_into_mut<'v>(&self, v: &'v mut Value) -> (r: Option<&'v mut Value>) {
        if let Value::Array(item) = v {
            proof {
                lemma_array_view(*item);
            }
            if *self < item.value.len() {
                Some(&mut item.value[*self])
            } else {
                None
            }
        } else {
            None
        }
    }
}

impl VIndex for str {
    open spec fn picks(&self, v: Json) -> Option<Json> {
        lookup(v, self@)
    }

    fn index_into<'v>(&self, v: &'v Value) -> (r: Option<&'v Value>) {
        if let Value::Object(item) = v {
            proof {
                lemma_object_view(*item);
            }
            match find_entry(&item.value, self) {
                Some(m) => Some(&item.value[m].1),
                None => None,
            }
        } else {
            None
        }
    }

    fn index_into_mut<'v>(&self, v: &'v mut Value) -> (r: Option<&'v mut Value>) {
        if let Value::Object(item) = v {
            proof {
                lemma_object_view(*item);
            }
            match find_entry(&item.value, self) {
                Some(m) => Some(&mut item.value[m].1),
                None => None,
            }
        } else {
            None
        }
    }
}

impl VIndex for String {
    open spec fn picks(&self, v: Json) -> Option<Json> {
        lookup(v, self@)
    }

    fn index_into<'v>(&self, v: &'v Value) -> (r: Option<&'v Value>) {
        self.as_str().index_into(v)
    }

    fn index_into_mut<'v>(&self, v: &'v mut Value) -> (r: Option<&'v mut Value>) {
        self.as_str().index_into_mut(v)
    }
}

impl<'a, T: ?Sized + VIndex> VIndex for &'a T {
    open spec fn picks(&self, v: Json) -> Option<Json> {
        (**self).picks(v)
    }

    fn index_into<'v>(&self, v: &'v Value) -> (r: Option<&'v Value>) {
        (**self).index_into(v)
    }

    fn index_into_mut<'v>(&self, v: &'v mut Value) -> (r: Option<&'v mut Value>) {
        (**self).index_into_mut(v)
    }
}

} // verus!
