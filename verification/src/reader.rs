//! A reader of entity attributes. The only reader so far is the empty one,
//! which holds no values.
use vstd::prelude::*;

use crate::hamt::base::{Attr, Ent};
use crate::hamt::value::Value;

verus! {

/// A source of attribute values.
pub enum Reader {
    /// A reader over nothing.
    Empty,
}

impl Reader {
    /// The empty reader.
    pub fn new() -> (r: Self)
        ensures
            r is Empty,
    {
        Reader::Empty
    }

    /// The value of `attribute` on `entity`, if the reader holds one. The
    /// empty reader holds none.
    pub fn query_value(&self, entity: Ent, attribute: Attr) -> (r: Option<Value>)
        ensures
            self is Empty ==> r is None,
    {
        match self {
            Reader::Empty => None,
        }
    }
}

} // verus!
