use vstd::prelude::*;

use crate::hamt::space::addr::TableAddr;

verus! {

/// Index of a value within a segment.
#[derive(Debug, Clone, Copy, PartialEq, Eq, Structural)]
pub struct Val(pub u16);

/// A value stored in a segment: a plain `u32`, or the root of a nested trie
/// given by its map and the address of its base.
#[derive(Debug, Clone, Copy, PartialEq, Eq, Structural)]
pub enum Value {
    U32(u32),
    MapBase(u32, TableAddr),
}

} // verus!
