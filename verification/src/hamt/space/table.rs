use vstd::prelude::*;

use crate::hamt::space::addr::TableAddr;

verus! {

/// Position of an item within a segment's table.
#[derive(Debug, Clone, Copy, PartialEq, Eq, Structural)]
pub struct TablePos(pub u32);

impl std::ops::Add<usize> for TablePos {
    type Output = TablePos;

    /// The position `rhs` items further; `rhs` is taken modulo 2^32 and the
    /// sum must stay within 32 bits.
    fn add(self, rhs: usize) -> (r: TablePos) {
        TablePos(self.0 + rhs as u32)
    }
}

impl vstd::std_specs::ops::AddSpecImpl<usize> for TablePos {
    open spec fn obeys_add_spec() -> bool {
        true
    }

    open spec fn add_req(self, rhs: usize) -> bool {
        self.0 + (rhs as u32) <= u32::MAX
    }

    open spec fn add_spec(self, rhs: usize) -> TablePos {
        TablePos((self.0 + (rhs as u32)) as u32)
    }
}

/// Root record of a space: the root map and the address of its base.
#[derive(Debug, Clone, Copy, PartialEq, Eq, Structural)]
pub struct TableRoot(pub u32, pub TableAddr);

/// A packed table item: a key and a packed value.
#[derive(Debug, Clone, Copy, PartialEq, Eq, Structural)]
pub struct TableItem(pub i32, pub u32);

} // verus!
