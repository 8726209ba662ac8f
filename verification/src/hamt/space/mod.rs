use vstd::prelude::*;

pub mod addr;
pub mod extend;
pub mod mem;
pub mod reader;
pub mod seg;
pub mod table;
pub mod value;

pub use addr::{Addr, TableAddr, ValueAddr};
pub use extend::Extend;
pub use reader::Reader;
pub use seg::Seg;
pub use table::{TablePos, TableRoot};
pub use value::{Val, Value};

use crate::hamt::trie::mem::slot::MemSlot;
use crate::hamt::trie::node::model::{read_value, table_item, SegV, SlotV};

verus! {

/// Errors of reads from a space.
#[derive(Debug, Clone, Copy, PartialEq, Eq, Structural)]
pub enum ReadError {
    InvalidTableAddr(TableAddr),
    TablePosWithOffsetExceedsSegmentLen(TablePos, usize, usize),
    InvalidValueAddr(ValueAddr),
    InvalidVal(Val),
}

/// Errors of extending a space with a new segment.
#[derive(Debug, Clone, Copy, PartialEq, Eq, Structural)]
pub enum ExtendError {
    SegConflict(Seg),
}

/// Read access to the segments of a space.
pub trait Read {
    /// The segments that this reader sees.
    spec fn space(&self) -> Seq<SegV>;

    /// Whether this reader can read segment `seg`.
    spec fn can_read(&self, seg: Seg) -> bool;

    /// The root record that this reader reports.
    spec fn root(&self) -> Option<TableRoot>;

    /// The value at `addr`.
    fn read_value(&self, addr: ValueAddr) -> (r: Result<Value, ReadError>)
        requires
            self.can_read(addr.0),
        ensures
            r == read_value(self.space(), addr),
    ;

    /// The table item at offset `offset` of the table at `addr`.
    fn read_slot(&self, addr: &TableAddr, offset: usize) -> (r: Result<&MemSlot, ReadError>)
        requires
            self.can_read(addr.0),
        ensures
            match r {
                Ok(s) => table_item(self.space(), *addr, offset as nat) == Ok::<SlotV, ReadError>(s.dview()),
                Err(e) => table_item(self.space(), *addr, offset as nat) == Err::<SlotV, ReadError>(e),
            },
    ;

    /// The root record.
    fn read_root(&self) -> (r: Result<&Option<TableRoot>, ReadError>)
        ensures
            r matches Ok(root) && *root == self.root(),
    ;
}

} // verus!
