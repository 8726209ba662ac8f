use vstd::prelude::*;

use crate::hamt::space::seg::Seg;
use crate::hamt::space::table::TablePos;
use crate::hamt::space::value::Val;

verus! {

/// Address of a value or of a table position.
#[derive(Debug, Clone, Copy, PartialEq, Eq, Structural)]
pub enum Addr {
    Value(ValueAddr),
    Table(TableAddr),
}

/// Address of a value: its segment and its index there.
#[derive(Debug, Clone, Copy, PartialEq, Eq, Structural)]
pub struct ValueAddr(pub Seg, pub Val);

/// Address of a table position: its segment and its position there.
#[derive(Debug, Clone, Copy, PartialEq, Eq, Structural)]
pub struct TableAddr(pub Seg, pub TablePos);

impl From<TableAddr> for Addr {
    /// The address of the table position `addr`.
    fn from(addr: TableAddr) -> (r: Addr) {
        Addr::Table(addr)
    }
}

impl vstd::std_specs::convert::FromSpecImpl<TableAddr> for Addr {
    open spec fn obeys_from_spec() -> bool {
        true
    }

    open spec fn from_spec(addr: TableAddr) -> Addr {
        Addr::Table(addr)
    }
}

} // verus!
