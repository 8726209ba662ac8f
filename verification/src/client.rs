use vstd::prelude::*;

use crate::hamt::space::{ExtendError, ReadError};

verus! {

/// Errors returned by queries against a trie.
#[derive(Debug, Clone, Copy, PartialEq, Eq, Structural)]
pub enum QueryError {
    /// A memory base holds fewer slots than its map announces.
    BaseIndexOutOfBounds(usize),
    /// A deep key descended into a plain value at the given key index.
    NoSubtrieAtKeyIndex(usize),
    /// A packed slot value was expected to hold a value but holds a reference.
    NotAValue(u32),
    /// Reading the backing space failed.
    Read(ReadError),
    /// The key ran out of hash positions before the trie ended.
    KeyExhausted,
}

/// Errors returned by updates of a trie.
#[derive(Debug, Clone, Copy, PartialEq, Eq, Structural)]
pub enum TransactError {
    /// A packed value must leave its high bit clear.
    HighBitInValue(u32),
    /// A deep key passes through a plain value where a sub-trie was expected.
    ExpectedMapBaseAtKey,
    /// The slot for a freshly set map bit could not be found.
    SlotEmpty,
    /// A value was to be replaced in a slot that holds a sub-trie.
    InvalidSlotType,
    /// Reading a stored value failed.
    SpaceReadError(ReadError),
    /// A query made during the update failed.
    Query(QueryError),
    /// Adding the new segment to the space failed.
    Extend(ExtendError),
    /// Two keys share every hash position up to the last one.
    KeyExhausted,
}

} // verus!
