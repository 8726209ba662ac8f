//! A single-level trie read from a segment of bytes.
use vstd::prelude::*;

use std::rc::Rc;

use crate::hamt::segment::{be_u32_at, Segment, SegmentIndex};
use crate::hamt::trie::flat::MemSlot;
use crate::hamt::trie::key::TrieKey;
use crate::hamt::trie::node::map::rank;

verus! {

/// A map and the start of its base in a segment.
pub struct SegmentMapBase {
    pub map: u32,
    pub base_start: SegmentIndex,
}

impl SegmentMapBase {
    /// The slot at the key's base index: the key with its value when the slot
    /// holds the key, the empty slot otherwise.
    pub fn load_slot(&self, key: TrieKey, segment: Rc<Segment>) -> (r: MemSlot)
        requires
            key.index() < 32,
            self.base_start.0 + rank(self.map, key.index() as int) * 8 + 8 <= (*segment).bytes().len(),
        ensures
            ({
                let at = self.base_start.0 + rank(self.map, key.index() as int) * 8;
                let left = be_u32_at((*segment).bytes(), at);
                let right = be_u32_at((*segment).bytes(), at + 4);
                r == if left == key.value() {
                    MemSlot::KeyValue(left, right)
                } else {
                    MemSlot::Empty
                }
            }),
    {
        let base_index = key.to_base_index(self.map);
        let (left, right) = segment.read_slot(base_index, self.base_start);
        if left == key.u32() {
            MemSlot::KeyValue(left, right)
        } else {
            MemSlot::Empty
        }
    }
}

/// A single-level trie in a segment.
pub struct SegmentTrie {
    pub map_base: SegmentMapBase,
}

impl SegmentTrie {
    /// The value of `key`, when the slot at its base index holds it.
    pub fn query_value(&self, key: TrieKey, segment: Rc<Segment>) -> (r: Option<u32>)
        requires
            key.index() < 32,
            self.map_base.base_start.0 + rank(self.map_base.map, key.index() as int) * 8 + 8
                <= (*segment).bytes().len(),
        ensures
            ({
                let at = self.map_base.base_start.0 + rank(self.map_base.map, key.index() as int) * 8;
                r == if be_u32_at((*segment).bytes(), at) == key.value() {
                    Some(be_u32_at((*segment).bytes(), at + 4))
                } else {
                    None::<u32>
                }
            }),
    {
        match self.map_base.load_slot(key, segment) {
            MemSlot::Empty => None,
            MemSlot::KeyValue(_key, value) => Some(value),
        }
    }
}

} // verus!
