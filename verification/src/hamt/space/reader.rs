use vstd::prelude::*;

use std::rc::Rc;

use crate::hamt::space::mem::MemSegment;
use crate::hamt::space::{Read, ReadError, Seg, TableAddr, TableRoot, Value, ValueAddr};
use crate::hamt::trie::mem::slot::MemSlot;
use crate::hamt::trie::node::model::{read_value, space_wf, SegV};

verus! {

/// A read-only snapshot of the segments of a space.
pub struct Reader {
    segments: Vec<Rc<MemSegment>>,
}

impl Reader {
    pub closed spec fn dview(self) -> Seq<SegV> {
        self.segments@.map_values(|s: Rc<MemSegment>| (*s).dview())
    }

    /// The space that the reader sees is well formed.
    #[verifier::type_invariant]
    pub open spec fn inv(self) -> bool {
        space_wf(self.dview())
    }

    /// A reader over `segments`, which must form a well-formed space.
    pub fn new(segments: Vec<Rc<MemSegment>>) -> (r: Self)
        requires
            space_wf(segments@.map_values(|s: Rc<MemSegment>| (*s).dview())),
        ensures
            r.dview() == segments@.map_values(|s: Rc<MemSegment>| (*s).dview()),
    {
        Self { segments }
    }

    /// A reader over the same segments.
    pub fn clone(&self) -> (r: Self)
        ensures
            r.dview() == self.dview(),
    {
        proof {
            use_type_invariant(self);
        }
        let mut segments: Vec<Rc<MemSegment>> = Vec::new();
        let mut i: usize = 0;
        while i < self.segments.len()
            invariant
                i <= self.segments@.len(),
                segments@.len() == i,
                forall|j: int| 0 <= j < i ==> *#[trigger] segments@[j] == *self.segments@[j],
            decreases self.segments@.len() - i,
        {
            segments.push(crate::hamt::space::mem::rc_clone(&self.segments[i]));
            i = i + 1;
        }
        assert(segments@.map_values(|s: Rc<MemSegment>| (*s).dview()) =~= self.dview());
        Reader { segments }
    }
}

impl Read for Reader {
    open spec fn space(&self) -> Seq<SegV> {
        self.dview()
    }

    open spec fn can_read(&self, seg: Seg) -> bool {
        true
    }

    open spec fn root(&self) -> Option<TableRoot> {
        if self.dview().len() == 0 {
            None
        } else {
            self.dview().last().root
        }
    }

    fn read_value(&self, addr: ValueAddr) -> (r: Result<Value, ReadError>) {
        let ValueAddr(seg, val) = addr;
        if (seg.0 as usize) < self.segments.len() {
            let segment = &self.segments[seg.0 as usize];
            segment.read_value(val)
        } else {
            Err(ReadError::InvalidValueAddr(addr))
        }
    }

    fn read_slot(&self, addr: &TableAddr, offset: usize) -> (r: Result<&MemSlot, ReadError>) {
        let TableAddr(seg, pos) = *addr;
        if (seg.0 as usize) >= self.segments.len() {
            return Err(ReadError::InvalidTableAddr(*addr));
        }
        let segment = &self.segments[seg.0 as usize];
        let len = segment.table_len();
        if offset >= len || pos.0 as usize >= len - offset {
            return Err(ReadError::TablePosWithOffsetExceedsSegmentLen(pos, offset, len));
        }
        Ok(segment.read_slot(&pos, offset))
    }

    fn read_root(&self) -> (r: Result<&Option<TableRoot>, ReadError>) {
        if self.segments.len() == 0 {
            Ok(&None)
        } else {
            self.segments[self.segments.len() - 1].read_root()
        }
    }
}

} // verus!
