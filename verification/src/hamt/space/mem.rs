use vstd::prelude::*;

use std::rc::Rc;

use crate::hamt::space::extend::Extend;
use crate::hamt::space::reader::Reader;
use crate::hamt::space::{ExtendError, ReadError, Seg, TablePos, TableRoot, Val, Value};
use crate::hamt::trie::mem::slot::MemSlot;
use crate::hamt::trie::node::model::{ext_ok, lemma_space_wf_push, space_wf, SegV, SlotV};

verus! {

/// Another pointer to the same segment.
#[verifier::external_body]
pub(crate) fn rc_clone(rc: &Rc<MemSegment>) -> (r: Rc<MemSegment>)
    ensures
        *r == **rc,
{
    Rc::clone(rc)
}

/// View of a table of slots.
pub open spec fn table_view(table: Seq<MemSlot>) -> Seq<SlotV> {
    table.map_values(|s: MemSlot| s.dview())
}

/// An in-memory space: an append-only list of segments.
pub struct MemSpace {
    segments: Vec<Rc<MemSegment>>,
}

impl MemSpace {
    pub closed spec fn dview(self) -> Seq<SegV> {
        self.segments@.map_values(|s: Rc<MemSegment>| (*s).dview())
    }

    /// The space is well formed.
    #[verifier::type_invariant]
    pub open spec fn inv(self) -> bool {
        space_wf(self.dview())
    }

    /// The empty space.
    pub fn new() -> (r: Self)
        ensures
            r.dview() == Seq::<SegV>::empty(),
    {
        let r = MemSpace { segments: Vec::new() };
        assert(r.dview() =~= Seq::<SegV>::empty());
        r
    }

    /// Number of segments.
    pub fn len(&self) -> (r: usize)
        ensures
            r == self.dview().len(),
    {
        self.segments.len()
    }

    /// A fresh extension whose segment is the next one of this space.
    pub fn extend(&self) -> (r: Result<Extend, ExtendError>)
        requires
            self.dview().len() <= u32::MAX,
        ensures
            r matches Ok(e) && e.seg() == Seg(self.dview().len() as u32) && e.dview() == (SegV {
                values: Seq::empty(),
                table: Seq::empty(),
                root: None,
            }) && e.base() == self.dview() && e.wf(),
    {
        let max_seg = Seg(self.segments.len() as u32);
        Ok(Extend::new_on(max_seg, Ghost(self.dview())))
    }

    /// Appends a segment with the given contents, which must be numbered as the
    /// next segment of this space.
    pub fn add_segment(
        &mut self,
        seg: Seg,
        values: Vec<Value>,
        table: Vec<MemSlot>,
        root: Option<TableRoot>,
    ) -> (r: Result<(), ExtendError>)
        requires
            old(self).dview().len() < u32::MAX,
            seg.0 == old(self).dview().len() ==> ext_ok(
                old(self).dview(),
                SegV { values: values@, table: table_view(table@), root },
            ),
        ensures
            seg.0 != old(self).dview().len() ==> r == Err::<(), ExtendError>(ExtendError::SegConflict(seg))
                && final(self).dview() == old(self).dview(),
            seg.0 == old(self).dview().len() ==> r is Ok && final(self).dview() == old(
                self,
            ).dview().push(SegV { values: values@, table: table_view(table@), root }),
    {
        if seg.0 as usize != self.segments.len() {
            return Err(ExtendError::SegConflict(seg));
        }
        proof {
            use_type_invariant(&*self);
        }
        let ghost pre = self.dview();
        let ghost e = SegV { values: values@, table: table_view(table@), root };
        let mut old_space = MemSpace::new();
        std::mem::swap(self, &mut old_space);
        let MemSpace { mut segments } = old_space;
        let segment = MemSegment { values, table, root };
        segments.push(Rc::new(segment));
        assert(segments@.map_values(|s: Rc<MemSegment>| (*s).dview()) =~= pre.push(e));
        proof {
            lemma_space_wf_push(pre, e);
        }
        *self = MemSpace { segments };
        Ok(())
    }

    /// A reader over the current segments.
    pub fn read(&self) -> (r: Result<Reader, ReadError>)
        ensures
            r matches Ok(rd) && rd.dview() == self.dview(),
    {
        proof {
            use_type_invariant(self);
        }
        let mut segments: Vec<Rc<MemSegment>> = Vec::new();
        let mut i: usize = 0;
        while i < self.segments.len()
            invariant
                i <= self.segments@.len(),
                segments@.len() == i,
                forall|j: int| 0 <= j < i ==> *#[trigger] segments@[j] == *self.segments@[j],
            decreases self.segments@.len() - i,
        {
            segments.push(rc_clone(&self.segments[i]));
            i = i + 1;
        }
        assert(segments@.map_values(|s: Rc<MemSegment>| (*s).dview()) =~= self.dview());
        Ok(Reader::new(segments))
    }
}

/// One segment of a space: its values, its table of slots and its root.
pub struct MemSegment {
    values: Vec<Value>,
    table: Vec<MemSlot>,
    root: Option<TableRoot>,
}

impl MemSegment {
    pub closed spec fn dview(self) -> SegV {
        SegV { values: self.values@, table: table_view(self.table@), root: self.root }
    }

    /// The value at index `val`.
    pub fn read_value(&self, val: Val) -> (r: Result<Value, ReadError>)
        ensures
            r == if val.0 < self.dview().values.len() {
                Ok(self.dview().values[val.0 as int])
            } else {
                Err(ReadError::InvalidVal(val))
            },
    {
        if (val.0 as usize) < self.values.len() {
            Ok(self.values[val.0 as usize])
        } else {
            Err(ReadError::InvalidVal(val))
        }
    }

    /// Number of table items.
    pub fn table_len(&self) -> (r: usize)
        ensures
            r == self.dview().table.len(),
    {
        self.table.len()
    }

    /// The table item at `pos + offset`, which must exist.
    pub fn read_slot(&self, pos: &TablePos, offset: usize) -> (r: &MemSlot)
        requires
            pos.0 + offset < self.dview().table.len(),
        ensures
            r.dview() == self.dview().table[pos.0 + offset],
    {
        let len = self.table.len();
        assert(len == self.dview().table.len());
        let index = pos.0 as usize + offset;
        &self.table[index]
    }

    /// The segment's root record.
    pub fn read_root(&self) -> (r: Result<&Option<TableRoot>, ReadError>)
        ensures
            r matches Ok(root) && *root == self.dview().root,
    {
        Ok(&self.root)
    }
}

} // verus!
