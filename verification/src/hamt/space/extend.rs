use vstd::prelude::*;

use crate::hamt::space::mem::{table_view, MemSpace};
use crate::hamt::space::{ExtendError, Read, ReadError, Seg, TableAddr, TablePos, TableRoot, Val, Value, ValueAddr};
use crate::hamt::trie::mem::slot::MemSlot;
use crate::hamt::trie::node::model::{empty_seg, ext_ok, read_value, table_item, SegV, SlotV};

verus! {

/// A segment under construction: values and table items are appended to it,
/// and it joins a space when committed.
pub struct Extend {
    seg: Seg,
    values: Vec<Value>,
    table: Vec<MemSlot>,
    root: Option<TableRoot>,
    base: Ghost<Seq<SegV>>,
}

impl Extend {
    /// The contents of the segment so far.
    pub closed spec fn dview(self) -> SegV {
        SegV { values: self.values@, table: table_view(self.table@), root: self.root }
    }

    /// The number of the segment.
    pub closed spec fn seg(self) -> Seg {
        self.seg
    }

    /// The segments that this one follows.
    pub closed spec fn base(self) -> Seq<SegV> {
        self.base@
    }

    /// The segment is numbered after its base and holds only proper items.
    pub open spec fn wf(self) -> bool {
        self.base().len() == self.seg().0 && ext_ok(self.base(), self.dview())
    }

    /// An empty extension numbered `seg`, following `seg` empty segments.
    pub fn new(seg: Seg) -> (r: Self)
        ensures
            r.seg() == seg,
            r.dview() == empty_seg(),
            r.base() == Seq::new(seg.0 as nat, |i: int| empty_seg()),
            r.wf(),
    {
        let r = Self {
            seg,
            values: Vec::new(),
            table: Vec::new(),
            root: None,
            base: Ghost(Seq::new(seg.0 as nat, |i: int| empty_seg())),
        };
        assert(r.dview() =~= empty_seg());
        r
    }

    /// An empty extension numbered `seg`, following the segments `base`.
    pub(crate) fn new_on(seg: Seg, base: Ghost<Seq<SegV>>) -> (r: Self)
        requires
            base@.len() == seg.0,
        ensures
            r.seg() == seg,
            r.dview() == empty_seg(),
            r.base() == base@,
            r.wf(),
    {
        let r = Self { seg, values: Vec::new(), table: Vec::new(), root: None, base };
        assert(r.dview() =~= empty_seg());
        r
    }

    /// Appends `value`; its address is the segment and the value's index,
    /// truncated to 16 bits.
    pub fn add_value(&mut self, value: Value) -> (r: ValueAddr)
        ensures
            r == ValueAddr(old(self).seg(), Val(old(self).dview().values.len() as u16)),
            final(self).dview() == (SegV { values: old(self).dview().values.push(value), ..old(self).dview() }),
            final(self).seg() == old(self).seg(),
            final(self).base() == old(self).base(),
            old(self).wf() ==> final(self).wf(),
    {
        let val = Val(self.values.len() as u16);
        self.values.push(value);
        proof {
            assert(self.dview().table == old(self).dview().table);
        }
        ValueAddr(self.seg, val)
    }

    /// Appends the table items `items`; the address of the first is the segment
    /// and the table's former length, truncated to 32 bits.
    pub fn add_items(&mut self, items: Vec<MemSlot>) -> (r: TableAddr)
        ensures
            r == TableAddr(old(self).seg(), TablePos(old(self).dview().table.len() as u32)),
            final(self).dview() == (SegV {
                table: old(self).dview().table + table_view(items@),
                ..old(self).dview()
            }),
            final(self).seg() == old(self).seg(),
            final(self).base() == old(self).base(),
    {
        let pos = TablePos(self.table.len() as u32);
        let mut items = items;
        let ghost pre = self.table@;
        let ghost added = items@;
        self.table.append(&mut items);
        assert(self.table@ == pre + added);
        assert(table_view(self.table@) =~= table_view(pre) + table_view(added));
        TableAddr(self.seg, pos)
    }

    /// Sets the root record of the segment.
    pub fn set_root(&mut self, root: TableRoot)
        ensures
            final(self).dview() == (SegV { root: Some(root), ..old(self).dview() }),
            final(self).seg() == old(self).seg(),
            final(self).base() == old(self).base(),
            old(self).wf() ==> final(self).wf(),
    {
        self.root = Some(root);
    }

    /// Adds the segment to `space`, which must not have grown past the segment's
    /// base; the segment's number is returned.
    pub fn commit(self, space: &mut MemSpace) -> (r: Result<Seg, ExtendError>)
        requires
            old(space).dview().len() < u32::MAX,
            self.seg().0 == old(space).dview().len() ==> ext_ok(old(space).dview(), self.dview()),
        ensures
            self.seg().0 != old(space).dview().len() ==> r == Err::<Seg, ExtendError>(
                ExtendError::SegConflict(self.seg()),
            ) && final(space).dview() == old(space).dview(),
            self.seg().0 == old(space).dview().len() ==> r == Ok::<Seg, ExtendError>(self.seg())
                && final(space).dview() == old(space).dview().push(self.dview()),
    {
        let Extend { seg, values, table, root, base: _ } = self;
        match space.add_segment(seg, values, table, root) {
            Ok(()) => Ok(seg),
            Err(e) => Err(e),
        }
    }
}

impl Read for Extend {
    open spec fn space(&self) -> Seq<SegV> {
        self.base().push(self.dview())
    }

    open spec fn can_read(&self, seg: Seg) -> bool {
        seg == self.seg() && self.base().len() == self.seg().0
    }

    open spec fn root(&self) -> Option<TableRoot> {
        self.dview().root
    }

    fn read_value(&self, addr: ValueAddr) -> (r: Result<Value, ReadError>) {
        let ValueAddr(seg, val) = addr;
        if (val.0 as usize) < self.values.len() {
            Ok(self.values[val.0 as usize])
        } else {
            Err(ReadError::InvalidVal(val))
        }
    }

    fn read_slot(&self, addr: &TableAddr, offset: usize) -> (r: Result<&MemSlot, ReadError>) {
        let TableAddr(seg, pos) = *addr;
        let len = self.table.len();
        if offset >= len || pos.0 as usize >= len - offset {
            return Err(ReadError::TablePosWithOffsetExceedsSegmentLen(pos, offset, len));
        }
        Ok(&self.table[pos.0 as usize + offset])
    }

    fn read_root(&self) -> (r: Result<&Option<TableRoot>, ReadError>) {
        Ok(&self.root)
    }
}

/// A value added to a segment is read back at the address that adding it
/// gave: from the space that the segment extends, and from every space that
/// later segments extend further.
pub proof fn lemma_read_after_add(base: Seq<SegV>, seg: SegV, value: Value, later: Seq<SegV>)
    requires
        base.len() <= u32::MAX,
        seg.values.len() <= u16::MAX,
    ensures
        read_value(
            base.push(SegV { values: seg.values.push(value), ..seg }),
            ValueAddr(Seg(base.len() as u32), Val(seg.values.len() as u16)),
        ) == Ok::<Value, ReadError>(value),
        read_value(
            base.push(SegV { values: seg.values.push(value), ..seg }) + later,
            ValueAddr(Seg(base.len() as u32), Val(seg.values.len() as u16)),
        ) == Ok::<Value, ReadError>(value),
{
    let e = SegV { values: seg.values.push(value), ..seg };
    assert((base.push(e) + later)[base.len() as int] == e);
}

/// Table items added to a segment are read back at the address that adding
/// them gave, each at its offset: from the space that the segment extends, and
/// from every space that later segments extend further.
pub proof fn lemma_read_after_add_items(base: Seq<SegV>, seg: SegV, items: Seq<SlotV>, later: Seq<SegV>, i: nat)
    requires
        base.len() <= u32::MAX,
        seg.table.len() <= u32::MAX,
        i < items.len(),
    ensures
        table_item(
            base.push(SegV { table: seg.table + items, ..seg }),
            TableAddr(Seg(base.len() as u32), TablePos(seg.table.len() as u32)),
            i,
        ) == Ok::<SlotV, ReadError>(items[i as int]),
        table_item(
            base.push(SegV { table: seg.table + items, ..seg }) + later,
            TableAddr(Seg(base.len() as u32), TablePos(seg.table.len() as u32)),
            i,
        ) == Ok::<SlotV, ReadError>(items[i as int]),
{
    let e = SegV { table: seg.table + items, ..seg };
    assert((base.push(e) + later)[base.len() as int] == e);
    assert(e.table[seg.table.len() + i as int] == items[i as int]);
}

} // verus!
