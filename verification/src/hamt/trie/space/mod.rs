//! A trie over a space: its root node, in memory or in the space, and a reader
//! of the space.
use vstd::prelude::*;

pub mod map_base;
pub mod pack;

use crate::client::{QueryError, TransactError};
use crate::hamt::space::mem::MemSpace;
use crate::hamt::space::{Read, Reader, TableRoot};
use crate::hamt::trie::mem::value::MemValue;
use crate::hamt::trie::node::base::TrieBase;
use crate::hamt::trie::node::key::TrieKey;
use crate::hamt::trie::node::map::TrieMap;
use crate::hamt::trie::node::map_base::TrieMapBase;
use crate::hamt::trie::node::model::{
    deep_chain, deep_insert_err, deep_lookup, deep_path, entries, first_keys, ins, insert_err, inserted, keys_wf, lookup,
    lemma_deep_lookup_chain, lemma_deep_lookup_chain_other, lemma_deep_path_next, lemma_first_keys_wf,
    lemma_inserted_lookup, node_wf, path_next, resolved_lookup, space_wf, value_wf, BaseV, NodeV, SegV, ValueV,
};
use crate::hamt::trie::node::persist::{
    base_save_count, base_savable, lemma_base_savable_le, lemma_base_stored_le, lemma_push_le,
    lemma_sp_le_push, lemma_stored_deep_lookup, lemma_stored_resolved_lookup, res_rel, sp_le, stored, value_savable,
};
use crate::hamt::trie::deep::{deep_insert, deep_query};
use crate::hamt::trie::deep_key::DeepKey;
use crate::hamt::trie::node::value::{kvs_view, TrieValue};

verus! {

/// The node that a root record names: the root map over the base at the
/// record's address.
pub open spec fn root_node(root: TableRoot) -> NodeV {
    NodeV { map: root.0, base: BaseV::Table(root.1) }
}

/// The root node of a space: that of the last segment's root record, or the
/// empty node.
pub open spec fn space_root(sp: Seq<SegV>) -> NodeV {
    if sp.len() > 0 && sp.last().root is Some {
        root_node(sp.last().root->Some_0)
    } else {
        NodeV { map: 0, base: BaseV::Slots(Seq::empty()) }
    }
}

/// A trie whose nodes live in memory or in the space that its reader sees.
pub struct SpaceTrie {
    map_base: TrieMapBase,
    reader: Reader,
}

impl SpaceTrie {
    /// The root node.
    pub closed spec fn node(self) -> NodeV {
        self.map_base.dview()
    }

    /// The space that the trie reads.
    pub closed spec fn space(self) -> Seq<SegV> {
        self.reader.dview()
    }

    /// The root node is well formed and refers only to table nodes of the
    /// space it reads.
    #[verifier::type_invariant]
    closed spec fn inv(self) -> bool {
        node_wf(self.map_base.dview()) && base_savable(self.reader.dview(), self.map_base.dview().base)
    }

    /// The trie rooted at the root record of the last segment of `space`, or
    /// the empty trie.
    pub fn connect(space: &MemSpace) -> (r: Result<Self, QueryError>)
        ensures
            r matches Ok(t) && t.space() == space.dview() && t.node() == space_root(space.dview()),
    {
        let reader = match space.read() {
            Ok(rd) => rd,
            Err(e) => return Err(QueryError::Read(e)),
        };
        let map_base = match reader.read_root() {
            Err(e) => return Err(QueryError::Read(e)),
            Ok(None) => TrieMapBase::empty(),
            Ok(Some(root)) => TrieMapBase { map: TrieMap(root.0), base: TrieBase::Space(root.1) },
        };
        Ok(SpaceTrie { map_base, reader })
    }
}

} // verus!

verus! {

impl SpaceTrie {
    /// The trie rooted at `map_base` over the same space.
    pub fn to_subtrie(&self, map_base: TrieMapBase) -> (r: Self)
        requires
            node_wf(map_base.dview()),
            base_savable(self.space(), map_base.dview().base),
        ensures
            r.node() == map_base.dview(),
            r.space() == self.space(),
    {
        SpaceTrie { map_base, reader: self.reader.clone() }
    }

    /// Whether the values and table items that committing this trie writes fit
    /// one segment, as `commit` requires.
    pub fn commit_fits(&self) -> (r: bool)
        ensures
            r == (base_save_count(self.node().base).0 <= 0x10000 && base_save_count(self.node().base).1
                < 0x1_0000_0000),
    {
        self.map_base.base.save_fits()
    }

    /// All entries of the trie in slot order.
    pub fn query_key_values(&self) -> (r: Result<Vec<(i32, TrieValue)>, QueryError>)
        ensures
            kvs_view(r) == entries(self.space(), self.node()),
    {
        self.map_base.query_key_values(&self.reader)
    }

    /// The trie with `key` mapped to `value`.
    pub fn insert(self, key: i32, value: MemValue) -> (r: Result<Self, TransactError>)
        requires
            value_wf(value.dview()),
            value_savable(self.space(), value.dview()),
        ensures
            match insert_err(self.space(), self.node(), TrieKey::at(key, 1, 0)) {
                None => r matches Ok(t) && t.space() == self.space() && inserted(
                    self.space(),
                    self.node(),
                    TrieKey::at(key, 1, 0),
                    value.dview(),
                    t.node(),
                ) && t.node() == ins(self.space(), self.node(), TrieKey::at(key, 1, 0), value.dview()),
                Some(e) => r == Err::<Self, TransactError>(e),
            },
            r matches Ok(t) ==> (entries(self.space(), self.node()) is Ok ==> entries(self.space(), t.node()) is Ok
                && entries(self.space(), t.node())->Ok_0.len() == entries(self.space(), self.node())->Ok_0.len()
                + if lookup(self.space(), self.node(), TrieKey::at(key, 1, 0)) == Ok::<Option<ValueV>, QueryError>(
                None,
            ) {
                1int
            } else {
                0int
            }),
    {
        proof {
            use_type_invariant(&self);
        }
        let key = TrieKey::new(key);
        let SpaceTrie { map_base, reader } = self;
        match map_base.insert_kv(key, TrieValue::Mem(value), &reader) {
            Ok(m) => Ok(SpaceTrie { map_base: m, reader }),
            Err(e) => Err(e),
        }
    }

    /// The value under `key`, read into memory.
    pub fn query_value(&self, key: i32) -> (r: Result<Option<MemValue>, QueryError>)
        ensures
            match resolved_lookup(self.space(), self.node(), TrieKey::at(key, 1, 0)) {
                Ok(Some(v)) => r matches Ok(Some(m)) && m.dview() == v,
                Ok(None) => r == Ok::<Option<MemValue>, QueryError>(None),
                Err(e) => r == Err::<Option<MemValue>, QueryError>(e),
            },
    {
        let key = TrieKey::new(key);
        match self.map_base.query_value(key, &self.reader) {
            Err(e) => Err(e),
            Ok(None) => Ok(None),
            Ok(Some(value)) => match value.to_mem_value(&self.reader) {
                Ok(m) => Ok(Some(m)),
                Err(e) => Err(QueryError::Read(e)),
            },
        }
    }
}

} // verus!

verus! {

impl SpaceTrie {
    /// The value under the keys `key`, one level after another: every key but
    /// the last must lead to a nested trie.
    pub fn deep_query_value<const N: usize>(&self, key: [i32; N]) -> (r: Result<Option<MemValue>, QueryError>)
        requires
            N >= 1,
        ensures
            match deep_lookup(self.space(), self.node(), first_keys(key@), 0) {
                Ok(Some(v)) => r matches Ok(Some(m)) && m.dview() == v,
                Ok(None) => r == Ok::<Option<MemValue>, QueryError>(None),
                Err(e) => r == Err::<Option<MemValue>, QueryError>(e),
            },
    {
        let deep_key = DeepKey::new(key.as_slice());
        proof {
            lemma_first_keys_wf(key@);
        }
        deep_query(&self.map_base, deep_key.trie_keys(), &self.reader)
    }

    /// The trie with the keys `key`, one level after another, leading to
    /// `value`: the nested tries along the keys are updated from the deepest
    /// level up, an empty one standing in where none exists yet.
    pub fn deep_insert<const N: usize>(self, key: [i32; N], value: MemValue) -> (r: Result<Self, TransactError>)
        requires
            N >= 1,
            value_wf(value.dview()),
            value_savable(self.space(), value.dview()),
        ensures
            match deep_path(self.space(), self.node(), first_keys(key@), 0) {
                Err(e) => r == Err::<Self, TransactError>(e),
                Ok(path) => match deep_insert_err(self.space(), path, first_keys(key@), 0) {
                    Some(e) => r == Err::<Self, TransactError>(e),
                    None => r matches Ok(t) && t.space() == self.space() && exists|news: Seq<NodeV>|
                        deep_chain(self.space(), path, first_keys(key@), value.dview(), news) && news[0] == t.node(),
                },
            },
    {
        proof {
            use_type_invariant(&self);
            lemma_first_keys_wf(key@);
        }
        let deep_key = DeepKey::new(key.as_slice());
        let SpaceTrie { map_base, reader } = self;
        match deep_insert(map_base, deep_key.trie_keys(), value, &reader) {
            Ok(m) => Ok(SpaceTrie { map_base: m, reader }),
            Err(e) => Err(e),
        }
    }
}

} // verus!

verus! {

/// After `key` is inserted with `v`, a query of `key` finds `v`, and a query of
/// any other key finds what it found before.
pub proof fn lemma_query_after_insert(sp: Seq<SegV>, n: NodeV, key: i32, v: ValueV, n2: NodeV, other: i32)
    requires
        inserted(sp, n, TrieKey::at(key, 1, 0), v, n2),
        !(v is Stored),
    ensures
        resolved_lookup(sp, n2, TrieKey::at(key, 1, 0)) == Ok::<Option<ValueV>, QueryError>(Some(v)),
        other != key ==> resolved_lookup(sp, n2, TrieKey::at(other, 1, 0)) == resolved_lookup(
            sp,
            n,
            TrieKey::at(other, 1, 0),
        ),
{
    let k = TrieKey::at(key, 1, 0);
    let o = TrieKey::at(other, 1, 0);
    lemma_inserted_lookup(sp, n, k, v, n2, k);
    lemma_inserted_lookup(sp, n, k, v, n2, o);
}

/// After a deep insertion of `v` under `keys` succeeds, a deep query of the
/// same keys finds `v`.
pub proof fn lemma_deep_query_after_deep_insert(sp: Seq<SegV>, root: NodeV, keys: Seq<TrieKey>, v: ValueV, n2: NodeV)
    requires
        keys.len() >= 1,
        keys_wf(keys),
        !(v is Stored),
        deep_path(sp, root, keys, 0) is Ok,
        exists|news: Seq<NodeV>| deep_chain(sp, deep_path(sp, root, keys, 0)->Ok_0, keys, v, news) && news[0] == n2,
    ensures
        deep_lookup(sp, n2, keys, 0) == Ok::<Option<ValueV>, QueryError>(Some(v)),
{
    let path = deep_path(sp, root, keys, 0)->Ok_0;
    let news = choose|news: Seq<NodeV>| deep_chain(sp, path, keys, v, news) && news[0] == n2;
    lemma_deep_lookup_chain(sp, path, keys, v, news, 0);
}

/// A deep insertion under `keys` leaves the deep lookup of every key path that
/// leaves it unchanged: `others` agrees with `keys` below level `j`, and at
/// level `j` takes another key value at the same position.
pub proof fn lemma_deep_lookup_other_after_deep_insert(
    sp: Seq<SegV>,
    root: NodeV,
    keys: Seq<TrieKey>,
    v: ValueV,
    n2: NodeV,
    others: Seq<TrieKey>,
    j: int,
)
    requires
        keys_wf(keys),
        keys_wf(others),
        0 <= j < keys.len(),
        j < others.len(),
        forall|t: int| 0 <= t < j ==> #[trigger] others[t] == keys[t],
        others[j].value != keys[j].value,
        others[j].same_pos(keys[j]),
        deep_path(sp, root, keys, 0) is Ok,
        exists|news: Seq<NodeV>| deep_chain(sp, deep_path(sp, root, keys, 0)->Ok_0, keys, v, news) && news[0] == n2,
    ensures
        deep_lookup(sp, n2, others, 0) == deep_lookup(sp, root, others, 0),
{
    lemma_deep_path_next(sp, root, keys, 0);
    let path = deep_path(sp, root, keys, 0)->Ok_0;
    let news = choose|news: Seq<NodeV>| deep_chain(sp, path, keys, v, news) && news[0] == n2;
    assert forall|t: int| 0 <= t < path.len() - 1 implies path_next(sp, #[trigger] path[t], keys[t]) == Ok::<
        NodeV,
        TransactError,
    >(path[t + 1]) by {
        assert(keys[0 + t] == keys[t]);
    }
    lemma_deep_lookup_chain_other(sp, path, keys, v, news, others, j as nat, 0);
}

/// A deep insertion under `keys` leaves the deep query of every key path that
/// leaves it unchanged: `others` agrees with `keys` below level `j` and takes
/// another key value at level `j`.
pub proof fn lemma_deep_query_other_after_deep_insert(
    sp: Seq<SegV>,
    root: NodeV,
    keys: Seq<i32>,
    v: ValueV,
    n2: NodeV,
    others: Seq<i32>,
    j: int,
)
    requires
        0 <= j < keys.len(),
        j < others.len(),
        forall|t: int| 0 <= t < j ==> others[t] == keys[t],
        others[j] != keys[j],
        deep_path(sp, root, first_keys(keys), 0) is Ok,
        exists|news: Seq<NodeV>|
            deep_chain(sp, deep_path(sp, root, first_keys(keys), 0)->Ok_0, first_keys(keys), v, news) && news[0]
                == n2,
    ensures
        deep_lookup(sp, n2, first_keys(others), 0) == deep_lookup(sp, root, first_keys(others), 0),
{
    let ks = first_keys(keys);
    let os = first_keys(others);
    lemma_first_keys_wf(keys);
    lemma_first_keys_wf(others);
    assert forall|t: int| 0 <= t < j implies #[trigger] os[t] == ks[t] by {
        assert(others[t] == keys[t]);
    }
    lemma_deep_lookup_other_after_deep_insert(sp, root, ks, v, n2, os, j);
}

} // verus!

verus! {

impl SpaceTrie {
    /// Saves the trie into a new segment whose root record names the saved
    /// root, and adds the segment to `space`. The space must hold what the
    /// trie reads, have room for one more segment, and the new segment room
    /// for the values and table items that saving adds.
    pub fn commit(self, space: &mut MemSpace) -> (r: Result<(), TransactError>)
        requires
            sp_le(self.space(), old(space).dview()),
            old(space).dview().len() < u32::MAX,
            base_save_count(self.node().base).0 <= 0x10000,
            base_save_count(self.node().base).1 < 0x1_0000_0000,
        ensures
            r is Ok,
            final(space).dview().len() == old(space).dview().len() + 1,
            sp_le(old(space).dview(), final(space).dview()),
            final(space).dview().last().root matches Some(root) && stored(
                final(space).dview(),
                self.node(),
                root_node(root),
            ),
    {
        proof {
            use_type_invariant(&self);
            use_type_invariant(&*space);
        }
        let ghost n = self.node();
        let mut extend = match space.extend() {
            Ok(e) => e,
            Err(e) => return Err(TransactError::Extend(e)),
        };
        let SpaceTrie { map_base, reader } = self;
        let TrieMapBase { map, base } = map_base;
        proof {
            lemma_base_savable_le(reader.dview(), extend.base(), base.dview());
        }
        let base_addr = match base.save(&mut extend) {
            Ok(a) => a,
            Err(e) => return Err(e),
        };
        let ghost saved = extend.space();
        let root = TableRoot(map.0, base_addr);
        extend.set_root(root);
        proof {
            let d = saved.last();
            let d2 = extend.dview();
            assert(d.values =~= d2.values.take(d.values.len() as int));
            assert(d.table =~= d2.table.take(d.table.len() as int));
            lemma_push_le(extend.base(), d, d2);
            lemma_base_stored_le(saved, extend.space(), n.base, base_addr);
            lemma_sp_le_push(extend.base(), d2);
        }
        match extend.commit(space) {
            Ok(_) => Ok(()),
            Err(e) => Err(TransactError::Extend(e)),
        }
    }
}

/// A committed trie, reconnected to the space, answers every query as it did
/// before the commit: where nothing was found, nothing; a plain value as
/// itself; a nested trie by its saved form.
pub proof fn lemma_query_after_commit(sp: Seq<SegV>, space: Seq<SegV>, n: NodeV, key: i32)
    requires
        space_wf(sp),
        space_wf(space),
        sp_le(sp, space),
        space.len() > 0,
        space.last().root matches Some(root) && stored(space, n, root_node(root)),
    ensures
        resolved_lookup(sp, n, TrieKey::at(key, 1, 0)) == Ok::<Option<ValueV>, QueryError>(None) ==> resolved_lookup(
            space,
            space_root(space),
            TrieKey::at(key, 1, 0),
        ) == Ok::<Option<ValueV>, QueryError>(None),
        resolved_lookup(sp, n, TrieKey::at(key, 1, 0)) matches Ok(Some(rv)) ==> (resolved_lookup(
            space,
            space_root(space),
            TrieKey::at(key, 1, 0),
        ) matches Ok(Some(rw)) && res_rel(space, rv, rw)),
{
    let k = TrieKey::at(key, 1, 0);
    assert(k.wf());
    lemma_stored_resolved_lookup(sp, space, n, space_root(space), k);
}

/// A committed trie, reconnected to the space, answers every deep query as it
/// did before the commit: where nothing was found, nothing; a plain value as
/// itself; a nested trie by its saved form.
pub proof fn lemma_deep_query_after_commit(sp: Seq<SegV>, space: Seq<SegV>, n: NodeV, keys: Seq<TrieKey>)
    requires
        keys_wf(keys),
        space_wf(sp),
        space_wf(space),
        sp_le(sp, space),
        space.len() > 0,
        space.last().root matches Some(root) && stored(space, n, root_node(root)),
    ensures
        deep_lookup(sp, n, keys, 0) == Ok::<Option<ValueV>, QueryError>(None) ==> deep_lookup(
            space,
            space_root(space),
            keys,
            0,
        ) == Ok::<Option<ValueV>, QueryError>(None),
        deep_lookup(sp, n, keys, 0) matches Ok(Some(rv)) ==> (deep_lookup(space, space_root(space), keys, 0) matches Ok(
            Some(rw),
        ) && res_rel(space, rv, rw)),
{
    lemma_stored_deep_lookup(sp, space, n, space_root(space), keys, 0);
}

} // verus!
