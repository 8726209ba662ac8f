//! Lookups and insertions along several keys, one level of nested tries
//! after another.
use vstd::prelude::*;

use crate::client::{QueryError, TransactError};
use crate::hamt::space::Reader;
use crate::hamt::trie::mem::value::MemValue;
use crate::hamt::trie::node::key::TrieKey;
use crate::hamt::trie::node::map_base::TrieMapBase;
use crate::hamt::trie::node::model::{
    deep_chain, deep_insert_err, deep_lookup, deep_path, keys_wf, lemma_chain_empty, lemma_chain_extend,
    lemma_chain_len, lemma_deep_insert_err, lemma_deep_path, lemma_path_next_wf, node_wf, path_next, value_wf, NodeV, ValueV,
};
use crate::hamt::trie::node::persist::{base_savable, lemma_path_next_savable, value_savable};
use crate::hamt::trie::node::value::TrieValue;

verus! {

/// The value under the keys `keys`, one level after another from `map_base`:
/// every key but the last must lead to a nested trie.
pub fn deep_query(map_base: &TrieMapBase, keys: &Vec<TrieKey>, reader: &Reader) -> (r: Result<
Option<MemValue>,
QueryError,
>)
    requires
        keys@.len() >= 1,
        keys_wf(keys@),
    ensures
        match deep_lookup(reader.dview(), map_base.dview(), keys@, 0) {
            Ok(Some(v)) => r matches Ok(Some(m)) && m.dview() == v,
            Ok(None) => r == Ok::<Option<MemValue>, QueryError>(None),
            Err(e) => r == Err::<Option<MemValue>, QueryError>(e),
        },
{
    let ghost sp = reader.dview();
    let mut current_map_base = map_base.clone();
    let last_index = keys.len() - 1;
    let mut i: usize = 0;
    while i < last_index
        invariant
            last_index + 1 == keys@.len(),
            keys_wf(keys@),
            i <= last_index,
            sp == reader.dview(),
            deep_lookup(sp, map_base.dview(), keys@, 0) == deep_lookup(sp, current_map_base.dview(), keys@, i as nat),
        decreases last_index - i,
    {
        let k = keys[i];
        match current_map_base.query_value(k, reader) {
            Err(e) => return Err(e),
            Ok(None) => return Ok(None),
            Ok(Some(value)) => {
                match value.to_mem_value(reader) {
                    Err(e) => return Err(QueryError::Read(e)),
                    Ok(MemValue::MapBase(map_base)) => {
                        current_map_base = map_base;
                    },
                    Ok(MemValue::U32(_)) => return Err(QueryError::NoSubtrieAtKeyIndex(i)),
                }
            },
        }
        i = i + 1;
    }
    let k = keys[last_index];
    match current_map_base.query_value(k, reader) {
        Err(e) => Err(e),
        Ok(None) => Ok(None),
        Ok(Some(value)) => match value.to_mem_value(reader) {
            Err(e) => Err(QueryError::Read(e)),
            Ok(m) => Ok(Some(m)),
        },
    }
}

/// Views of a list of nodes.
pub open spec fn node_views(s: Seq<TrieMapBase>) -> Seq<NodeV> {
s.map_values(|m: TrieMapBase| m.dview())
}

/// The node below `map_base` along `key` for a deep insertion.
fn path_step(map_base: &TrieMapBase, key: TrieKey, reader: &Reader) -> (r: Result<TrieMapBase, TransactError>)
    requires
        key.wf(),
        node_wf(map_base.dview()),
        base_savable(reader.dview(), map_base.dview().base),
    ensures
        match path_next(reader.dview(), map_base.dview(), key) {
            Err(e) => r == Err::<TrieMapBase, TransactError>(e),
            Ok(c) => r matches Ok(m) && m.dview() == c && node_wf(c) && base_savable(reader.dview(), c.base),
        },
{
    proof {
        use_type_invariant(reader);
        lemma_path_next_wf(reader.dview(), map_base.dview(), key);
        lemma_path_next_savable(reader.dview(), map_base.dview(), key);
        reveal(path_next);
    }
    match map_base.query_value(key, reader) {
        Err(e) => Err(TransactError::Query(e)),
        Ok(None) => Ok(TrieMapBase::empty()),
        Ok(Some(found)) => match found.to_mem_value(reader) {
            Err(e) => Err(TransactError::SpaceReadError(e)),
            Ok(MemValue::MapBase(mb)) => Ok(mb),
            Ok(MemValue::U32(_)) => Err(TransactError::ExpectedMapBaseAtKey),
        },
    }
}

/// The nodes that a deep insertion under `keys` passes, from `map_base` on.
fn load_path(map_base: TrieMapBase, keys: &Vec<TrieKey>, reader: &Reader) -> (r: Result<
    Vec<TrieMapBase>,
    TransactError,
>)
    requires
        keys@.len() >= 1,
        keys_wf(keys@),
        node_wf(map_base.dview()),
        base_savable(reader.dview(), map_base.dview().base),
    ensures
        match deep_path(reader.dview(), map_base.dview(), keys@, 0) {
            Err(e) => r == Err::<Vec<TrieMapBase>, TransactError>(e),
            Ok(p) => r matches Ok(v) && node_views(v@) == p && forall|j: int|
                0 <= j < v@.len() ==> node_wf(#[trigger] v@[j].dview()) && base_savable(
                    reader.dview(),
                    v@[j].dview().base,
                ),
        },
{
    let ghost sp = reader.dview();
    let ghost root = map_base.dview();
    let ghost ks = keys@;
    let last_index = keys.len() - 1;
    let mut map_bases: Vec<TrieMapBase> = Vec::new();
    map_bases.push(map_base);
    proof {
        assert(node_views(map_bases@.take(0)) =~= Seq::<NodeV>::empty());
        match deep_path(sp, root, ks, 0) {
            Ok(p) => {
                assert(node_views(map_bases@.take(0)) + p =~= p);
            },
            Err(_) => {},
        }
    }
    let mut i: usize = 0;
    while i < last_index
        invariant
            last_index + 1 == ks.len(),
            ks == keys@,
            keys_wf(ks),
            i <= last_index,
            sp == reader.dview(),
            root == map_base.dview(),
            map_bases@.len() == i + 1,
            node_wf(map_bases@[i as int].dview()),
            base_savable(sp, map_bases@[i as int].dview().base),
            forall|j: int|
                0 <= j <= i ==> base_savable(sp, (#[trigger] map_bases@[j]).dview().base),
            match deep_path(sp, map_bases@[i as int].dview(), ks, i as nat) {
                Err(e) => deep_path(sp, root, ks, 0) == Err::<Seq<NodeV>, TransactError>(e),
                Ok(p) => deep_path(sp, root, ks, 0) == Ok::<Seq<NodeV>, TransactError>(
                    node_views(map_bases@.take(i as int)) + p,
                ),
            },
        decreases last_index - i,
    {
        let ghost cur = map_bases@[i as int].dview();
        let k = keys[i];
        proof {
            assert(k == ks[i as int]);
        }
        let next = match path_step(&map_bases[i], k, reader) {
            Ok(m) => m,
            Err(e) => {
                return Err(e);
            },
        };
        let ghost pre = map_bases@;
        map_bases.push(next);
        proof {
            assert(map_bases@[i as int + 1] == next);
            assert forall|j: int| 0 <= j <= i + 1 implies base_savable(sp, (#[trigger] map_bases@[j]).dview().base) by {
                if j <= i {
                    assert(map_bases@[j] == pre[j]);
                }
            }
            assert(node_views(map_bases@.take(i as int + 1)) =~= node_views(pre.take(i as int)) + seq![cur]);
            match deep_path(sp, next.dview(), ks, (i + 1) as nat) {
                Ok(p) => {
                    assert(node_views(pre.take(i as int)) + (seq![cur] + p) =~= node_views(
                        map_bases@.take(i as int + 1),
                    ) + p);
                },
                Err(_) => {},
            }
        }
        i = i + 1;
    }
    proof {
        assert(node_views(map_bases@.take(i as int)) + seq![map_bases@[i as int].dview()] =~= node_views(
            map_bases@,
        ));
        use_type_invariant(reader);
        lemma_deep_path(sp, root, ks, 0);
        assert forall|j: int| 0 <= j < map_bases@.len() implies node_wf(#[trigger] map_bases@[j].dview())
            && base_savable(reader.dview(), map_bases@[j].dview().base) by {
            assert(node_views(map_bases@)[j] == map_bases@[j].dview());
        }
    }
    Ok(map_bases)
}

/// Inserts `value` under `keys` into the nodes `map_bases` along its path,
/// from the deepest level up; the updated top node is returned.
fn insert_path(
    map_bases: Vec<TrieMapBase>,
    keys: &Vec<TrieKey>,
    value: TrieValue,
    reader: &Reader,
) -> (r: Result<TrieMapBase, TransactError>)
    requires
        keys@.len() >= 1,
        keys_wf(keys@),
        map_bases@.len() == keys@.len(),
        forall|j: int| 0 <= j < map_bases@.len() ==> node_wf(#[trigger] map_bases@[j].dview()),
        forall|j: int| 0 <= j < map_bases@.len() ==> base_savable(reader.dview(), (#[trigger] map_bases@[j]).dview().base),
        value_wf(value.dview()),
        value_savable(reader.dview(), value.dview()),
    ensures
        match deep_insert_err(reader.dview(), node_views(map_bases@), keys@, 0) {
            Some(e) => r == Err::<TrieMapBase, TransactError>(e),
            None => r matches Ok(m) && node_wf(m.dview()) && base_savable(reader.dview(), m.dview().base) && exists|news: Seq<NodeV>|
                deep_chain(reader.dview(), node_views(map_bases@), keys@, value.dview(), news) && news[0]
                    == m.dview(),
        },
{
    let ghost sp = reader.dview();
    let ghost path = node_views(map_bases@);
    let ghost ks = keys@;
    let ghost v = value.dview();
    proof {
        assert forall|t: int| 0 <= t < ks.len() implies node_wf(#[trigger] path[t]) && base_savable(sp, path[t].base) by {
            assert(node_wf(map_bases@[t].dview()));
            assert(base_savable(sp, map_bases@[t].dview().base));
        }
        assert(path.skip(ks.len() as int) =~= Seq::<NodeV>::empty());
        assert(ks.skip(ks.len() as int) =~= Seq::<TrieKey>::empty());
        lemma_chain_empty(sp, path.skip(ks.len() as int), ks.skip(ks.len() as int), v);
        assert(node_views(map_bases@) =~= path.take(ks.len() as int));
    }
    let mut bases = map_bases;
    let mut cur_value = value;
    let ghost mut news: Seq<NodeV> = Seq::empty();
    let mut j: usize = keys.len();
    loop
        invariant
            ks == keys@,
            keys_wf(ks),
            1 <= j <= ks.len(),
            sp == reader.dview(),
            path == node_views(map_bases@),
            v == value.dview(),
            path.len() == ks.len(),
            bases@.len() == j,
            node_views(bases@) == path.take(j as int),
            forall|t: int| 0 <= t < ks.len() ==> node_wf(#[trigger] path[t]) && base_savable(sp, path[t].base),
            value_wf(cur_value.dview()),
            value_savable(sp, cur_value.dview()),
            news.len() == ks.len() - j,
            cur_value.dview() == (if j == ks.len() {
                v
            } else {
                ValueV::Sub(news[0])
            }),
            deep_insert_err(sp, path, ks, j as nat) is None,
            deep_chain(sp, path.skip(j as int), ks.skip(j as int), v, news),
        decreases j,
    {
        let ghost pre_bases = bases@;
        let mb = match bases.pop() {
            Some(m) => m,
            None => vstd::pervasive::unreached(),
        };
        proof {
            assert(node_views(pre_bases)[j - 1] == path.take(j as int)[j - 1]);
            assert(mb.dview() == path[j - 1]);
            assert(node_views(bases@) =~= path.take(j - 1));
        }
        let k = keys[j - 1];
        let post = match mb.insert_kv(k, cur_value, reader) {
            Ok(m) => m,
            Err(e) => {
                proof {
                    lemma_deep_insert_err(sp, path, ks, 0, (j - 1) as nat);
                }
                return Err(e);
            },
        };
        proof {
            lemma_chain_extend(sp, path, ks, v, news, j as int, post.dview());
            news = seq![post.dview()] + news;
        }
        if j == 1 {
            proof {
                assert(path.skip(0) =~= path);
                assert(ks.skip(0) =~= ks);
                lemma_chain_len(sp, path, ks, v, news);
            }
            return Ok(post);
        }
        cur_value = TrieValue::Mem(MemValue::MapBase(post));
        j = j - 1;
    }
}

/// `map_base` with the keys `keys`, one level after another, leading to
/// `value`: the nested tries along the keys are updated from the deepest level
/// up, an empty one standing in where none exists yet.
pub fn deep_insert(map_base: TrieMapBase, keys: &Vec<TrieKey>, value: MemValue, reader: &Reader) -> (r: Result<
    TrieMapBase,
    TransactError,
>)
    requires
        keys@.len() >= 1,
        keys_wf(keys@),
        node_wf(map_base.dview()),
        base_savable(reader.dview(), map_base.dview().base),
        value_wf(value.dview()),
        value_savable(reader.dview(), value.dview()),
    ensures
        match deep_path(reader.dview(), map_base.dview(), keys@, 0) {
            Err(e) => r == Err::<TrieMapBase, TransactError>(e),
            Ok(path) => match deep_insert_err(reader.dview(), path, keys@, 0) {
                Some(e) => r == Err::<TrieMapBase, TransactError>(e),
                None => r matches Ok(m) && node_wf(m.dview()) && base_savable(reader.dview(), m.dview().base)
                    && exists|news: Seq<NodeV>|
                    deep_chain(reader.dview(), path, keys@, value.dview(), news) && news[0] == m.dview(),
            },
        },
{
    proof {
        use_type_invariant(reader);
        lemma_deep_path(reader.dview(), map_base.dview(), keys@, 0);
    }
    let map_bases = match load_path(map_base, keys, reader) {
        Ok(v) => v,
        Err(e) => return Err(e),
    };
    insert_path(map_bases, keys, TrieValue::Mem(value), reader)
}

} // verus!
