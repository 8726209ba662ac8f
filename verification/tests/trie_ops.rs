use lib::client::{QueryError, TransactError};
use lib::hamt::base::{Attr, Ent, Txid};
use lib::hamt::space::mem::MemSpace;
use lib::hamt::space::{ExtendError, Read, ReadError, Seg, TableAddr, TablePos, Val, Value, ValueAddr};
use lib::hamt::titan::Titan;
use lib::hamt::trie::deep_key::DeepKey;
use lib::hamt::trie::mem::slot::MemSlot;
use lib::hamt::trie::mem::value::MemValue;
use lib::hamt::trie::mem::MemTrie;
use lib::hamt::trie::node::key::TrieKey;
use lib::hamt::trie::node::map_base::TrieMapBase;
use lib::hamt::trie::node::value::TrieValue;
use lib::hamt::trie::space::SpaceTrie;
use lib::iroh_db::base::Tx;
use lib::reader::Reader;

fn u32_of(v: &TrieValue) -> u32 {
    match v {
        TrieValue::Mem(MemValue::U32(x)) => *x,
        _ => panic!("expected a plain value"),
    }
}

#[test]
fn trie_value_rejects_high_bit() {
    assert_eq!(Err(TransactError::HighBitInValue(0x8000_0000)), TrieValue::new(0x8000_0000));
    assert_eq!(Err(TransactError::HighBitInValue(0xffff_ffff)), TrieValue::new(0xffff_ffff));
    let v = TrieValue::new(0x7fff_ffff).unwrap();
    assert_eq!(0x7fff_ffff, v.to_u32());
    assert_eq!(0x7fff_ffff, v.to_value());
}

#[test]
fn mem_trie_insert_then_query() {
    let trie = MemTrie::empty();
    assert_eq!(Ok(None), trie.query_value(TrieKey::new(1)));
    let trie = trie.insert(TrieKey::new(1), TrieValue::u32(10)).unwrap();
    let trie = trie.insert(TrieKey::new(33), TrieValue::u32(330)).unwrap();
    let trie = trie.insert(TrieKey::new(1), TrieValue::u32(11)).unwrap();
    assert_eq!(Some(11), trie.query_value(TrieKey::new(1)).unwrap().map(|v| u32_of(&v)));
    assert_eq!(Some(330), trie.query_value(TrieKey::new(33)).unwrap().map(|v| u32_of(&v)));
    assert_eq!(None, trie.query_value(TrieKey::new(65)).unwrap().map(|v| u32_of(&v)));
    assert_eq!(None, trie.query_value(TrieKey::new(2)).unwrap().map(|v| u32_of(&v)));
}

#[test]
fn mem_trie_one_kv_holds_one_entry() {
    let trie = MemTrie::one_kv(TrieKey::new(-7), TrieValue::u32(70)).unwrap();
    assert_eq!(Some(70), trie.query_value(TrieKey::new(-7)).unwrap().map(|v| u32_of(&v)));
    let root = trie.root_map_base.unwrap();
    assert_eq!(1, root.map().slot_count());
    assert_eq!(1, root.base().len());
}

#[test]
fn many_colliding_keys_are_all_found() {
    // Keys 0, 32, ..., 224 share their first map index; larger ones spread out.
    let mut trie = MemTrie::empty();
    for i in 0..40 {
        trie = trie.insert(TrieKey::new(i * 32), TrieValue::u32(i as u32)).unwrap();
    }
    for i in 0..40 {
        let v = trie.query_value(TrieKey::new(i * 32)).unwrap();
        assert_eq!(Some(i as u32), v.map(|v| u32_of(&v)));
    }
    assert_eq!(None, trie.query_value(TrieKey::new(40 * 32)).unwrap().map(|v| u32_of(&v)));
}

#[test]
fn deep_key_keeps_one_key_per_level() {
    let key = DeepKey::new(&[3, -4, 5]);
    assert_eq!(3, key.len());
    assert_eq!(3, key.trie_keys().len());
    assert_eq!(TrieKey::new(-4), key.index(1));
    assert_eq!(5, key.index(2).i32());
    assert_eq!(0, DeepKey::new(&[]).len());
}

#[test]
fn deep_insert_through_a_plain_value_fails() {
    let space = MemSpace::new();
    let trie = SpaceTrie::connect(&space).unwrap().deep_insert([4, 4], MemValue::U32(44)).unwrap();
    match trie.deep_insert([4, 4, 1], MemValue::U32(441)) {
        Err(TransactError::ExpectedMapBaseAtKey) => {}
        _ => panic!("expected ExpectedMapBaseAtKey"),
    }
}

#[test]
fn titan_insert_through_a_plain_value_leaves_it_unchanged() {
    let mut trie = Titan::new();
    trie.insert([TrieKey::new(1)], MemValue::U32(5)).unwrap();
    let result = trie.insert([TrieKey::new(1), TrieKey::new(2)], MemValue::U32(6));
    assert_eq!(Err(TransactError::ExpectedMapBaseAtKey), result);
    assert_eq!(Some(MemValue::U32(5)), trie.query_value([TrieKey::new(1)]).unwrap());
}

#[test]
fn query_key_values_lists_all_entries() {
    let space = MemSpace::new();
    let mut trie = SpaceTrie::connect(&space).unwrap();
    for k in [5, 1, 37] {
        trie = trie.insert(k, MemValue::U32(k as u32 * 10)).unwrap();
    }
    let mut kvs: Vec<(i32, u32)> =
        trie.query_key_values().unwrap().iter().map(|(k, v)| (*k, u32_of(v))).collect();
    kvs.sort();
    assert_eq!(vec![(1, 10), (5, 50), (37, 370)], kvs);
}

#[test]
fn query_key_values_after_commit_reads_the_space() {
    let mut space = MemSpace::new();
    {
        let mut trie = SpaceTrie::connect(&space).unwrap();
        for k in 0..40 {
            trie = trie.insert(k, MemValue::U32(k as u32 + 1)).unwrap();
        }
        trie.commit(&mut space).unwrap();
    }
    let trie = SpaceTrie::connect(&space).unwrap();
    let kvs = trie.query_key_values().unwrap();
    assert_eq!(40, kvs.len());
    let reader = space.read().unwrap();
    let mut pairs: Vec<(i32, u32)> = Vec::new();
    for (k, v) in kvs.iter() {
        match v.to_mem_value(&reader).unwrap() {
            MemValue::U32(x) => pairs.push((*k, x)),
            MemValue::MapBase(_) => panic!("expected a plain value"),
        }
    }
    pairs.sort();
    let expected: Vec<(i32, u32)> = (0..40).map(|k| (k, k as u32 + 1)).collect();
    assert_eq!(expected, pairs);
}

#[test]
fn to_subtrie_queries_a_nested_trie() {
    let space = MemSpace::new();
    let trie = SpaceTrie::connect(&space).unwrap().deep_insert([9, 8], MemValue::U32(98)).unwrap();
    let Some(MemValue::MapBase(map_base)) = trie.query_value(9).unwrap() else {
        panic!("expected map_base");
    };
    let sub = trie.to_subtrie(map_base);
    assert_eq!(Some(MemValue::U32(98)), sub.query_value(8).unwrap());
    assert_eq!(None, sub.query_value(9).unwrap());
}

#[test]
fn empty_space_has_empty_trie() {
    let space = MemSpace::new();
    let trie = SpaceTrie::connect(&space).unwrap();
    assert_eq!(None, trie.query_value(0).unwrap());
    assert_eq!(0, trie.query_key_values().unwrap().len());
    assert_eq!(Ok(None), trie.deep_query_value([1, 2]));
}

#[test]
fn commit_adds_one_segment() {
    let mut space = MemSpace::new();
    assert_eq!(0, space.len());
    let trie = SpaceTrie::connect(&space).unwrap().insert(1, MemValue::U32(1)).unwrap();
    trie.commit(&mut space).unwrap();
    assert_eq!(1, space.len());
    let trie = SpaceTrie::connect(&space).unwrap().insert(2, MemValue::U32(2)).unwrap();
    trie.commit(&mut space).unwrap();
    assert_eq!(2, space.len());
    let trie = SpaceTrie::connect(&space).unwrap();
    assert_eq!(Some(MemValue::U32(1)), trie.query_value(1).unwrap());
    assert_eq!(Some(MemValue::U32(2)), trie.query_value(2).unwrap());
}

#[test]
fn nested_tries_survive_commits() {
    let mut space = MemSpace::new();
    let trie = SpaceTrie::connect(&space).unwrap().deep_insert([1, 2, 3], MemValue::U32(123)).unwrap();
    trie.commit(&mut space).unwrap();
    let trie = SpaceTrie::connect(&space).unwrap().deep_insert([1, 2, 4], MemValue::U32(124)).unwrap();
    trie.commit(&mut space).unwrap();
    let trie = SpaceTrie::connect(&space).unwrap();
    assert_eq!(Some(MemValue::U32(123)), trie.deep_query_value([1, 2, 3]).unwrap());
    assert_eq!(Some(MemValue::U32(124)), trie.deep_query_value([1, 2, 4]).unwrap());
    assert_eq!(None, trie.deep_query_value([1, 2, 5]).unwrap());
    assert_eq!(Err(QueryError::NoSubtrieAtKeyIndex(2)), trie.deep_query_value([1, 2, 3, 4]));
}

#[test]
fn add_segment_with_wrong_number_conflicts() {
    let mut space = MemSpace::new();
    assert_eq!(Err(ExtendError::SegConflict(Seg(1))), space.add_segment(Seg(1), vec![], vec![], None));
    assert_eq!(0, space.len());
    assert_eq!(Ok(()), space.add_segment(Seg(0), vec![Value::U32(7)], vec![], None));
    assert_eq!(1, space.len());
    let reader = space.read().unwrap();
    assert_eq!(Ok(Value::U32(7)), reader.read_value(ValueAddr(Seg(0), Val(0))));
    assert_eq!(Err(ReadError::InvalidVal(Val(1))), reader.read_value(ValueAddr(Seg(0), Val(1))));
    assert_eq!(
        Err(ReadError::InvalidValueAddr(ValueAddr(Seg(3), Val(0)))),
        reader.read_value(ValueAddr(Seg(3), Val(0)))
    );
}

#[test]
fn stale_extension_conflicts_on_commit() {
    let mut space = MemSpace::new();
    let first = space.extend().unwrap();
    let second = space.extend().unwrap();
    assert_eq!(Ok(Seg(0)), first.commit(&mut space));
    assert_eq!(Err(ExtendError::SegConflict(Seg(0))), second.commit(&mut space));
    assert_eq!(1, space.len());
}

#[test]
fn extension_reads_its_own_values() {
    let space = MemSpace::new();
    let mut extend = space.extend().unwrap();
    let a = extend.add_value(Value::U32(1));
    let b = extend.add_value(Value::U32(2));
    assert_eq!(ValueAddr(Seg(0), Val(0)), a);
    assert_eq!(ValueAddr(Seg(0), Val(1)), b);
    assert_eq!(Ok(Value::U32(2)), extend.read_value(b));
    assert_eq!(Err(ReadError::InvalidVal(Val(2))), extend.read_value(ValueAddr(Seg(0), Val(2))));
}

#[test]
fn map_base_two_kv_holds_both() {
    let reader_space = MemSpace::new();
    let reader = reader_space.read().unwrap();
    let mb = TrieMapBase::two_kv(TrieKey::new(1), TrieValue::u32(1), TrieKey::new(2), TrieValue::u32(2)).unwrap();
    assert_eq!(2, mb.map().slot_count());
    assert_eq!(Some(1), mb.query_value(TrieKey::new(1), &reader).unwrap().map(|v| u32_of(&v)));
    assert_eq!(Some(2), mb.query_value(TrieKey::new(2), &reader).unwrap().map(|v| u32_of(&v)));
    let empty = TrieMapBase::empty();
    assert_eq!(0, empty.map().slot_count());
    assert_eq!(None, empty.query_value(TrieKey::new(1), &reader).unwrap().map(|v| u32_of(&v)));
}

#[test]
fn transaction_numbers_count_up() {
    assert_eq!(Tx(1), Tx(0).next());
    assert_eq!(Tx(43), Tx(42).next());
    assert_eq!(Txid(0), Txid::floor());
}

#[test]
fn empty_reader_holds_no_values() {
    let reader = Reader::new();
    assert!(reader.query_value(Ent(1), Attr(2)).is_none());
}

#[test]
fn deep_insert_leaves_other_paths() {
    let space = MemSpace::new();
    let trie = SpaceTrie::connect(&space).unwrap();
    let trie = trie.deep_insert([1, 2], MemValue::U32(12)).unwrap();
    let trie = trie.deep_insert([1, 3], MemValue::U32(13)).unwrap();
    let trie = trie.deep_insert([2, 2], MemValue::U32(22)).unwrap();
    assert_eq!(Some(MemValue::U32(12)), trie.deep_query_value([1, 2]).unwrap());
    assert_eq!(Some(MemValue::U32(13)), trie.deep_query_value([1, 3]).unwrap());
    assert_eq!(Some(MemValue::U32(22)), trie.deep_query_value([2, 2]).unwrap());
    assert_eq!(None, trie.deep_query_value([2, 3]).unwrap());
}

#[test]
fn added_items_read_back_after_commit() {
    let mut space = MemSpace::new();
    let first = space.extend().unwrap();
    first.commit(&mut space).unwrap();
    let mut extend = space.extend().unwrap();
    let addr = extend.add_value(Value::U32(5));
    assert_eq!(ValueAddr(Seg(1), Val(0)), addr);
    assert_eq!(Ok(Value::U32(5)), extend.read_value(addr));
    extend.commit(&mut space).unwrap();
    let later = space.extend().unwrap();
    later.commit(&mut space).unwrap();
    assert_eq!(3, space.len());
    let reader = space.read().unwrap();
    assert_eq!(Ok(Value::U32(5)), reader.read_value(addr));
}

#[test]
fn added_table_items_read_back_at_their_offsets() {
    let mut space = MemSpace::new();
    let mut extend = space.extend().unwrap();
    let first = extend.add_items(vec![MemSlot::KeyValue(1, TrieValue::u32(10))]);
    let second = extend.add_items(vec![
        MemSlot::KeyValue(2, TrieValue::u32(20)),
        MemSlot::KeyValue(3, TrieValue::u32(30)),
    ]);
    assert_eq!(TableAddr(Seg(0), TablePos(0)), first);
    assert_eq!(TableAddr(Seg(0), TablePos(1)), second);
    assert_eq!(&MemSlot::KeyValue(3, TrieValue::u32(30)), extend.read_slot(&second, 1).unwrap());
    extend.commit(&mut space).unwrap();
    let reader = space.read().unwrap();
    assert_eq!(&MemSlot::KeyValue(1, TrieValue::u32(10)), reader.read_slot(&first, 0).unwrap());
    assert_eq!(&MemSlot::KeyValue(2, TrieValue::u32(20)), reader.read_slot(&second, 0).unwrap());
    assert_eq!(
        Err(ReadError::TablePosWithOffsetExceedsSegmentLen(TablePos(1), 2, 3)),
        reader.read_slot(&second, 2)
    );
    assert_eq!(
        Err(ReadError::InvalidTableAddr(TableAddr(Seg(4), TablePos(0)))),
        reader.read_slot(&TableAddr(Seg(4), TablePos(0)), 0)
    );
}

#[test]
fn small_trie_fits_one_commit() {
    let space = MemSpace::new();
    let mut trie = SpaceTrie::connect(&space).unwrap();
    assert!(trie.commit_fits());
    for k in 0..100 {
        trie = trie.deep_insert([k, k + 1], MemValue::U32(k as u32)).unwrap();
    }
    assert!(trie.commit_fits());
}
