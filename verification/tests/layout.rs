use lib::hamt::space::mem::MemSpace;
use lib::hamt::titan::Titan;
use lib::hamt::trie::mem::base::MemBase;
use lib::hamt::trie::mem::slot::MemSlot;
use lib::hamt::trie::mem::value::MemValue;
use lib::hamt::trie::node::base::TrieBase;
use lib::hamt::trie::node::key::TrieKey;
use lib::hamt::trie::node::map::TrieMap;
use lib::hamt::trie::node::map_base::TrieMapBase;
use lib::hamt::trie::node::value::TrieValue;
use lib::hamt::space::TablePos;
use lib::hamt::trie::space::map_base::SlotValue;

fn mem_node(map: u32, slots: Vec<MemSlot>) -> TrieMapBase {
    TrieMapBase { map: TrieMap(map), base: TrieBase::Mem(MemBase { slots }) }
}

#[test]
fn insert_orders_slots_by_map_index() {
    let space = MemSpace::new();
    let r = space.read().unwrap();
    let m = TrieMapBase::empty().insert_kv(TrieKey::new(5), TrieValue::u32(50), &r).unwrap();
    let m = m.insert_kv(TrieKey::new(2), TrieValue::u32(20), &r).unwrap();
    let expected = mem_node(
        0x2400_0000,
        vec![MemSlot::KeyValue(2, TrieValue::u32(20)), MemSlot::KeyValue(5, TrieValue::u32(50))],
    );
    assert_eq!(expected, m);
}

#[test]
fn insert_of_a_present_key_replaces_its_value() {
    let space = MemSpace::new();
    let r = space.read().unwrap();
    let m = TrieMapBase::empty().insert_kv(TrieKey::new(5), TrieValue::u32(50), &r).unwrap();
    let m = m.insert_kv(TrieKey::new(5), TrieValue::u32(51), &r).unwrap();
    assert_eq!(mem_node(0x0400_0000, vec![MemSlot::KeyValue(5, TrieValue::u32(51))]), m);
}

#[test]
fn two_kv_nests_while_indices_agree() {
    let space = MemSpace::new();
    let r = space.read().unwrap();
    let slot = MemSlot::two_kv(TrieKey::new(5), TrieValue::u32(50), TrieKey::new(37), TrieValue::u32(70), &r).unwrap();
    let inner = mem_node(
        0xC000_0000,
        vec![MemSlot::KeyValue(5, TrieValue::u32(50)), MemSlot::KeyValue(37, TrieValue::u32(70))],
    );
    let expected = MemSlot::MapBase(mem_node(0x0400_0000, vec![MemSlot::MapBase(inner)]));
    assert_eq!(expected, slot);
}

#[test]
fn insert_of_a_colliding_key_splits_its_slot() {
    let space = MemSpace::new();
    let r = space.read().unwrap();
    let m = TrieMapBase::empty().insert_kv(TrieKey::new(5), TrieValue::u32(50), &r).unwrap();
    let m = m.insert_kv(TrieKey::new(37), TrieValue::u32(70), &r).unwrap();
    let inner = mem_node(
        0xC000_0000,
        vec![MemSlot::KeyValue(5, TrieValue::u32(50)), MemSlot::KeyValue(37, TrieValue::u32(70))],
    );
    assert_eq!(mem_node(0x0400_0000, vec![MemSlot::MapBase(inner)]), m);
}

#[test]
fn merge_into_a_sub_trie_is_its_insertion() {
    let space = MemSpace::new();
    let r = space.read().unwrap();
    let m = TrieMapBase::empty().insert_kv(TrieKey::new(5), TrieValue::u32(50), &r).unwrap();
    let m = m.insert_kv(TrieKey::new(37), TrieValue::u32(70), &r).unwrap();
    let m = m.insert_kv(TrieKey::new(69), TrieValue::u32(90), &r).unwrap();
    // Key 69 has map index 5 and then 2.
    let inner = mem_node(
        0xE000_0000,
        vec![
            MemSlot::KeyValue(5, TrieValue::u32(50)),
            MemSlot::KeyValue(37, TrieValue::u32(70)),
            MemSlot::KeyValue(69, TrieValue::u32(90)),
        ],
    );
    assert_eq!(mem_node(0x0400_0000, vec![MemSlot::MapBase(inner)]), m);
    let sub = mem_node(
        0xC000_0000,
        vec![MemSlot::KeyValue(5, TrieValue::u32(50)), MemSlot::KeyValue(37, TrieValue::u32(70))],
    );
    let merged = MemSlot::MapBase(sub).merge_kv(TrieKey::new(69), TrieValue::u32(90), &r).unwrap();
    let direct = mem_node(
        0xC000_0000,
        vec![MemSlot::KeyValue(5, TrieValue::u32(50)), MemSlot::KeyValue(37, TrieValue::u32(70))],
    )
    .insert_kv(TrieKey::new(69).next(), TrieValue::u32(90), &r)
    .unwrap();
    assert_eq!(MemSlot::MapBase(direct), merged);
}

#[test]
fn titan_nested_trie_has_one_slot() {
    let mut trie = Titan::new();
    trie.insert([TrieKey::new(4), TrieKey::new(2)], MemValue::U32(42)).unwrap();
    let Some(MemValue::MapBase(map_base)) = trie.query_value([TrieKey::new(4)]).unwrap() else {
        panic!("expected map_base");
    };
    assert_eq!(mem_node(0x2000_0000, vec![MemSlot::KeyValue(2, TrieValue::u32(42))]), map_base);
}

#[test]
fn packed_form_answers_as_the_node() {
    let space = MemSpace::new();
    let r = space.read().unwrap();
    let mut m = TrieMapBase::empty();
    for (k, v) in [(5, 50), (37, 70), (2, 20)] {
        m = m.insert_kv(TrieKey::new(k), TrieValue::u32(v), &r).unwrap();
    }
    let mut table: Vec<SlotValue> = vec![SlotValue(0, 0)];
    let packed = m.clone().into_space_map_base(&mut table).unwrap();
    // The nested node of keys 5 and 37 comes first, then the root's two items.
    assert_eq!(5, table.len());
    assert_eq!(vec![SlotValue(5, 50), SlotValue(37, 70)], table[1..3].to_vec());
    assert_eq!(TablePos(3), packed.to_base_addr());
    for k in [5, 37, 2, 69, 3] {
        let expected = m.query_value(TrieKey::new(k), &r).unwrap().map(|v| MemValue::U32(v.to_u32()));
        assert_eq!(expected, packed.query_value(TrieKey::new(k), &table).unwrap());
    }
    assert_eq!(
        vec![(2, MemValue::U32(20)), (5, MemValue::U32(50)), (37, MemValue::U32(70))],
        packed.query_key_values(&table).unwrap()
    );
}

#[test]
fn insert_counts_entries() {
    let space = MemSpace::new();
    let r = space.read().unwrap();
    let mut m = TrieMapBase::empty();
    for (k, v) in [(5, 50), (37, 70), (2, 20), (5, 51)] {
        m = m.insert_kv(TrieKey::new(k), TrieValue::u32(v), &r).unwrap();
    }
    assert_eq!(3, m.query_key_values(&r).unwrap().len());
}
