use lib::client::QueryError;
use lib::hamt::space::{Addr, ReadError, Seg, TableAddr, TablePos};
use lib::hamt::trie::mem::value::MemValue;
use lib::hamt::trie::node::key::TrieKey;
use lib::hamt::trie::node::map::TrieMap;
use lib::hamt::trie::space::map_base::{SlotValue, SpaceBase, SpaceKeyValue, SpaceMapBase, SpaceSlot};

#[test]
fn key_value_item_unpacks_to_its_key_and_value() {
    let slot = SpaceSlot::from_key_value(-5, 7);
    assert_eq!(SlotValue(0xffff_fffb, 7), slot.into_slot_value());
    let slot = SpaceSlot::from_key_value(-5, 7);
    assert!(slot.is_key_value());
    assert!(!slot.is_map_base());
    assert!(slot.to_map_base().is_none());
    let kv = slot.to_key_value().unwrap();
    assert_eq!(-5, kv.to_key());
    assert_eq!(7, kv.to_value());
}

#[test]
fn map_base_item_unpacks_to_its_map_and_position() {
    let slot = SpaceSlot::from_map_base(TrieMap(0x8000_0001), TablePos(12));
    assert_eq!(SlotValue(0x8000_0001, 0x8000_000c), slot.into_slot_value());
    let slot = SpaceSlot::from_map_base(TrieMap(0x8000_0001), TablePos(12));
    assert!(slot.is_map_base());
    assert!(!slot.is_key_value());
    assert!(slot.to_key_value().is_none());
    let mb = slot.to_map_base().unwrap();
    assert_eq!(TrieMap(0x8000_0001), mb.to_map());
    assert_eq!(TablePos(12), mb.to_base_addr());
    assert_eq!((TrieMap(0x8000_0001), TablePos(12)), mb.into_map_base_addr());
}

#[test]
fn space_key_value_keeps_the_slot() {
    let kv = SpaceKeyValue::new(i32::MIN, 0x7fff_ffff);
    assert_eq!(i32::MIN, kv.to_key());
    assert_eq!(0x7fff_ffff, kv.to_value());
    assert_eq!(SlotValue(0x8000_0000, 0x7fff_ffff), kv.into_slot_value());
}

#[test]
fn space_map_base_from_its_slot_value() {
    let mb = SpaceMapBase::new(TrieMap(3), TablePos(5));
    let slot_value = mb.to_slot_value();
    assert_eq!(SlotValue(3, 0x8000_0005), slot_value);
    let back = SpaceMapBase::from_slot_value(slot_value);
    assert_eq!(TrieMap(3), back.to_map());
    assert_eq!(TablePos(5), back.to_base_addr());
    assert_eq!(SlotValue(3, 0x8000_0005), back.into_slot_value());
}

#[test]
fn space_base_reads_items_after_its_position() {
    let table = [SlotValue(1, 1), SlotValue(2, 2), SlotValue(3, 0x8000_0000)];
    let base = SpaceMapBase::new(TrieMap(1), TablePos(1)).extract_base();
    let slot = base.read_slot(&table, 0).unwrap();
    assert_eq!(SlotValue(2, 2), slot.into_slot_value());
    let slot = base.read_slot(&table, 1).unwrap();
    assert!(slot.is_map_base());
    match base.read_slot(&table, 2) {
        Err(e) => assert_eq!(
            QueryError::Read(ReadError::TablePosWithOffsetExceedsSegmentLen(TablePos(1), 2, 3)),
            e
        ),
        Ok(_) => panic!("expected an error past the table"),
    }
}

fn packed_table() -> (Vec<SlotValue>, SpaceMapBase) {
    // Keys 8 and 40 share map index 8 at their first position and part at the
    // next one, so they sit in a nested map base at position 0.
    let sub_map = 0x8000_0000u32 | (0x8000_0000u32 >> 1);
    let table = vec![
        SlotValue(8, 80),
        SlotValue(40, 400),
        SlotValue(1, 10),
        SlotValue(sub_map, 0x8000_0000),
    ];
    let root_map = (0x8000_0000u32 >> 1) | (0x8000_0000u32 >> 8);
    (table, SpaceMapBase::new(TrieMap(root_map), TablePos(2)))
}

#[test]
fn packed_lookup_follows_nested_map_bases() {
    let (table, root) = packed_table();
    assert_eq!(Some(MemValue::U32(10)), root.query_value(TrieKey::new(1), &table).unwrap());
    assert_eq!(Some(MemValue::U32(80)), root.query_value(TrieKey::new(8), &table).unwrap());
    assert_eq!(Some(MemValue::U32(400)), root.query_value(TrieKey::new(40), &table).unwrap());
    assert_eq!(None, root.query_value(TrieKey::new(72), &table).unwrap());
    assert_eq!(None, root.query_value(TrieKey::new(2), &table).unwrap());
    assert_eq!(None, root.query_value(TrieKey::new(33), &table).unwrap());
}

#[test]
fn packed_lookup_past_the_table_fails() {
    let (table, _) = packed_table();
    let root = SpaceMapBase::new(TrieMap(0x8000_0000u32 >> 1), TablePos(7));
    assert_eq!(
        Err(QueryError::Read(ReadError::TablePosWithOffsetExceedsSegmentLen(TablePos(7), 0, 4))),
        root.query_value(TrieKey::new(1), &table)
    );
}

#[test]
fn packed_entries_come_in_item_order() {
    let (table, root) = packed_table();
    let entries = root.query_key_values(&table).unwrap();
    assert_eq!(vec![(1, MemValue::U32(10)), (8, MemValue::U32(80)), (40, MemValue::U32(400))], entries);
}

#[test]
fn packed_map_base_loads_from_its_item() {
    let (table, root) = packed_table();
    let loaded = SpaceMapBase::load(&table, TablePos(3)).unwrap();
    assert_eq!(TrieMap(0x8000_0000u32 | (0x8000_0000u32 >> 1)), loaded.to_map());
    assert_eq!(TablePos(0), loaded.to_base_addr());
    match SpaceMapBase::load(&table, TablePos(9)) {
        Err(e) => assert_eq!(
            QueryError::Read(ReadError::TablePosWithOffsetExceedsSegmentLen(TablePos(9), 0, 4)),
            e
        ),
        Ok(_) => panic!("expected an error past the table"),
    }
    match root.to_slot(TrieKey::new(8), &table).unwrap() {
        Some(slot) => assert!(slot.is_map_base()),
        None => panic!("expected the nested map base"),
    }
    assert!(root.to_slot(TrieKey::new(2), &table).unwrap().is_none());
}

#[test]
fn packed_key_value_answers_its_own_key() {
    let kv = SpaceKeyValue::new(-3, 9);
    assert_eq!(Some(MemValue::U32(9)), kv.query_value(TrieKey::new(-3), &[]).unwrap());
    assert_eq!(None, kv.query_value(TrieKey::new(3), &[]).unwrap());
    assert_eq!((-3, MemValue::U32(9)), kv.to_key_and_value(&[]).unwrap());
}

#[test]
fn space_base_from_a_packed_map_base() {
    let table = [SlotValue(1, 1), SlotValue(2, 2), SlotValue(3, 3)];
    let base = SpaceBase::from(SlotValue(5, 0x8000_0002));
    assert_eq!(SlotValue(3, 3), base.read_slot(&table, 0).unwrap().into_slot_value());
}

#[test]
fn table_positions_add_offsets() {
    assert_eq!(TablePos(7), TablePos(3) + 4);
    assert_eq!(TablePos(3), TablePos(3) + 0);
}

#[test]
fn table_address_is_an_address() {
    let addr = TableAddr(Seg(2), TablePos(9));
    assert_eq!(Addr::Table(addr), Addr::from(addr));
}
