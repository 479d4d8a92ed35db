use blockworld::block::{is_solid, Block};
use blockworld::item::{Item, ItemStack};

#[test]
fn block_ids_round_trip() {
    for id in 0u8..=6 {
        assert_eq!(Block::from_id(id).id(), id);
    }
    assert_eq!(Block::from_id(200), Block::Air);
}

#[test]
fn solidity_follows_catalog() {
    assert!(!is_solid(Block::Air));
    assert!(!is_solid(Block::Water));
    assert!(is_solid(Block::Stone));
}

#[test]
fn with_count_keeps_item() {
    let s = ItemStack::single(Item::Stone).with_count(7);
    assert_eq!(s.item, Item::Stone);
    assert_eq!(s.count, 7);
}
