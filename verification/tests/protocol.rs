use blockworld::block::Block;
use blockworld::chunk::Chunk;
use blockworld::item::{Item, ItemStack, NetworkItemStack};
use blockworld::network::{PacketKind, PacketTypes};
use blockworld::scalar::{
    block_to_scalar, isqrt, on_grid, round_to_block, round_to_cell, sat_add, sat_neg, sat_sub, snap,
    UNIT,
};

#[test]
fn tags_follow_the_table() {
    let table = [
        (PacketKind::ClientHello, 1u8),
        (PacketKind::ServerSync, 2),
        (PacketKind::ClientRequestChunk, 3),
        (PacketKind::ServerChunkResponse, 4),
        (PacketKind::ClientUnloadChunk, 5),
        (PacketKind::ServerPlayerJoin, 6),
        (PacketKind::ServerPlayerEnterLoaded, 7),
        (PacketKind::ServerPlayerLeaveLoaded, 8),
        (PacketKind::ServerPlayerLeave, 9),
        (PacketKind::ClientGoodbye, 10),
        (PacketKind::ClientPlaceBlock, 11),
        (PacketKind::ServerUpdateBlock, 12),
        (PacketKind::ClientPlayerXVelocity, 13),
        (PacketKind::ClientPlayerJump, 14),
        (PacketKind::ServerPlayerUpdatePos, 15),
        (PacketKind::ServerKick, 16),
        (PacketKind::ServerHeartbeat, 17),
        (PacketKind::ClientHeartbeat, 18),
        (PacketKind::ClientSendMessage, 19),
        (PacketKind::ServerSendMessage, 20),
        (PacketKind::ClientBreakBlock, 21),
        (PacketKind::ClientTryAttack, 22),
        (PacketKind::ClientChangeSlot, 23),
        (PacketKind::ServerUpdateHealth, 24),
        (PacketKind::ServerUpdateInventory, 25),
    ];
    for (kind, tag) in table {
        assert_eq!(kind.tag(), tag);
        assert_eq!(PacketKind::from_tag(tag), kind);
    }
}

#[test]
fn unknown_tags_are_invalid() {
    assert_eq!(PacketKind::from_tag(0), PacketKind::Invalid);
    for tag in 27u8..=255 {
        assert_eq!(PacketKind::from_tag(tag), PacketKind::Invalid);
    }
    for tag in 0u8..=26 {
        assert_eq!(PacketKind::from_tag(tag).tag(), tag);
    }
}

#[test]
fn messages_know_their_kind() {
    assert_eq!(PacketTypes::ClientGoodbye {}.kind(), PacketKind::ClientGoodbye);
    assert_eq!(PacketTypes::ServerUpdateHealth { health: 3 }.tag(), 24);
    assert_eq!(PacketTypes::ClientPlayerRespawn {}.tag(), 26);
    assert_eq!(PacketTypes::ClientHello { name: "x".to_string() }.tag(), 1);
}

#[test]
fn wire_forms_carry_ids() {
    let wire = NetworkItemStack::from(ItemStack { item: Item::WaterBucket, count: 9 });
    assert_eq!(wire, NetworkItemStack { item: 5, count: 9 });
    assert_eq!(ItemStack::from(Item::Ore), ItemStack { item: Item::Ore, count: 1 });
    let mut c = Chunk::empty(3, 4, 5);
    c.set_block(1, 2, Block::Water);
    assert_eq!(c.get_block(1, 2), Block::Water);
    let n = c.to_network();
    assert_eq!((n.size, n.chunk_x, n.chunk_y), (3, 4, 5));
    assert_eq!(n.blocks, vec![0, 0, 0, 0, 0, 0, 0, 5, 0]);
    assert_eq!(Block::from(5u8), Block::Water);
    assert_eq!(u8::from(Block::Ore), 6);
    assert_eq!(Option::<Item>::from(Block::Water), Some(Item::WaterBucket));
    assert_eq!(Option::<Item>::from(Block::Air), None);
    assert_eq!(Option::<Block>::from(Item::WoodAxe), None);
    assert_eq!(Option::<Block>::from(Item::Leaves), Some(Block::Leaves));
    assert_eq!(Block::Stone.hardness(), 1);
    assert_eq!(Block::Ore.hardness(), 2);
}

#[test]
fn scalars_round_half_away_from_zero() {
    assert_eq!(round_to_cell(0), 0);
    assert_eq!(round_to_cell(UNIT / 2 - 1), 0);
    assert_eq!(round_to_cell(UNIT / 2), 1);
    assert_eq!(round_to_cell(-UNIT / 2), -1);
    assert_eq!(round_to_cell(-UNIT / 2 + 1), 0);
    assert_eq!(round_to_cell(7 * UNIT + 5), 7);
    assert_eq!(round_to_block(-9 * UNIT), 0);
    assert_eq!(round_to_block(9 * UNIT - 3), 9);
    assert_eq!(round_to_block(i64::MAX), u32::MAX);
    assert_eq!(snap(3 * UNIT + 17), 3 * UNIT);
    assert_eq!(snap(-3 * UNIT - 17), -3 * UNIT);
    assert!(on_grid(-4 * UNIT));
    assert!(!on_grid(4 * UNIT + 1));
    assert_eq!(block_to_scalar(12), 12 * UNIT);
}

#[test]
fn scalar_arithmetic_saturates() {
    assert_eq!(sat_add(i64::MAX, 1), i64::MAX);
    assert_eq!(sat_add(i64::MIN, -1), i64::MIN);
    assert_eq!(sat_add(5, -7), -2);
    assert_eq!(sat_sub(i64::MIN, 1), i64::MIN);
    assert_eq!(sat_sub(i64::MAX, -1), i64::MAX);
    assert_eq!(sat_sub(5, 7), -2);
    assert_eq!(sat_neg(i64::MIN), i64::MAX);
    assert_eq!(sat_neg(3), -3);
}

#[test]
fn integer_square_root_rounds_down() {
    for (n, r) in [(0u64, 0u64), (1, 1), (3, 1), (4, 2), (24, 4), (25, 5), (26, 5)] {
        assert_eq!(isqrt(n), r);
    }
    assert_eq!(isqrt(244_140_625_000_000), 15_625_000);
    assert_eq!(isqrt(244_140_624_999_999), 15_624_999);
}

#[test]
fn envelope_keeps_kind_and_bytes() {
    let p = blockworld::network::Packet::seal(PacketKind::ClientBreakBlock, vec![1, 2, 3]);
    assert_eq!(p.t, 21);
    assert_eq!(p.data, vec![1, 2, 3]);
    assert_eq!(p.kind(), PacketKind::ClientBreakBlock);
    let odd = blockworld::network::Packet { t: 200, data: vec![] };
    assert_eq!(odd.kind(), PacketKind::Invalid);
}
