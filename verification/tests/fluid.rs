use blockworld::block::Block;
use blockworld::connection::{ClientConnection, PeerAddr};
use blockworld::network::{Outbound, PacketTypes};
use blockworld::player::Player;
use blockworld::world::World;

fn flat_stone(width: u32, height: u32, level: u32) -> World {
    let mut w = World::generate_empty(width, height, 4, width / 2, 1).unwrap();
    for y in 0..level {
        for x in 0..width {
            w.raw_set_block(x, y, Block::Stone).unwrap();
        }
    }
    w
}

fn water_cells(w: &World) -> Vec<(u32, u32)> {
    let mut v = Vec::new();
    for y in 0..w.height {
        for x in 0..w.width {
            if w.get_block(x, y).unwrap() == Block::Water {
                v.push((x, y));
            }
        }
    }
    v
}

#[test]
fn water_spreads_down_left_right_one_cell_per_tick() {
    // stone up to row 9, with a shaft one cell wide under (5, 10)
    let mut w = flat_stone(12, 16, 10);
    for y in 5..10 {
        w.raw_set_block(5, y, Block::Air).unwrap();
    }
    w.set_block(5, 10, Block::Water).unwrap();
    assert_eq!(w.to_update, vec![(5, 10)]);
    let mut out: Vec<Outbound> = Vec::new();
    assert_eq!(w.tick_water(&mut out), Ok(()));
    assert_eq!(water_cells(&w), vec![(5, 9), (4, 10), (5, 10), (6, 10)]);
    assert_eq!(w.to_update, vec![(5, 9), (4, 10), (6, 10)]);
    assert_eq!(w.tick_water(&mut out), Ok(()));
    assert_eq!(
        water_cells(&w),
        vec![(5, 8), (5, 9), (3, 10), (4, 10), (5, 10), (6, 10), (7, 10)]
    );
    for _ in 0..20 {
        w.tick_water(&mut out).unwrap();
    }
    assert_eq!(w.get_block(5, 11), Ok(Block::Air));
    assert_eq!(w.get_block(5, 5), Ok(Block::Water));
    assert_eq!(w.get_block(0, 10), Ok(Block::Water));
    assert_eq!(w.get_block(11, 10), Ok(Block::Water));
    assert!(water_cells(&w).iter().all(|c| c.1 <= 10));
    assert!(w.to_update.is_empty());
    assert!(out.is_empty());
}

#[test]
fn tick_changes_only_air_into_water() {
    let mut w = flat_stone(8, 8, 2);
    w.raw_set_block(3, 3, Block::Wood).unwrap();
    w.set_block(2, 3, Block::Water).unwrap();
    w.set_block(6, 5, Block::Water).unwrap();
    let mut out: Vec<Outbound> = Vec::new();
    for _ in 0..12 {
        let before: Vec<Block> = (0..64).map(|i| w.get_block(i % 8, i / 8).unwrap()).collect();
        w.tick_water(&mut out).unwrap();
        for i in 0..64u32 {
            let now = w.get_block(i % 8, i / 8).unwrap();
            let was = before[i as usize];
            assert!(now == was || (was == Block::Air && now == Block::Water));
        }
    }
    assert_eq!(w.get_block(3, 3), Ok(Block::Wood));
}

#[test]
fn stale_queue_entry_does_not_spread() {
    let mut w = flat_stone(8, 8, 2);
    w.set_block(3, 4, Block::Water).unwrap();
    w.raw_set_block(3, 4, Block::Air).unwrap();
    let mut out: Vec<Outbound> = Vec::new();
    w.tick_water(&mut out).unwrap();
    assert!(water_cells(&w).is_empty());
    assert!(w.to_update.is_empty());
}

#[test]
fn writing_over_queued_water_dequeues_it() {
    let mut w = flat_stone(8, 8, 2);
    w.set_block(3, 4, Block::Water).unwrap();
    w.set_block(4, 4, Block::Water).unwrap();
    w.set_block(3, 4, Block::Stone).unwrap();
    assert_eq!(w.to_update, vec![(4, 4)]);
}

#[test]
fn block_updates_go_to_chunk_holders() {
    let mut w = flat_stone(8, 8, 2);
    let a = PeerAddr { ip: 1, port: 100 };
    let b = PeerAddr { ip: 2, port: 200 };
    let p = Player::spawn_at(&w, 1).unwrap();
    w.players.push(ClientConnection::new(a, "a".to_string(), 1, p));
    w.players.push(ClientConnection::new(b, "b".to_string(), 2, p));
    w.mark_chunk_loaded_by_id(1, 0, 2).unwrap();
    w.mark_chunk_loaded_by_id(1, 0, 1).unwrap();
    w.mark_chunk_loaded_by_id(0, 0, 1).unwrap();
    let mut out: Vec<Outbound> = Vec::new();
    assert_eq!(w.set_block_and_notify(&mut out, 5, 3, Block::Grass), Ok(()));
    assert_eq!(out.len(), 2);
    assert_eq!(out[0].addr, b);
    assert_eq!(out[1].addr, a);
    for o in &out {
        match &o.packet {
            PacketTypes::ServerUpdateBlock { block, x, y } => {
                assert_eq!((*block, *x, *y), (1, 5, 3));
            }
            other => panic!("unexpected packet {other:?}"),
        }
    }
    out.clear();
    assert!(w.set_block_and_notify(&mut out, 50, 3, Block::Grass).is_err());
    assert!(out.is_empty());
}

#[test]
fn neighbours_outside_world_are_none() {
    let mut w = flat_stone(8, 8, 0);
    w.raw_set_block(1, 0, Block::Stone).unwrap();
    let n = w.get_neighbours(0, 0);
    assert_eq!(n.bottom, None);
    assert_eq!(n.left, None);
    assert_eq!(n.right, Some((1, 0, Block::Stone)));
    assert_eq!(n.top, Some((0, 1, Block::Air)));
    let n = w.get_neighbours(7, 7);
    assert_eq!(n.top, None);
    assert_eq!(n.right, None);
}
