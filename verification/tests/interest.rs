use blockworld::connection::{ClientConnection, PeerAddr};
use blockworld::player::Player;
use blockworld::world::{World, WorldError};

fn addr(n: u16) -> PeerAddr {
    PeerAddr { ip: 0x7f00_0001, port: n }
}

fn add_player(w: &mut World, id: u32, port: u16) {
    let p = Player::spawn_at(w, 1).unwrap();
    w.players.push(ClientConnection::new(addr(port), format!("p{id}"), id, p));
}

fn world() -> World {
    let mut w = World::generate_empty(32, 32, 16, 16, 1).unwrap();
    add_player(&mut w, 10, 1);
    add_player(&mut w, 20, 2);
    w
}

#[test]
fn mark_records_player_once() {
    let mut w = world();
    let chunk = w.mark_chunk_loaded_by_id(1, 0, 10).unwrap();
    assert_eq!((chunk.chunk_x, chunk.chunk_y), (1, 0));
    assert_eq!(w.player_loaded[1], vec![10]);
    assert_eq!(
        w.mark_chunk_loaded_by_id(1, 0, 10).err(),
        Some(WorldError::ChunkAlreadyLoaded)
    );
    assert_eq!(w.player_loaded[1], vec![10]);
    assert!(w.mark_chunk_loaded_by_id(1, 0, 20).is_ok());
    assert_eq!(w.player_loaded[1], vec![10, 20]);
}

#[test]
fn mark_ignores_unknown_player() {
    let mut w = world();
    assert!(w.mark_chunk_loaded_by_id(0, 1, 99).is_ok());
    assert!(w.player_loaded[2].is_empty());
}

#[test]
fn mark_outside_world_fails() {
    let mut w = world();
    assert_eq!(
        w.mark_chunk_loaded_by_id(2, 0, 10).err(),
        Some(WorldError::OutOfBoundsChunk(2, 0))
    );
    assert_eq!(
        w.unmark_loaded_chunk_for(0, 2, 10),
        Err(WorldError::OutOfBoundsChunk(0, 2))
    );
    assert_eq!(
        w.get_list_of_players_loading_chunk(5, 5).err(),
        Some(WorldError::OutOfBoundsChunk(5, 5))
    );
}

#[test]
fn unmark_removes_only_that_player() {
    let mut w = world();
    w.mark_chunk_loaded_by_id(0, 0, 10).unwrap();
    w.mark_chunk_loaded_by_id(0, 0, 20).unwrap();
    assert_eq!(w.unmark_loaded_chunk_for(0, 0, 10), Ok(()));
    assert_eq!(w.player_loaded[0], vec![20]);
    assert_eq!(w.unmark_loaded_chunk_for(0, 0, 10), Ok(()));
    assert_eq!(w.player_loaded[0], vec![20]);
}

#[test]
fn unload_all_clears_player_everywhere() {
    let mut w = world();
    for (cx, cy) in [(0, 0), (1, 0), (0, 1), (1, 1)] {
        w.mark_chunk_loaded_by_id(cx, cy, 10).unwrap();
    }
    w.mark_chunk_loaded_by_id(1, 1, 20).unwrap();
    w.unload_all_for(10);
    for list in &w.player_loaded {
        assert!(!list.contains(&10));
    }
    assert_eq!(w.player_loaded[3], vec![20]);
}

#[test]
fn players_loading_resolves_connections_in_order() {
    let mut w = world();
    w.mark_chunk_loaded_by_id(1, 1, 20).unwrap();
    w.mark_chunk_loaded_by_id(1, 1, 10).unwrap();
    let list = w.get_list_of_players_loading_chunk(1, 1).unwrap();
    let ids: Vec<u32> = list.iter().map(|c| c.id).collect();
    assert_eq!(ids, vec![20, 10]);
    assert_eq!(list[0].addr, addr(2));
    assert!(w.get_list_of_players_loading_chunk(0, 0).unwrap().is_empty());
}
