use blockworld::block::Block;
use blockworld::connection::{ClientConnection, PeerAddr};
use blockworld::dispatch::{heartbeat, process_client_packet};
use blockworld::item::{Item, ItemStack, NetworkItemStack};
use blockworld::network::{Outbound, PacketOutcome, PacketTypes};
use blockworld::player::{Acceleration, Player, Velocity};
use blockworld::scalar::UNIT;
use blockworld::terrain::WorldType;
use blockworld::world::{World, WorldError};

fn addr(n: u16) -> PeerAddr {
    PeerAddr { ip: 0xc0a8_0001, port: n }
}

fn player_at(x: i64, y: i64) -> Player {
    Player {
        x: x * UNIT,
        y: y * UNIT,
        health: 7_812_500,
        hitbox_width: 1,
        hitbox_height: 2,
        velocity: Velocity { x: 0, y: 0 },
        acceleration: Acceleration { x: 0, y: 0 },
        do_jump: false,
        inventory: [None; 9],
        selected_slot: 0,
    }
}

fn flat_with_player() -> World {
    let mut w = World::generate(32, 32, 16, 16, 16, WorldType::Flat { grass_height: 4 }).unwrap();
    let mut p = player_at(10, 5);
    p.inventory[0] = Some(ItemStack { item: Item::Stone, count: 3 });
    p.inventory[1] = Some(ItemStack::single(Item::WoodPickaxe));
    w.players.push(ClientConnection::new(addr(1), "A".to_string(), 11, p));
    w.players.push(ClientConnection::new(addr(2), "B".to_string(), 22, player_at(20, 5)));
    w.mark_chunk_loaded_by_id(0, 0, 11).unwrap();
    w.mark_chunk_loaded_by_id(0, 0, 22).unwrap();
    w
}

fn send(w: &mut World, from: u16, packet: PacketTypes) -> (PacketOutcome, Vec<Outbound>) {
    let mut out: Vec<Outbound> = Vec::new();
    let outcome = process_client_packet(&mut out, packet, addr(from), w);
    (outcome, out)
}

#[test]
fn hello_syncs_and_announces_join() {
    let mut w = World::generate_empty(32, 32, 16, 16, 16).unwrap();
    let (outcome, out) = send(&mut w, 1, PacketTypes::ClientHello { name: "A".to_string() });
    assert_eq!(outcome, PacketOutcome::Done);
    assert_eq!(w.players.len(), 1);
    let joined = &w.players[0];
    assert_eq!(joined.name, "A");
    assert_eq!(joined.addr, addr(1));
    assert!(joined.connection_alive);
    assert_eq!(joined.server_player.y, UNIT);
    assert_eq!(joined.server_player.x % UNIT, 0);
    assert!((0..32).contains(&(joined.server_player.x / UNIT)));
    assert_eq!(joined.server_player.health, 7_812_500);
    assert_eq!(out.len(), 2);
    assert_eq!(out[0].addr, addr(1));
    match &out[0].packet {
        PacketTypes::ServerSync {
            player_id,
            world_width,
            world_height,
            chunk_size,
            spawn_x,
            spawn_y,
        } => {
            assert_eq!(*player_id, joined.id);
            assert_eq!((*world_width, *world_height, *chunk_size), (32, 32, 16));
            assert_eq!((*spawn_x, *spawn_y), (joined.server_player.x, joined.server_player.y));
        }
        other => panic!("unexpected packet {other:?}"),
    }
    assert_eq!(out[1].addr, addr(1));
    match &out[1].packet {
        PacketTypes::ServerPlayerJoin { player_name, player_id } => {
            assert_eq!(player_name, "A");
            assert_eq!(*player_id, joined.id);
        }
        other => panic!("unexpected packet {other:?}"),
    }
    let (outcome, out) =
        send(&mut w, 1, PacketTypes::ClientRequestChunk { chunk_coords_x: 0, chunk_coords_y: 0 });
    assert_eq!(outcome, PacketOutcome::Done);
    assert_eq!(out.len(), 1);
    assert_eq!(out[0].addr, addr(1));
    match &out[0].packet {
        PacketTypes::ServerChunkResponse { chunk } => {
            assert_eq!((chunk.size, chunk.chunk_x, chunk.chunk_y), (16, 0, 0));
            assert_eq!(chunk.blocks, vec![0u8; 256]);
        }
        other => panic!("unexpected packet {other:?}"),
    }
    assert_eq!(w.player_loaded[0], vec![w.players[0].id]);
}

#[test]
fn second_join_is_told_to_everyone_and_ids_differ() {
    let mut w = World::generate_empty(32, 32, 16, 8, 1).unwrap();
    send(&mut w, 1, PacketTypes::ClientHello { name: "A".to_string() });
    let first = w.players[0].id;
    // the first player holds the chunk the second spawns in
    w.mark_chunk_loaded_by_id(0, 0, first).unwrap();
    let (outcome, out) = send(&mut w, 2, PacketTypes::ClientHello { name: "B".to_string() });
    assert_eq!(outcome, PacketOutcome::Done);
    assert_ne!(w.players[1].id, first);
    let kinds: Vec<(u16, u8)> = out.iter().map(|o| (o.addr.port, o.packet.tag())).collect();
    assert_eq!(kinds, vec![(2, 2), (1, 6), (1, 7), (2, 7), (2, 6)]);
}

#[test]
fn taken_id_is_rotated() {
    let mut w = World::generate_empty(32, 32, 16, 8, 1).unwrap();
    let p = player_at(1, 1);
    w.players.push(ClientConnection::new(addr(1), "a".to_string(), u32::MAX, p));
    w.players.push(ClientConnection::new(addr(2), "b".to_string(), 0, p));
    assert_eq!(w.unused_id(u32::MAX), 1);
    assert_eq!(w.unused_id(5), 5);
    let mut out = Vec::new();
    let outcome = w.let_in(&mut out, addr(3), "c".to_string(), 8, u32::MAX);
    assert_eq!(outcome, PacketOutcome::Done);
    assert_eq!(w.players[2].id, 1);
    assert_eq!(w.players[2].server_player.x, 8 * UNIT);
}

#[test]
fn packets_from_strangers_are_dropped() {
    let mut w = flat_with_player();
    for packet in [
        PacketTypes::ClientGoodbye {},
        PacketTypes::ClientRequestChunk { chunk_coords_x: 0, chunk_coords_y: 0 },
        PacketTypes::ClientUnloadChunk { chunk_coords_x: 0, chunk_coords_y: 0 },
        PacketTypes::ClientPlaceBlock { x: 10, y: 5 },
        PacketTypes::ClientBreakBlock { x: 10, y: 4 },
        PacketTypes::ClientPlayerJump {},
        PacketTypes::ClientPlayerXVelocity { vel_x: 5 },
        PacketTypes::ClientPlayerRespawn {},
        PacketTypes::ClientHeartbeat {},
        PacketTypes::ClientSendMessage { msg: "hi".to_string() },
        PacketTypes::ClientTryAttack { player_id: 11 },
        PacketTypes::ClientChangeSlot { slot: 3 },
    ] {
        let (outcome, out) = send(&mut w, 99, packet);
        assert_eq!(outcome, PacketOutcome::UnknownPeer);
        assert!(out.is_empty());
    }
    assert_eq!(w.players.len(), 2);
    assert_eq!(w.players[0].server_player.selected_slot, 0);
}

#[test]
fn server_packets_are_not_carried_out() {
    let mut w = flat_with_player();
    let (outcome, out) = send(&mut w, 1, PacketTypes::ServerHeartbeat {});
    assert_eq!(outcome, PacketOutcome::NotForServer);
    assert!(out.is_empty());
    let (outcome, _) = send(&mut w, 1, PacketTypes::ServerKick { msg: "x".to_string() });
    assert_eq!(outcome, PacketOutcome::NotForServer);
}

#[test]
fn place_then_break() {
    let mut w = flat_with_player();
    w.free_placement = true;
    let (outcome, out) = send(&mut w, 1, PacketTypes::ClientPlaceBlock { x: 10, y: 6 });
    assert_eq!(outcome, PacketOutcome::Done);
    assert_eq!(w.get_block(10, 6), Ok(Block::Stone));
    assert_eq!(out.len(), 3);
    for (o, to) in out[..2].iter().zip([1u16, 2]) {
        assert_eq!(o.addr, addr(to));
        match &o.packet {
            PacketTypes::ServerUpdateBlock { block, x, y } => assert_eq!((*block, *x, *y), (2, 10, 6)),
            other => panic!("unexpected packet {other:?}"),
        }
    }
    assert_eq!(out[2].addr, addr(1));
    match &out[2].packet {
        PacketTypes::ServerUpdateInventory { inv } => {
            assert_eq!(inv[0], Some(NetworkItemStack { item: 1, count: 2 }));
            assert_eq!(inv[1], Some(NetworkItemStack { item: 6, count: 1 }));
            assert_eq!(inv[2], None);
        }
        other => panic!("unexpected packet {other:?}"),
    }
    assert_eq!(
        w.players[0].server_player.inventory[0],
        Some(ItemStack { item: Item::Stone, count: 2 })
    );
    let (outcome, _) = send(&mut w, 1, PacketTypes::ClientChangeSlot { slot: 10 });
    assert_eq!(outcome, PacketOutcome::Done);
    assert_eq!(w.players[0].server_player.selected_slot, 1);
    let (outcome, out) = send(&mut w, 1, PacketTypes::ClientBreakBlock { x: 10, y: 6 });
    assert_eq!(outcome, PacketOutcome::Done);
    assert_eq!(w.get_block(10, 6), Ok(Block::Air));
    assert_eq!(out.len(), 3);
    assert_eq!(out[0].addr, addr(1));
    match &out[0].packet {
        PacketTypes::ServerUpdateInventory { inv } => {
            assert_eq!(inv[0], Some(NetworkItemStack { item: 1, count: 3 }));
        }
        other => panic!("unexpected packet {other:?}"),
    }
    for (o, to) in out[1..].iter().zip([1u16, 2]) {
        assert_eq!(o.addr, addr(to));
        match &o.packet {
            PacketTypes::ServerUpdateBlock { block, x, y } => assert_eq!((*block, *x, *y), (0, 10, 6)),
            other => panic!("unexpected packet {other:?}"),
        }
    }
}

#[test]
fn placing_needs_support_unless_relaxed() {
    let mut w = flat_with_player();
    let (outcome, out) = send(&mut w, 1, PacketTypes::ClientPlaceBlock { x: 10, y: 6 });
    assert_eq!(outcome, PacketOutcome::Unsupported);
    assert!(out.is_empty());
    assert_eq!(w.get_block(10, 6), Ok(Block::Air));
    let (outcome, _) = send(&mut w, 1, PacketTypes::ClientPlaceBlock { x: 11, y: 5 });
    assert_eq!(outcome, PacketOutcome::Done);
    assert_eq!(w.get_block(11, 5), Ok(Block::Stone));
    let (outcome, _) = send(&mut w, 1, PacketTypes::ClientPlaceBlock { x: 11, y: 6 });
    assert_eq!(outcome, PacketOutcome::Done);
}

#[test]
fn placing_is_refused_with_reason() {
    let mut w = flat_with_player();
    let (outcome, _) = send(&mut w, 1, PacketTypes::ClientPlaceBlock { x: 10, y: 4 });
    assert_eq!(outcome, PacketOutcome::Occupied);
    let (outcome, _) = send(&mut w, 1, PacketTypes::ClientPlaceBlock { x: 40, y: 4 });
    assert_eq!(outcome, PacketOutcome::Failed(WorldError::OutOfBoundsBlock(40, 4)));
    let (outcome, _) = send(&mut w, 1, PacketTypes::ClientPlaceBlock { x: 1, y: 5 });
    assert_eq!(outcome, PacketOutcome::Done);
    let (outcome, _) = send(&mut w, 1, PacketTypes::ClientPlaceBlock { x: 0, y: 5 });
    assert_eq!(outcome, PacketOutcome::OutOfRange);
    let (outcome, _) = send(&mut w, 1, PacketTypes::ClientPlaceBlock { x: 10, y: 17 });
    assert_eq!(outcome, PacketOutcome::ChunkNotLoaded);
    send(&mut w, 1, PacketTypes::ClientChangeSlot { slot: 1 });
    let (outcome, _) = send(&mut w, 1, PacketTypes::ClientPlaceBlock { x: 9, y: 5 });
    assert_eq!(outcome, PacketOutcome::NothingToPlace);
    send(&mut w, 1, PacketTypes::ClientChangeSlot { slot: 5 });
    let (outcome, _) = send(&mut w, 1, PacketTypes::ClientPlaceBlock { x: 9, y: 5 });
    assert_eq!(outcome, PacketOutcome::NothingToPlace);
}

#[test]
fn breaking_needs_a_tool_that_is_hard_enough() {
    let mut w = flat_with_player();
    w.raw_set_block(9, 5, Block::Stone).unwrap();
    w.raw_set_block(8, 5, Block::Ore).unwrap();
    let (outcome, out) = send(&mut w, 1, PacketTypes::ClientBreakBlock { x: 9, y: 5 });
    assert_eq!(outcome, PacketOutcome::TooHard);
    assert!(out.is_empty());
    let (outcome, _) = send(&mut w, 1, PacketTypes::ClientBreakBlock { x: 9, y: 6 });
    assert_eq!(outcome, PacketOutcome::NothingToBreak);
    let (outcome, _) = send(&mut w, 1, PacketTypes::ClientBreakBlock { x: 10, y: 4 });
    assert_eq!(outcome, PacketOutcome::Done);
    assert_eq!(w.get_block(10, 4), Ok(Block::Air));
    assert_eq!(
        w.players[0].server_player.inventory[2],
        Some(ItemStack { item: Item::Grass, count: 1 })
    );
    send(&mut w, 1, PacketTypes::ClientChangeSlot { slot: 1 });
    let (outcome, _) = send(&mut w, 1, PacketTypes::ClientBreakBlock { x: 8, y: 5 });
    assert_eq!(outcome, PacketOutcome::TooHard);
    let (outcome, _) = send(&mut w, 1, PacketTypes::ClientBreakBlock { x: 9, y: 5 });
    assert_eq!(outcome, PacketOutcome::Done);
    assert_eq!(
        w.players[0].server_player.inventory[0],
        Some(ItemStack { item: Item::Stone, count: 4 })
    );
}

#[test]
fn chunk_requests_are_recorded_once() {
    let mut w = flat_with_player();
    let (outcome, out) =
        send(&mut w, 1, PacketTypes::ClientRequestChunk { chunk_coords_x: 0, chunk_coords_y: 0 });
    assert_eq!(outcome, PacketOutcome::Failed(WorldError::ChunkAlreadyLoaded));
    assert!(out.is_empty());
    let (outcome, _) =
        send(&mut w, 1, PacketTypes::ClientRequestChunk { chunk_coords_x: 2, chunk_coords_y: 0 });
    assert_eq!(outcome, PacketOutcome::Failed(WorldError::OutOfBoundsChunk(2, 0)));
    let (outcome, out) =
        send(&mut w, 1, PacketTypes::ClientRequestChunk { chunk_coords_x: 1, chunk_coords_y: 0 });
    assert_eq!(outcome, PacketOutcome::Done);
    match &out[0].packet {
        PacketTypes::ServerChunkResponse { chunk } => {
            assert_eq!(chunk.chunk_x, 1);
            assert_eq!(chunk.blocks[..16], [2u8; 16]);
            assert_eq!(chunk.blocks[4 * 16], 1);
            assert_eq!(chunk.blocks[5 * 16], 0);
        }
        other => panic!("unexpected packet {other:?}"),
    }
    let (outcome, _) =
        send(&mut w, 1, PacketTypes::ClientUnloadChunk { chunk_coords_x: 0, chunk_coords_y: 0 });
    assert_eq!(outcome, PacketOutcome::Done);
    assert_eq!(w.player_loaded[0], vec![22]);
    let (outcome, _) =
        send(&mut w, 1, PacketTypes::ClientUnloadChunk { chunk_coords_x: 0, chunk_coords_y: 9 });
    assert_eq!(outcome, PacketOutcome::Failed(WorldError::OutOfBoundsChunk(0, 9)));
}

#[test]
fn small_requests_change_the_player() {
    let mut w = flat_with_player();
    assert_eq!(send(&mut w, 1, PacketTypes::ClientPlayerJump {}).0, PacketOutcome::Done);
    assert!(w.players[0].server_player.do_jump);
    assert_eq!(
        send(&mut w, 1, PacketTypes::ClientPlayerXVelocity { vel_x: -1234 }).0,
        PacketOutcome::Done
    );
    assert_eq!(w.players[0].server_player.velocity, Velocity { x: -1234, y: 0 });
    w.players[0].connection_alive = false;
    assert_eq!(send(&mut w, 1, PacketTypes::ClientHeartbeat {}).0, PacketOutcome::Done);
    assert!(w.players[0].connection_alive);
    assert!(!w.players[1].server_player.do_jump);
}

#[test]
fn chat_goes_to_everyone() {
    let mut w = flat_with_player();
    let (outcome, out) = send(&mut w, 2, PacketTypes::ClientSendMessage { msg: "hello".to_string() });
    assert_eq!(outcome, PacketOutcome::Done);
    assert_eq!(out.len(), 2);
    for (o, to) in out.iter().zip([1u16, 2]) {
        assert_eq!(o.addr, addr(to));
        match &o.packet {
            PacketTypes::ServerSendMessage { player_name, player_id, msg } => {
                assert_eq!((player_name.as_str(), *player_id, msg.as_str()), ("B", 22, "hello"));
            }
            other => panic!("unexpected packet {other:?}"),
        }
    }
}

#[test]
fn attack_hurts_and_pushes_away() {
    let mut w = flat_with_player();
    w.players[1].server_player.x = 13 * UNIT;
    w.players[1].server_player.y = 9 * UNIT;
    let (outcome, out) = send(&mut w, 1, PacketTypes::ClientTryAttack { player_id: 22 });
    assert_eq!(outcome, PacketOutcome::Done);
    let target = w.players[1].server_player;
    // a stone in the hand takes a fifth of a point
    assert_eq!(target.health, 7_812_500 - 312_500);
    // the offset (3, 4) has length 5: three and four fifths of the power
    assert_eq!(target.acceleration, Acceleration { x: 3_000, y: 4_000 });
    assert_eq!(out.len(), 1);
    assert_eq!(out[0].addr, addr(2));
    match &out[0].packet {
        PacketTypes::ServerUpdateHealth { health } => assert_eq!(*health, 7_500_000),
        other => panic!("unexpected packet {other:?}"),
    }
    w.players[1].server_player.x = 21 * UNIT;
    let (outcome, out) = send(&mut w, 1, PacketTypes::ClientTryAttack { player_id: 22 });
    assert_eq!(outcome, PacketOutcome::OutOfRange);
    assert!(out.is_empty());
    let (outcome, _) = send(&mut w, 1, PacketTypes::ClientTryAttack { player_id: 5 });
    assert_eq!(outcome, PacketOutcome::UnknownTarget);
    w.players[1].server_player.x = 4 * UNIT;
    w.players[1].server_player.y = 5 * UNIT;
    send(&mut w, 1, PacketTypes::ClientTryAttack { player_id: 22 });
    assert_eq!(w.players[1].server_player.acceleration, Acceleration { x: -5_000, y: 0 });
    send(&mut w, 1, PacketTypes::ClientTryAttack { player_id: 11 });
    assert_eq!(w.players[0].server_player.acceleration, Acceleration { x: 0, y: 0 });
}

#[test]
fn respawn_rebuilds_the_player() {
    let mut w = flat_with_player();
    w.set_spawn(20).unwrap();
    w.set_spawn_range(2).unwrap();
    w.players[0].server_player.health = 5;
    let (outcome, out) = send(&mut w, 1, PacketTypes::ClientPlayerRespawn {});
    assert_eq!(outcome, PacketOutcome::Done);
    let p = w.players[0].server_player;
    assert_eq!(p.health, 7_812_500);
    assert_eq!(p.y, 5 * UNIT);
    assert!((18..22).contains(&(p.x / UNIT)));
    assert_eq!(p.inventory, [None; 9]);
    assert_eq!(w.players[0].id, 11);
    assert!(out.iter().all(|o| matches!(
        o.packet,
        PacketTypes::ServerPlayerLeaveLoaded { .. } | PacketTypes::ServerPlayerEnterLoaded { .. }
    )));
    assert_eq!(w.physics_update_queue.len(), 1);
    assert_eq!(w.physics_update_queue[&11].pos_x, p.x);
}

#[test]
fn goodbye_removes_player_and_tells_others() {
    let mut w = flat_with_player();
    w.players.push(ClientConnection::new(addr(3), "C".to_string(), 33, player_at(3, 20)));
    let (outcome, out) = send(&mut w, 1, PacketTypes::ClientGoodbye {});
    assert_eq!(outcome, PacketOutcome::Done);
    let ids: Vec<u32> = w.players.iter().map(|c| c.id).collect();
    assert_eq!(ids, vec![33, 22]);
    assert_eq!(w.player_loaded[0], vec![22]);
    let kinds: Vec<(u16, u8)> = out.iter().map(|o| (o.addr.port, o.packet.tag())).collect();
    assert_eq!(kinds, vec![(3, 9), (2, 9), (2, 8)]);
    match &out[2].packet {
        PacketTypes::ServerPlayerLeaveLoaded { player_name, player_id } => {
            assert_eq!((player_name.as_str(), *player_id), ("A", 11));
        }
        other => panic!("unexpected packet {other:?}"),
    }
}

#[test]
fn kick_tells_the_kicked_first() {
    let mut w = flat_with_player();
    let mut out: Vec<Outbound> = Vec::new();
    assert!(!w.kick(&mut out, 5, None));
    assert!(out.is_empty());
    assert!(w.kick(&mut out, 11, None));
    let kinds: Vec<(u16, u8)> = out.iter().map(|o| (o.addr.port, o.packet.tag())).collect();
    assert_eq!(kinds, vec![(1, 16), (2, 8), (2, 9)]);
    match &out[0].packet {
        PacketTypes::ServerKick { msg } => assert_eq!(msg, "No kick message provided"),
        other => panic!("unexpected packet {other:?}"),
    }
    out.clear();
    assert!(w.kick(&mut out, 22, Some("bye")));
    match &out[0].packet {
        PacketTypes::ServerKick { msg } => assert_eq!(msg, "bye"),
        other => panic!("unexpected packet {other:?}"),
    }
    assert!(w.players.is_empty());
    assert!(w.player_loaded.iter().all(|l| l.is_empty()));
}

#[test]
fn silent_player_is_kicked_at_second_heartbeat() {
    let mut w = flat_with_player();
    let mut out: Vec<Outbound> = Vec::new();
    heartbeat(&mut out, &mut w);
    let kinds: Vec<(u16, u8)> = out.iter().map(|o| (o.addr.port, o.packet.tag())).collect();
    assert_eq!(kinds, vec![(1, 17), (2, 17)]);
    assert!(w.players.iter().all(|c| !c.connection_alive));
    // only the second peer answers
    send(&mut w, 2, PacketTypes::ClientHeartbeat {});
    out.clear();
    heartbeat(&mut out, &mut w);
    let kinds: Vec<(u16, u8)> = out.iter().map(|o| (o.addr.port, o.packet.tag())).collect();
    assert_eq!(kinds, vec![(2, 17), (1, 16), (2, 8), (2, 9)]);
    match &out[1].packet {
        PacketTypes::ServerKick { msg } => assert_eq!(msg, "Kicked due to inactivity."),
        other => panic!("unexpected packet {other:?}"),
    }
    match &out[3].packet {
        PacketTypes::ServerPlayerLeave { player_name, player_id } => {
            assert_eq!((player_name.as_str(), *player_id), ("A", 11));
        }
        other => panic!("unexpected packet {other:?}"),
    }
    assert_eq!(w.players.len(), 1);
    assert_eq!(w.players[0].id, 22);
    assert!(!w.players[0].connection_alive);
    assert_eq!(w.player_loaded[0], vec![22]);
}

#[test]
fn shutdown_kicks_everyone() {
    let mut w = flat_with_player();
    let mut out: Vec<Outbound> = Vec::new();
    w.shutdown(&mut out);
    assert_eq!(out.len(), 2);
    for (o, to) in out.iter().zip([1u16, 2]) {
        assert_eq!(o.addr, addr(to));
        match &o.packet {
            PacketTypes::ServerKick { msg } => assert_eq!(msg, "Server shutting down"),
            other => panic!("unexpected packet {other:?}"),
        }
    }
    assert!(w.players.is_empty());
    assert!(w.player_loaded.iter().all(|l| l.is_empty()));
    assert_eq!(w.get_block(0, 4), Ok(Block::Grass));
}

#[test]
fn join_under_taken_id_is_refused() {
    let mut w = flat_with_player();
    let mut out: Vec<Outbound> = Vec::new();
    let twin = ClientConnection::new(addr(9), "twin".to_string(), 22, player_at(3, 5));
    assert_eq!(w.join(&mut out, twin), PacketOutcome::ServerFull);
    assert!(out.is_empty());
    assert_eq!(w.players.len(), 2);
    let fresh = ClientConnection::new_at(addr(9), &w, 3, "new".to_string()).unwrap();
    assert!(fresh.id != 11 && fresh.id != 22);
    assert_eq!(fresh.server_player.y, 5 * UNIT);
    assert!(ClientConnection::new_at(addr(9), &w, 32, "far".to_string()).is_err());
}

#[test]
fn empty_spawn_area_refuses_join_and_respawn() {
    let mut w = flat_with_player();
    w.spawn_point = 60;
    w.spawn_range = 16;
    let (outcome, out) = send(&mut w, 7, PacketTypes::ClientHello { name: "late".to_string() });
    assert_eq!(outcome, PacketOutcome::NoSpawnArea);
    assert!(out.is_empty());
    assert_eq!(w.players.len(), 2);
    let before = w.players[0].server_player;
    let (outcome, out) = send(&mut w, 1, PacketTypes::ClientPlayerRespawn {});
    assert_eq!(outcome, PacketOutcome::NoSpawnArea);
    assert!(out.is_empty());
    assert_eq!(w.players[0].server_player, before);
    let (outcome, _) = send(&mut w, 9, PacketTypes::ClientPlayerRespawn {});
    assert_eq!(outcome, PacketOutcome::UnknownPeer);
    w.spawn_point = 40;
    let (outcome, _) = send(&mut w, 7, PacketTypes::ClientHello { name: "late".to_string() });
    assert_eq!(outcome, PacketOutcome::Done);
    assert!((24..32).contains(&(w.players[2].server_player.x / UNIT)));
}
