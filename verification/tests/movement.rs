use blockworld::connection::{ClientConnection, PeerAddr};
use blockworld::network::{Outbound, PacketTypes};
use blockworld::player::{Acceleration, Player, Velocity};
use blockworld::scalar::UNIT;
use blockworld::world::World;

fn addr(n: u16) -> PeerAddr {
    PeerAddr { ip: 0x0a00_0001, port: n }
}

fn player_at(x: i64, y: i64) -> Player {
    Player {
        x: x * UNIT,
        y: y * UNIT,
        health: 7_812_500,
        hitbox_width: 1,
        hitbox_height: 2,
        velocity: Velocity { x: 0, y: 0 },
        acceleration: Acceleration { x: 0, y: 0 },
        do_jump: false,
        inventory: [None; 9],
        selected_slot: 0,
    }
}

fn three_players() -> World {
    let mut w = World::generate_empty(64, 64, 16, 32, 1).unwrap();
    w.players.push(ClientConnection::new(addr(1), "ann".to_string(), 1, player_at(40, 50)));
    w.players.push(ClientConnection::new(addr(2), "bob".to_string(), 2, player_at(41, 50)));
    w.players.push(ClientConnection::new(addr(3), "cyd".to_string(), 3, player_at(50, 50)));
    w.mark_chunk_loaded_by_id(2, 3, 1).unwrap();
    w.mark_chunk_loaded_by_id(2, 3, 2).unwrap();
    w.mark_chunk_loaded_by_id(3, 3, 3).unwrap();
    w
}

fn describe(o: &Outbound) -> (u16, String) {
    let text = match &o.packet {
        PacketTypes::ServerPlayerLeaveLoaded { player_name, player_id } => {
            format!("leave {player_name} {player_id}")
        }
        PacketTypes::ServerPlayerEnterLoaded { player_name, player_id, pos_x, pos_y } => {
            format!("enter {player_name} {player_id} {} {}", pos_x / UNIT, pos_y / UNIT)
        }
        PacketTypes::ServerPlayerUpdatePos { player_id, pos_x, pos_y } => {
            format!("pos {player_id} {} {}", pos_x / UNIT, pos_y / UNIT)
        }
        other => format!("{other:?}"),
    };
    (o.addr.port, text)
}

#[test]
fn crossing_chunks_tells_leavers_and_enterers() {
    let mut w = three_players();
    let moved = ClientConnection::with(&w.players[0], player_at(50, 50));
    let mut out: Vec<Outbound> = Vec::new();
    w.notify_player_moved(&mut out, &moved, 40 * UNIT, 50 * UNIT);
    let sent: Vec<(u16, String)> = out.iter().map(describe).collect();
    assert_eq!(
        sent,
        vec![
            (1, "leave bob 2".to_string()),
            (2, "leave ann 1".to_string()),
            (1, "enter cyd 3 50 50".to_string()),
            (3, "enter ann 1 50 50".to_string()),
        ]
    );
    assert_eq!(w.physics_update_queue.len(), 1);
    assert_eq!(w.physics_update_queue[&1].recievers, vec![addr(3), addr(1)]);
    out.clear();
    w.flush_physics_queue(&mut out);
    let sent: Vec<(u16, String)> = out.iter().map(describe).collect();
    assert_eq!(sent, vec![(3, "pos 1 50 50".to_string()), (1, "pos 1 50 50".to_string())]);
    assert!(w.physics_update_queue.is_empty());
}

#[test]
fn every_peer_is_of_one_kind() {
    let mut w = three_players();
    // the third player also holds the old chunk: it keeps the mover in sight
    w.mark_chunk_loaded_by_id(2, 3, 3).unwrap();
    let moved = ClientConnection::with(&w.players[0], player_at(50, 50));
    let mut out: Vec<Outbound> = Vec::new();
    w.notify_player_moved(&mut out, &moved, 40 * UNIT, 50 * UNIT);
    let sent: Vec<(u16, String)> = out.iter().map(describe).collect();
    assert_eq!(sent, vec![(1, "leave bob 2".to_string()), (2, "leave ann 1".to_string())]);
    assert_eq!(w.physics_update_queue[&1].recievers, vec![addr(3), addr(1)]);
}

#[test]
fn move_inside_chunk_only_queues_position() {
    let mut w = three_players();
    let moved = ClientConnection::with(&w.players[0], player_at(42, 51));
    let mut out: Vec<Outbound> = Vec::new();
    w.notify_player_moved(&mut out, &moved, 40 * UNIT, 50 * UNIT);
    assert!(out.is_empty());
    assert_eq!(w.physics_update_queue[&1].recievers, vec![addr(2), addr(1)]);
    assert_eq!(w.physics_update_queue[&1].pos_x, 42 * UNIT);
}

fn count_of(sent: &[(u16, String)], text: &str) -> usize {
    sent.iter().filter(|m| m.1 == text).count()
}

#[test]
fn latest_position_update_wins() {
    let mut w = three_players();
    let mut out: Vec<Outbound> = Vec::new();
    let a = ClientConnection::with(&w.players[0], player_at(42, 51));
    w.notify_player_moved(&mut out, &a, 40 * UNIT, 50 * UNIT);
    let b = ClientConnection::with(&w.players[1], player_at(43, 50));
    w.notify_player_moved(&mut out, &b, 41 * UNIT, 50 * UNIT);
    let c = ClientConnection::with(&w.players[0], player_at(44, 52));
    w.notify_player_moved(&mut out, &c, 42 * UNIT, 51 * UNIT);
    assert_eq!(w.physics_update_queue.len(), 2);
    assert_eq!(w.physics_update_queue[&1].pos_x, 44 * UNIT);
    assert_eq!(w.physics_update_queue[&1].pos_y, 52 * UNIT);
    assert_eq!(w.physics_update_queue[&2].pos_x, 43 * UNIT);
    // each player's update goes out once, to its recipients in order; which
    // player comes first is not fixed
    out.clear();
    w.flush_physics_queue(&mut out);
    let sent: Vec<(u16, String)> = out.iter().map(describe).collect();
    let of_one: Vec<(u16, String)> =
        sent.iter().filter(|m| m.1.starts_with("pos 1 ")).cloned().collect();
    let of_two: Vec<(u16, String)> =
        sent.iter().filter(|m| m.1.starts_with("pos 2 ")).cloned().collect();
    assert_eq!(of_one.len(), count_of(&of_one, "pos 1 44 52"));
    assert_eq!(of_two.len(), count_of(&of_two, "pos 2 43 50"));
    assert_eq!(sent.len(), of_one.len() + of_two.len());
    assert!(!of_one.is_empty() && !of_two.is_empty());
    let first_is_one = sent[0].1.starts_with("pos 1 ");
    let (head, tail) = sent.split_at(if first_is_one { of_one.len() } else { of_two.len() });
    assert!(head.iter().all(|m| m.1.starts_with(if first_is_one { "pos 1 " } else { "pos 2 " })));
    assert!(tail.iter().all(|m| m.1.starts_with(if first_is_one { "pos 2 " } else { "pos 1 " })));
    assert!(w.physics_update_queue.is_empty());
}

#[test]
fn position_outside_world_counts_as_first_chunk() {
    let w = three_players();
    assert_eq!(w.chunk_near_position(-5 * UNIT, 3 * UNIT), (0, 0));
    assert_eq!(w.chunk_near_position(70 * UNIT, 3 * UNIT), (0, 0));
    assert_eq!(w.chunk_near_position(40 * UNIT, 50 * UNIT), (2, 3));
    assert_eq!(w.chunk_near_position(47 * UNIT + UNIT / 2, 0), (3, 0));
    assert_eq!(w.chunk_near_position(47 * UNIT + UNIT / 2 - 1, 0), (2, 0));
}
