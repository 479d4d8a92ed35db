use blockworld::block::Block;
use blockworld::connection::{ClientConnection, PeerAddr};
use blockworld::constants::{RESPAWN_THRESHOLD, TERMINAL_VELOCITY};
use blockworld::network::Outbound;
use blockworld::player::{Acceleration, BlockPos, Player, Shift, Surrounding, Velocity};
use blockworld::scalar::UNIT;
use blockworld::terrain::WorldType;
use blockworld::world::World;

fn player_at(x: i64, y: i64) -> Player {
    Player {
        x,
        y,
        health: 7_812_500,
        hitbox_width: 1,
        hitbox_height: 2,
        velocity: Velocity { x: 0, y: 0 },
        acceleration: Acceleration { x: 0, y: 0 },
        do_jump: false,
        inventory: [None; 9],
        selected_slot: 0,
    }
}

fn open_air() -> Surrounding {
    Surrounding::from_cells(&[None; 12])
}

fn solid(x: u32, y: u32) -> Option<BlockPos> {
    Some((x, y, Block::Stone))
}

fn on_floor() -> Surrounding {
    let mut s = open_air();
    s.bottom_left = solid(9, 4);
    s.bottom_center = solid(10, 4);
    s.bottom_right = solid(11, 4);
    s
}

#[test]
fn surrounding_is_built_row_by_row() {
    let cells: Vec<Option<BlockPos>> = (0..12u32).map(|i| Some((i, 0, Block::Stone))).collect();
    let s = Surrounding::from_cells(&cells);
    assert_eq!(s.top_left, Some((0, 0, Block::Stone)));
    assert_eq!(s.top_right, Some((2, 0, Block::Stone)));
    assert_eq!(s.upper_body, Some((4, 0, Block::Stone)));
    assert_eq!(s.lower_body, Some((7, 0, Block::Stone)));
    assert_eq!(s.bottom_center, Some((10, 0, Block::Stone)));
    assert_eq!(s.bottom_right, Some((11, 0, Block::Stone)));
}

#[test]
fn grounded_needs_floor_and_whole_height() {
    let s = on_floor();
    assert!(Player::is_grounded(10 * UNIT, 5 * UNIT, s));
    assert!(!Player::is_grounded(10 * UNIT, 5 * UNIT + 1, s));
    assert!(!Player::is_grounded(10 * UNIT, 5 * UNIT, open_air()));
    // leaning right over the edge of a single block on the left
    let mut left_only = open_air();
    left_only.bottom_left = solid(9, 4);
    assert!(Player::is_grounded(10 * UNIT - 5, 5 * UNIT, left_only));
    assert!(!Player::is_grounded(10 * UNIT + 5, 5 * UNIT, left_only));
    assert!(!Player::is_grounded(10 * UNIT, 5 * UNIT, left_only));
}

#[test]
fn shift_follows_side_of_nearest_boundary() {
    assert_eq!(blockworld::player::shift(10 * UNIT), Shift::Centered);
    assert_eq!(blockworld::player::shift(10 * UNIT + 1), Shift::Right);
    assert_eq!(blockworld::player::shift(10 * UNIT - 1), Shift::Left);
    assert_eq!(blockworld::player::shift(10 * UNIT + UNIT / 2), Shift::Left);
    assert_eq!(blockworld::player::shift(-3 * UNIT - UNIT / 2), Shift::Right);
}

#[test]
fn resistance_is_higher_in_water() {
    let mut s = open_air();
    assert_eq!(Player::get_resistance(s), 40);
    s.lower_body = Some((1, 1, Block::Water));
    assert_eq!(Player::get_resistance(s), 400);
    s.lower_body = None;
    s.upper_body = Some((1, 2, Block::Water));
    assert_eq!(Player::get_resistance(s), 400);
    s.upper_body = Some((1, 2, Block::Stone));
    assert_eq!(Player::get_resistance(s), 40);
}

#[test]
fn first_tick_of_free_fall() {
    let p = player_at(100 * UNIT, 50 * UNIT);
    let (q, moved) = p.do_move(open_air());
    assert!(moved);
    assert_eq!(q.y, 50 * UNIT);
    assert_eq!(q.acceleration.y, -941);
    assert_eq!(q.velocity.y, -941);
    assert_eq!(q.x, 100 * UNIT);
    let (r, _) = q.do_move(open_air());
    assert_eq!(r.y, 50 * UNIT - 941);
    assert_eq!(r.acceleration.y, -1882);
    assert_eq!(r.velocity.y, -941 - 1882);
}

#[test]
fn jump_starts_only_from_ground() {
    let mut p = player_at(10 * UNIT, 5 * UNIT);
    p.do_jump = true;
    let (q, moved) = p.do_move(on_floor());
    assert!(moved);
    assert!(!q.do_jump);
    assert_eq!(q.y, 5 * UNIT + 312_500);
    assert_eq!(q.acceleration.y, 4_019);
    assert_eq!(q.velocity.y, 316_519);
    let mut p = player_at(10 * UNIT, 5 * UNIT);
    p.do_jump = true;
    let (q, _) = p.do_move(open_air());
    assert!(!q.do_jump);
    assert_eq!(q.y, 5 * UNIT);
    assert_eq!(q.velocity.y, -941);
}

#[test]
fn player_at_rest_on_ground_stays() {
    let p = player_at(10 * UNIT, 5 * UNIT);
    let (q, moved) = p.do_move(on_floor());
    assert!(!moved);
    assert_eq!(q, p);
    let (r, pushed) = q.do_collision(on_floor());
    assert!(!pushed);
    assert_eq!(r, p);
}

#[test]
fn horizontal_acceleration_eases_to_zero() {
    let mut p = player_at(10 * UNIT, 5 * UNIT);
    p.acceleration.x = 100;
    let q = p.do_air_resistance(open_air());
    assert_eq!(q.acceleration.x, 60);
    let q = q.do_air_resistance(open_air());
    assert_eq!(q.acceleration.x, 20);
    let q = q.do_air_resistance(open_air());
    assert_eq!(q.acceleration.x, 0);
    p.acceleration.x = -50;
    let q = p.do_air_resistance(open_air());
    assert_eq!(q.acceleration.x, -10);
    let q = q.do_air_resistance(open_air());
    assert_eq!(q.acceleration.x, 0);
}

#[test]
fn falling_onto_floor_snaps_to_it() {
    let mut p = player_at(10 * UNIT, 5 * UNIT + 1000);
    p.velocity.y = -5000;
    p.acceleration.y = -300;
    let (q, pushed) = p.do_collision(on_floor());
    assert!(pushed);
    assert_eq!(q.y, 5 * UNIT);
    assert_eq!(q.velocity.y, 0);
    assert_eq!(q.acceleration.y, 0);
    // rising past the same floor is no collision
    p.velocity.y = 5000;
    let (q, pushed) = p.do_collision(on_floor());
    assert!(!pushed);
    assert_eq!(q.y, p.y);
}

#[test]
fn rising_against_ceiling_snaps_down() {
    let mut s = open_air();
    s.top_center = solid(10, 7);
    let mut p = player_at(10 * UNIT, 5 * UNIT + 200);
    p.velocity.y = 900;
    let (q, pushed) = p.do_collision(s);
    assert!(pushed);
    assert_eq!(q.y, 5 * UNIT);
    assert_eq!(q.velocity.y, 0);
}

#[test]
fn leaning_into_wall_snaps_to_column() {
    let mut s = on_floor();
    s.right_down = solid(11, 5);
    let p = player_at(10 * UNIT + 300, 5 * UNIT);
    let (q, pushed) = p.do_collision(s);
    assert!(pushed);
    assert_eq!(q.x, 10 * UNIT);
    let p = player_at(10 * UNIT - 300, 5 * UNIT);
    let (q, pushed) = p.do_collision(s);
    assert!(!pushed);
    assert_eq!(q.x, 10 * UNIT - 300);
    let mut s = on_floor();
    s.left_up = solid(9, 6);
    let (q, pushed) = p.do_collision(s);
    assert!(pushed);
    assert_eq!(q.x, 10 * UNIT);
}

#[test]
fn player_inside_blocks_is_pushed_out() {
    let mut s = open_air();
    s.lower_body = solid(10, 5);
    let p = player_at(10 * UNIT, 5 * UNIT);
    let (q, pushed) = p.do_collision(s);
    assert!(pushed);
    assert_eq!((q.x, q.y), (10 * UNIT, 6 * UNIT));
    s.top_center = solid(10, 7);
    let (q, pushed) = p.do_collision(s);
    assert!(!pushed);
    assert_eq!((q.x, q.y), (10 * UNIT, 5 * UNIT));
    let mut s = open_air();
    s.upper_body = solid(10, 6);
    let (q, pushed) = p.do_collision(s);
    assert!(pushed);
    assert_eq!((q.x, q.y), (10 * UNIT, 4 * UNIT));
    s.lower_body = solid(10, 5);
    // both body cells solid: into the first corner whose two cells are free
    let (q, pushed) = p.do_collision(s);
    assert!(pushed);
    assert_eq!((q.x, q.y), (9 * UNIT, 6 * UNIT));
    s.left_up = solid(9, 6);
    let (q, pushed) = p.do_collision(s);
    assert!(pushed);
    assert_eq!((q.x, q.y), (9 * UNIT, 4 * UNIT));
    s.bottom_left = solid(9, 4);
    let (q, pushed) = p.do_collision(s);
    assert!(pushed);
    assert_eq!((q.x, q.y), (11 * UNIT, 6 * UNIT));
    s.top_right = solid(11, 7);
    let (q, pushed) = p.do_collision(s);
    assert!(pushed);
    assert_eq!((q.x, q.y), (11 * UNIT, 4 * UNIT));
    s.right_down = solid(11, 5);
    let (q, pushed) = p.do_collision(s);
    assert!(!pushed);
    assert_eq!((q.x, q.y), (10 * UNIT, 5 * UNIT));
}

#[test]
fn jump_from_ground_rises_once() {
    let mut s = open_air();
    s.bottom_center = solid(5, 2);
    let mut p = player_at(5 * UNIT, 3 * UNIT);
    p.do_jump = true;
    let (q, moved) = p.do_move(s);
    assert!(moved);
    assert!(!q.do_jump);
    assert_eq!(q.x, 5 * UNIT);
    assert_eq!(q.y, 3 * UNIT + 312_500);
    assert!(q.velocity.y > 0);
    let (r, _) = q.do_collision(s);
    assert_eq!(r.y, q.y);
}

fn world_with_player(kind: WorldType, x: i64, y: i64) -> World {
    let mut w = World::generate(128, 64, 16, 64, 16, kind).unwrap();
    w.players.push(ClientConnection::new(
        PeerAddr { ip: 1, port: 1 },
        "faller".to_string(),
        7,
        player_at(x, y),
    ));
    w
}

#[test]
fn gravity_saturates_and_void_respawns() {
    let mut w = world_with_player(WorldType::Empty, 100 * UNIT, 50 * UNIT);
    let mut out: Vec<Outbound> = Vec::new();
    for _ in 0..689 {
        w.physics_tick(&mut out);
    }
    let p = w.players[0].server_player;
    assert!(p.velocity.y <= -TERMINAL_VELOCITY);
    let y_before = p.y;
    w.physics_tick(&mut out);
    assert_eq!(w.players[0].server_player.y, y_before - TERMINAL_VELOCITY);
    let mut respawned = false;
    for _ in 0..2000 {
        w.physics_tick(&mut out);
        let p = w.players[0].server_player;
        assert!(p.y > RESPAWN_THRESHOLD);
        if p.y == -RESPAWN_THRESHOLD {
            respawned = true;
            assert!(p.x >= 0);
            break;
        }
    }
    assert!(respawned);
    assert!(out.is_empty());
    assert_eq!(w.physics_update_queue.len(), 1);
    assert!(w.physics_update_queue.contains_key(&7));
}

#[test]
fn void_check_moves_player_into_world() {
    let mut p = player_at(-3 * UNIT, RESPAWN_THRESHOLD);
    p.velocity.y = -10;
    let (q, _) = p.do_move(open_air());
    assert_eq!(q.y, -RESPAWN_THRESHOLD);
    assert_eq!(q.x, 0);
}

#[test]
fn falling_player_comes_to_rest_on_ground() {
    let mut w = world_with_player(WorldType::Flat { grass_height: 4 }, 10 * UNIT + 333, 9 * UNIT + 77);
    let mut out: Vec<Outbound> = Vec::new();
    for _ in 0..400 {
        w.physics_tick(&mut out);
    }
    let p = w.players[0].server_player;
    assert_eq!(p.y, 5 * UNIT);
    assert_eq!(p.velocity, Velocity { x: 0, y: 0 });
    assert_eq!(p.acceleration, Acceleration { x: 0, y: 0 });
    w.flush_physics_queue(&mut out);
    out.clear();
    for _ in 0..50 {
        w.physics_tick(&mut out);
        assert_eq!(w.players[0].server_player, p);
    }
    assert!(w.physics_update_queue.is_empty());
    // the box of the player overlaps no solid cell
    for dy in 0..2 {
        for dx in 0..2 {
            let b = w.get_block(10 + dx, 5 + dy).unwrap();
            assert!(!blockworld::block::is_solid(b));
        }
    }
}

#[test]
fn neighbourhood_is_sampled_around_nearest_cell() {
    let mut w = world_with_player(WorldType::Flat { grass_height: 4 }, 0, 0);
    w.raw_set_block(11, 7, Block::Wood).unwrap();
    let p = player_at(10 * UNIT + UNIT / 4, 5 * UNIT - UNIT / 4);
    let s = w.get_neighbours_of_player(&p);
    assert_eq!(s.bottom_left, Some((9, 4, Block::Grass)));
    assert_eq!(s.bottom_center, Some((10, 4, Block::Grass)));
    assert_eq!(s.lower_body, Some((10, 5, Block::Air)));
    assert_eq!(s.upper_body, Some((10, 6, Block::Air)));
    assert_eq!(s.top_right, Some((11, 7, Block::Wood)));
    assert_eq!(s.right_up, Some((11, 6, Block::Air)));
    let edge = player_at(0, 0);
    let s = w.get_neighbours_of_player(&edge);
    assert_eq!(s.left_down, None);
    assert_eq!(s.bottom_center, None);
    assert_eq!(s.lower_body, Some((0, 0, Block::Stone)));
}

fn overlaps_cell(p: &Player, cell: Option<BlockPos>) -> bool {
    match cell {
        Some((cx, cy, block)) if blockworld::block::is_solid(block) => {
            let (cx, cy) = (cx as i64 * UNIT, cy as i64 * UNIT);
            p.x < cx + UNIT && cx < p.x + UNIT && p.y < cy + UNIT && cy < p.y + 2 * UNIT
        }
        _ => false,
    }
}

fn overlaps_any(p: &Player, s: &Surrounding) -> bool {
    [
        s.top_left,
        s.top_center,
        s.top_right,
        s.left_up,
        s.upper_body,
        s.right_up,
        s.left_down,
        s.lower_body,
        s.right_down,
        s.bottom_left,
        s.bottom_center,
        s.bottom_right,
    ]
    .iter()
    .any(|c| overlaps_cell(p, *c))
}

#[test]
fn collision_handling_clears_resolved_cases() {
    // landing while leaning over a wall on the right
    let mut s = on_floor();
    s.right_up = solid(11, 6);
    let mut p = player_at(10 * UNIT + 700, 5 * UNIT + 900);
    p.velocity.y = -300;
    assert!(overlaps_any(&p, &s));
    let (q, _) = p.do_collision(s);
    assert_eq!((q.x, q.y), (10 * UNIT, 5 * UNIT));
    assert!(!overlaps_any(&q, &s));
    // a block in the lower body: up one row
    let mut s = on_floor();
    s.lower_body = solid(10, 5);
    s.left_down = solid(9, 5);
    let p = player_at(10 * UNIT - 40, 5 * UNIT);
    let (q, _) = p.do_collision(s);
    assert_eq!((q.x, q.y), (10 * UNIT, 6 * UNIT));
    assert!(!overlaps_any(&q, &s));
    // both body cells solid: into a free corner
    let mut s = open_air();
    s.lower_body = solid(10, 5);
    s.upper_body = solid(10, 6);
    s.top_left = solid(9, 7);
    let p = player_at(10 * UNIT + 5, 5 * UNIT - 5);
    let (q, _) = p.do_collision(s);
    assert_eq!((q.x, q.y), (9 * UNIT, 4 * UNIT));
    assert!(!overlaps_any(&q, &s));
}

#[test]
fn unresolved_cases_still_overlap() {
    // squeezed: no corner is free
    let mut s = open_air();
    s.lower_body = solid(10, 5);
    s.upper_body = solid(10, 6);
    s.left_up = solid(9, 6);
    s.left_down = solid(9, 5);
    s.right_up = solid(11, 6);
    s.bottom_right = solid(11, 4);
    let p = player_at(10 * UNIT, 5 * UNIT);
    let (q, pushed) = p.do_collision(s);
    assert!(!pushed);
    assert!(overlaps_any(&q, &s));
    // wedged: a block in the lower body and one above the head
    let mut s = open_air();
    s.lower_body = solid(10, 5);
    s.top_center = solid(10, 7);
    let (q, _) = p.do_collision(s);
    assert!(overlaps_any(&q, &s));
    // scraped: pushed up while leaning under a solid corner
    let mut s = open_air();
    s.lower_body = solid(10, 5);
    s.top_left = solid(9, 7);
    let p = player_at(10 * UNIT - 9, 5 * UNIT);
    let (q, pushed) = p.do_collision(s);
    assert!(pushed);
    assert!(overlaps_any(&q, &s));
    // unstopped: reaching into the floor without falling
    let s = on_floor();
    let p = player_at(10 * UNIT, 5 * UNIT - 9);
    let (q, pushed) = p.do_collision(s);
    assert!(!pushed);
    assert!(overlaps_any(&q, &s));
}

#[test]
fn collision_after_crossing_into_another_cell() {
    // the neighbourhood was sampled around (10, 5); the player has fallen
    // through the boundary and is now nearest to row 4, the floor itself
    let s = on_floor();
    let mut p = player_at(10 * UNIT, 4 * UNIT + 100);
    p.velocity.y = -900_000;
    let (q, moved) = p.do_collision(s);
    assert!(moved);
    assert_eq!((q.x, q.y), (10 * UNIT, 4 * UNIT));
    assert_eq!(q.velocity.y, 0);
    assert!(overlaps_cell(&q, s.bottom_center));
    assert!(!overlaps_cell(&q, s.bottom_left));
    // carried a column to the right as well, leaning left: it covers the
    // columns 10 and 11 of the floor row, not column 9
    let mut p = player_at(11 * UNIT - 30, 4 * UNIT + 100);
    p.velocity.y = -900_000;
    let (q, _) = p.do_collision(s);
    assert_eq!((q.x, q.y), (11 * UNIT - 30, 4 * UNIT));
    assert!(overlaps_cell(&q, s.bottom_center));
    assert!(overlaps_cell(&q, s.bottom_right));
    assert!(!overlaps_cell(&q, s.bottom_left));
    // carried up and away from every sampled cell
    let mut p = player_at(10 * UNIT, 7 * UNIT + 300);
    p.velocity.y = 900_000;
    let (q, moved) = p.do_collision(s);
    assert!(!moved);
    assert!(!overlaps_any(&q, &s));
}

#[test]
fn fall_beside_a_pillar_ends_on_the_ground() {
    for (x, pillar) in [(10 * UNIT, 11u32), (10 * UNIT, 9), (10 * UNIT - 77, 11), (10 * UNIT + 77, 9)] {
        let mut w = world_with_player(WorldType::Flat { grass_height: 4 }, x, 12 * UNIT + 5);
        for y in 5..20 {
            w.raw_set_block(pillar, y, Block::Stone).unwrap();
        }
        let mut out: Vec<Outbound> = Vec::new();
        for _ in 0..400 {
            w.physics_tick(&mut out);
        }
        let p = w.players[0].server_player;
        assert_eq!((p.x, p.y), (x, 5 * UNIT));
        assert_eq!(p.velocity, Velocity { x: 0, y: 0 });
        assert_eq!(p.acceleration, Acceleration { x: 0, y: 0 });
        w.physics_tick(&mut out);
        assert_eq!(w.players[0].server_player, p);
    }
}
