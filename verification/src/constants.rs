//! Tuning constants of the simulation.
//!
//! Rates are per second. Physical quantities are in sub-block units (see
//! [`crate::scalar::UNIT`]) per physics tick or per physics tick squared.

use vstd::prelude::*;

verus! {

/// Width of a player's hitbox, in blocks.
pub const HITBOX_WIDTH: u32 = 1;

/// Height of a player's hitbox, in blocks.
pub const HITBOX_HEIGHT: u32 = 2;

/// World ticks per second.
pub const TICKS_PER_SECOND: u64 = 30;

/// Physics ticks per second.
pub const PHYS_TICKS_PER_SECOND: u64 = 125;

/// Position updates flushed to clients per second.
pub const PACKET_UPDATES_PER_SECOND: u64 = 25;

/// Milliseconds between two redraws of the operator console.
pub const CONSOLE_UPDATE_RATE_MS: u64 = 50;

/// Seconds between two heartbeat rounds.
pub const SECONDS_BETWEEN_HEARTBEATS: u64 = 10;

/// Gravity: 9.81 blocks per second squared.
pub const G: i64 = 981;

/// Impulse given to the target of a hit: 50 blocks per second squared.
pub const KNOCKBACK_POWER: i64 = 5_000;

/// Resistance of air: 0.4 blocks per second squared.
pub const AIR_RESISTANCE: i64 = 40;

/// Resistance of water: 4 blocks per second squared.
pub const WATER_RESISTANCE: i64 = 400;

/// Fastest fall: 54 blocks per second.
pub const TERMINAL_VELOCITY: i64 = 675_000;

/// Upward speed at the start of a jump: 25 blocks per second.
pub const INITIAL_JUMP_SPEED: i64 = 312_500;

/// Upward acceleration at the start of a jump: 50 blocks per second squared.
pub const INITIAL_JUMP_ACCEL: i64 = 5_000;

/// Height below which a player has fallen out of the world: 256 blocks
/// under the floor.
pub const RESPAWN_THRESHOLD: i64 = -400_000_000;

/// Farthest distance, in blocks, at which a player can touch a block or hit
/// another player.
pub const MAX_INTERACT_RANGE: u32 = 10;

/// Health of a freshly spawned player: five points.
pub const FULL_HEALTH: i64 = 7_812_500;

} // verus!
