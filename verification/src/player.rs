//! The player model: kinematic state, inventory access, and the two halves
//! of a physics tick (motion, then collision).

use vstd::prelude::*;
use crate::block::{is_solid, solid, Block};
use crate::constants::{
    AIR_RESISTANCE, G, INITIAL_JUMP_ACCEL, INITIAL_JUMP_SPEED, RESPAWN_THRESHOLD,
    TERMINAL_VELOCITY, WATER_RESISTANCE,
};
use crate::inventory::{
    consume_at, consume_slot, insert_into, insert_stack, slots_wf, total_count, Slots,
};
use crate::item::{hit_damage, item_breaking_power, Item, ItemStack};
use crate::scalar::{
    cell_origin, clamp_i64, is_whole, on_grid, sat_add, sat_sub, snap, snapped, Scalar, UNIT,
};

verus! {

/// A cell of the world together with the block it holds.
pub type BlockPos = (u32, u32, Block);

/// Speed of a player, in sub-block units per physics tick.
#[derive(Clone, Copy, Debug, PartialEq, Eq, Structural)]
pub struct Velocity {
    pub x: Scalar,
    pub y: Scalar,
}

/// Acceleration of a player, in sub-block units per physics tick squared.
#[derive(Clone, Copy, Debug, PartialEq, Eq, Structural)]
pub struct Acceleration {
    pub x: Scalar,
    pub y: Scalar,
}

impl Velocity {
    /// The velocity one tick later under the acceleration `accel`.
    pub open spec fn accelerated(self, accel: Acceleration) -> Velocity {
        Velocity { x: clamp_i64(self.x + accel.x), y: clamp_i64(self.y + accel.y) }
    }

    /// The velocity one tick later under the acceleration `accel`.
    pub fn accelerate(self, accel: Acceleration) -> (v: Velocity)
        ensures
            v == self.accelerated(accel),
    {
        Velocity { x: sat_add(self.x, accel.x), y: sat_add(self.y, accel.y) }
    }

    /// Whether the player stands still.
    pub fn is_zero(&self) -> (z: bool)
        ensures
            z == (self.x == 0 && self.y == 0),
    {
        self.x == 0 && self.y == 0
    }
}

impl Acceleration {
    /// Whether the player's velocity is steady.
    pub fn is_zero(&self) -> (z: bool)
        ensures
            z == (self.x == 0 && self.y == 0),
    {
        self.x == 0 && self.y == 0
    }
}

impl Default for Velocity {
    fn default() -> (v: Velocity)
        ensures
            v == (Velocity { x: 0, y: 0 }),
    {
        Velocity { x: 0, y: 0 }
    }
}

impl Default for Acceleration {
    fn default() -> (a: Acceleration)
        ensures
            a == (Acceleration { x: 0, y: 0 }),
    {
        Acceleration { x: 0, y: 0 }
    }
}

/// The state of one player. `(x, y)` is the lower left corner of the hitbox.
#[derive(Clone, Copy, Debug, PartialEq, Eq)]
pub struct Player {
    pub x: Scalar,
    pub y: Scalar,
    pub health: Scalar,
    pub hitbox_width: u32,
    pub hitbox_height: u32,
    pub velocity: Velocity,
    pub acceleration: Acceleration,
    /// Set by a jump request, cleared by the next physics tick.
    pub do_jump: bool,
    pub inventory: Slots,
    pub selected_slot: u8,
}

/// The twelve cells around a player's hitbox: the column left of it, its own
/// column and the column right of it, in the row above the head, the two rows
/// of the body and the row under the feet. A cell outside the world is `None`.
#[derive(Clone, Copy, Debug, PartialEq, Eq)]
pub struct Surrounding {
    pub top_left: Option<BlockPos>,
    pub top_center: Option<BlockPos>,
    pub top_right: Option<BlockPos>,
    pub left_up: Option<BlockPos>,
    pub upper_body: Option<BlockPos>,
    pub right_up: Option<BlockPos>,
    pub left_down: Option<BlockPos>,
    pub lower_body: Option<BlockPos>,
    pub right_down: Option<BlockPos>,
    pub bottom_left: Option<BlockPos>,
    pub bottom_center: Option<BlockPos>,
    pub bottom_right: Option<BlockPos>,
}

impl Surrounding {
    /// The neighbourhood made of twelve cells listed row by row from the top,
    /// each row from left to right.
    pub open spec fn of_cells(v: Seq<Option<BlockPos>>) -> Surrounding {
        Surrounding {
            top_left: v[0],
            top_center: v[1],
            top_right: v[2],
            left_up: v[3],
            upper_body: v[4],
            right_up: v[5],
            left_down: v[6],
            lower_body: v[7],
            right_down: v[8],
            bottom_left: v[9],
            bottom_center: v[10],
            bottom_right: v[11],
        }
    }

    /// The neighbourhood made of twelve cells listed row by row from the top,
    /// each row from left to right.
    pub fn from_cells(v: &[Option<BlockPos>]) -> (s: Surrounding)
        requires
            v@.len() >= 12,
        ensures
            s == Surrounding::of_cells(v@),
    {
        Surrounding {
            top_left: v[0],
            top_center: v[1],
            top_right: v[2],
            left_up: v[3],
            upper_body: v[4],
            right_up: v[5],
            left_down: v[6],
            lower_body: v[7],
            right_down: v[8],
            bottom_left: v[9],
            bottom_center: v[10],
            bottom_right: v[11],
        }
    }
}

/// On which side of its nearest cell boundary a coordinate lies.
#[derive(Clone, Copy, Debug, PartialEq, Eq, Structural)]
pub enum Shift {
    Left,
    Centered,
    Right,
}

/// The side of its nearest cell boundary on which `x` lies.
pub open spec fn shift_of(x: int) -> Shift {
    if x < snapped(x) {
        Shift::Left
    } else if x > snapped(x) {
        Shift::Right
    } else {
        Shift::Centered
    }
}

/// Whether a sampled cell holds a solid block; cells outside the world do not.
pub open spec fn cell_solid(cell: Option<BlockPos>) -> bool {
    cell matches Some(pos) && solid(pos.2)
}

/// Whether a sampled cell holds water.
pub open spec fn cell_water(cell: Option<BlockPos>) -> bool {
    cell matches Some(pos) && pos.2 == Block::Water
}

/// Whether the cells under the feet carry a player whose horizontal
/// coordinate is `x`: the cell under the player, and the neighbour on the side
/// the player leans to.
pub open spec fn floor_solid(x: int, s: Surrounding) -> bool {
    match shift_of(x) {
        Shift::Left => cell_solid(s.bottom_left) || cell_solid(s.bottom_center),
        Shift::Right => cell_solid(s.bottom_center) || cell_solid(s.bottom_right),
        Shift::Centered => cell_solid(s.bottom_center),
    }
}

/// Whether the cells above the head block a player whose horizontal
/// coordinate is `x`.
pub open spec fn ceiling_solid(x: int, s: Surrounding) -> bool {
    match shift_of(x) {
        Shift::Left => cell_solid(s.top_left) || cell_solid(s.top_center),
        Shift::Right => cell_solid(s.top_center) || cell_solid(s.top_right),
        Shift::Centered => cell_solid(s.top_center),
    }
}

/// Whether a player whose horizontal coordinate is `x` leans over a cell
/// boundary towards a solid cell beside its body.
pub open spec fn wall_hit(x: int, s: Surrounding) -> bool {
    let right = cell_solid(s.right_up) || cell_solid(s.right_down);
    let left = cell_solid(s.left_up) || cell_solid(s.left_down);
    (right && shift_of(x) == Shift::Right) || (left && shift_of(x) == Shift::Left)
}

/// Whether the hitbox of a player whose lower left corner is at `(x, y)`
/// and whose hitbox is `w` blocks wide and `h` high overlaps the cell
/// `(cx, cy)`.
pub open spec fn overlaps(x: int, y: int, w: int, h: int, cx: int, cy: int) -> bool {
    x < cell_origin(cx + 1) && cell_origin(cx) < x + w * UNIT && y < cell_origin(cy + 1)
        && cell_origin(cy) < y + h * UNIT
}

/// Whether a player at `(x, y)` stands on the ground: the floor carries it
/// and `y` is exactly on a cell boundary.
pub open spec fn grounded(x: int, y: int, s: Surrounding) -> bool {
    floor_solid(x, s) && is_whole(y)
}

/// The resistance of the medium the player's body is in: that of water if
/// either body cell holds water, that of air otherwise.
pub open spec fn resistance(s: Surrounding) -> Scalar {
    if cell_water(s.upper_body) || cell_water(s.lower_body) {
        WATER_RESISTANCE
    } else {
        AIR_RESISTANCE
    }
}

/// The larger of two scalars.
pub open spec fn max_scalar(a: Scalar, b: Scalar) -> Scalar {
    if a >= b {
        a
    } else {
        b
    }
}

/// The smaller of two scalars.
pub open spec fn min_scalar(a: Scalar, b: Scalar) -> Scalar {
    if a <= b {
        a
    } else {
        b
    }
}

/// Whether a sampled cell holds a solid block.
pub fn cell_is_solid(cell: Option<BlockPos>) -> (b: bool)
    ensures
        b == cell_solid(cell),
{
    match cell {
        None => false,
        Some((_, _, block)) => is_solid(block),
    }
}

/// Whether a sampled cell holds water.
pub fn cell_is_water(cell: Option<BlockPos>) -> (b: bool)
    ensures
        b == cell_water(cell),
{
    match cell {
        None => false,
        Some((_, _, block)) => block == Block::Water,
    }
}

/// The side of its nearest cell boundary on which `x` lies.
pub fn shift(x: Scalar) -> (d: Shift)
    ensures
        d == shift_of(x as int),
{
    let s: Scalar = snap(x);
    if x < s {
        Shift::Left
    } else if x > s {
        Shift::Right
    } else {
        Shift::Centered
    }
}

impl Player {
    /// A player's slot index is in range and its stacks are not empty.
    pub open spec fn wf(&self) -> bool {
        &&& self.selected_slot < 9
        &&& slots_wf(self.inventory@)
    }

    /// The stack in the selected slot.
    pub open spec fn current_stack(&self) -> Option<ItemStack> {
        self.inventory@[self.selected_slot as int]
    }

    /// The item in the selected slot.
    pub open spec fn current_item(&self) -> Option<Item> {
        match self.current_stack() {
            Some(s) => Some(s.item),
            None => None,
        }
    }

    /// The player after the falling step of a tick: in the air the falling
    /// speed is capped, the player moves by it, and gravity less the
    /// resistance of the medium adds to the downward acceleration; on the
    /// ground vertical speed and acceleration vanish.
    pub open spec fn after_fall(self, s: Surrounding) -> Player {
        if !grounded(self.x as int, self.y as int, s) {
            let vy = max_scalar(self.velocity.y, (-TERMINAL_VELOCITY) as i64);
            Player {
                y: clamp_i64(self.y + vy),
                velocity: Velocity { x: self.velocity.x, y: vy },
                acceleration: Acceleration {
                    x: self.acceleration.x,
                    y: clamp_i64(self.acceleration.y - (G - resistance(s))),
                },
                ..self
            }
        } else {
            Player {
                velocity: Velocity { x: self.velocity.x, y: 0 },
                acceleration: Acceleration { x: self.acceleration.x, y: 0 },
                ..self
            }
        }
    }

    /// The player after the resistance step of a tick: the horizontal
    /// acceleration moves towards zero by the resistance of the medium and
    /// stops there.
    pub open spec fn after_resistance(self, s: Surrounding) -> Player {
        let ax = self.acceleration.x;
        let eased = if ax < 0 {
            min_scalar(clamp_i64(ax + resistance(s)), 0)
        } else if ax > 0 {
            max_scalar(clamp_i64(ax - resistance(s)), 0)
        } else {
            0
        };
        Player { acceleration: Acceleration { x: eased, y: self.acceleration.y }, ..self }
    }

    /// The player after the jumping step of a tick: a requested jump starts
    /// if the player is on the ground; the request is spent either way.
    pub open spec fn after_jump(self, s: Surrounding) -> Player {
        if self.do_jump && grounded(self.x as int, self.y as int, s) {
            Player {
                y: clamp_i64(self.y + INITIAL_JUMP_SPEED),
                velocity: Velocity { x: self.velocity.x, y: INITIAL_JUMP_SPEED },
                acceleration: Acceleration {
                    x: self.acceleration.x,
                    y: (INITIAL_JUMP_ACCEL - resistance(s)) as i64,
                },
                do_jump: false,
                ..self
            }
        } else {
            Player { do_jump: false, ..self }
        }
    }

    /// Whether a jump starts in this tick: one is asked for and the player
    /// stands on the ground.
    pub open spec fn jumps(self, s: Surrounding) -> bool {
        self.do_jump && grounded(self.x as int, self.y as int, s)
    }

    /// The player after gravity in the tick in which its jump started:
    /// gravity less the resistance of the medium takes from the upward
    /// acceleration. The player has moved by the jump speed in the jumping
    /// step and moves no further up or down in this tick.
    pub open spec fn after_takeoff(self, s: Surrounding) -> Player {
        Player {
            acceleration: Acceleration {
                x: self.acceleration.x,
                y: clamp_i64(self.acceleration.y - (G - resistance(s))),
            },
            ..self
        }
    }

    /// The player after the void check: one that fell out of the world is put
    /// back high above it, and not left of the world's edge.
    pub open spec fn after_void_check(self) -> Player {
        if self.y <= RESPAWN_THRESHOLD {
            Player { y: (-RESPAWN_THRESHOLD) as i64, x: max_scalar(self.x, 0), ..self }
        } else {
            self
        }
    }

    /// Whether the player neither moves nor accelerates.
    pub open spec fn at_rest(self) -> bool {
        self.velocity.x == 0 && self.velocity.y == 0 && self.acceleration.x == 0
            && self.acceleration.y == 0
    }

    /// The player after the horizontal step: unless at rest, the velocity
    /// grows by the acceleration and the player moves sideways by it.
    pub open spec fn after_drift(self) -> Player {
        if self.at_rest() {
            self
        } else {
            let v = self.velocity.accelerated(self.acceleration);
            Player { velocity: v, x: clamp_i64(self.x + v.x), ..self }
        }
    }

    /// The player after the jumping and the falling step of a tick. In a
    /// tick in which a jump starts the player moves up by the jump speed once,
    /// in the jumping step, and gravity only takes from its acceleration; in
    /// every other tick it falls as [`Player::after_fall`] says.
    pub open spec fn after_lift(self, s: Surrounding) -> Player {
        if self.jumps(s) {
            self.after_jump(s).after_takeoff(s)
        } else {
            self.after_jump(s).after_fall(s)
        }
    }

    /// The motion half of a physics tick: jump, fall, resistance, void
    /// check, horizontal step, in this order. The flag tells whether the
    /// player was in motion.
    pub open spec fn after_move(self, s: Surrounding) -> (Player, bool) {
        let p = self.after_lift(s).after_resistance(s).after_void_check();
        (p.after_drift(), !p.at_rest())
    }

    /// The player after the vertical part of collision handling: a player
    /// between two rows that falls onto a carrying floor or rises against a
    /// blocking ceiling is put on the nearest row and loses its vertical
    /// speed and acceleration.
    pub open spec fn after_vertical_snap(self, s: Surrounding) -> (Player, bool) {
        let snap_y = snapped(self.y as int);
        let hit = self.y != snap_y && ((floor_solid(self.x as int, s) && self.velocity.y < 0) || (
        ceiling_solid(self.x as int, s) && self.velocity.y > 0));
        if hit {
            (
                Player {
                    y: snap_y as i64,
                    velocity: Velocity { x: self.velocity.x, y: 0 },
                    acceleration: Acceleration { x: self.acceleration.x, y: 0 },
                    ..self
                },
                true,
            )
        } else {
            (self, false)
        }
    }

    /// The player after the horizontal part of collision handling: a player
    /// that leans over a cell boundary towards a solid cell beside its body is
    /// put on the nearest column.
    pub open spec fn after_horizontal_snap(self, s: Surrounding) -> (Player, bool) {
        if wall_hit(self.x as int, s) {
            (Player { x: snapped(self.x as int) as i64, ..self }, true)
        } else {
            (self, false)
        }
    }

    /// The player after being pushed out of solid cells inside its body.
    /// `snap_x` and `snap_y` are the column and row nearest to where the
    /// player was before collision handling. With only the lower body cell
    /// solid the player rises one row if the cell above its head is free; with
    /// only the upper one it sinks one row if the cell under its feet is free;
    /// with both it moves diagonally, into the first corner, among upper left,
    /// lower left, upper right and lower right, whose two cells are both free.
    pub open spec fn after_extrusion(self, snap_x: Scalar, snap_y: Scalar, s: Surrounding) -> (
        Player,
        bool,
    ) {
        let up = clamp_i64(snap_y + UNIT);
        let down = clamp_i64(snap_y - UNIT);
        let west = clamp_i64(snap_x - UNIT);
        let east = clamp_i64(snap_x + UNIT);
        let lower = cell_solid(s.lower_body);
        let upper = cell_solid(s.upper_body);
        if lower && !upper {
            if !cell_solid(s.top_center) {
                (Player { y: up, ..self }, true)
            } else {
                (self, false)
            }
        } else if !lower && upper {
            if !cell_solid(s.bottom_center) {
                (Player { y: down, ..self }, true)
            } else {
                (self, false)
            }
        } else if lower && upper {
            if !cell_solid(s.top_left) && !cell_solid(s.left_up) {
                (Player { x: west, y: up, ..self }, true)
            } else if !cell_solid(s.left_down) && !cell_solid(s.bottom_left) {
                (Player { x: west, y: down, ..self }, true)
            } else if !cell_solid(s.top_right) && !cell_solid(s.right_up) {
                (Player { x: east, y: up, ..self }, true)
            } else if !cell_solid(s.right_down) && !cell_solid(s.bottom_right) {
                (Player { x: east, y: down, ..self }, true)
            } else {
                (self, false)
            }
        } else {
            (self, false)
        }
    }

    /// The collision half of a physics tick: vertical snap, horizontal snap,
    /// extrusion, in this order. The flag tells whether any of them moved the
    /// player.
    pub open spec fn after_collision(self, s: Surrounding) -> (Player, bool) {
        let snap_x = snapped(self.x as int) as i64;
        let snap_y = snapped(self.y as int) as i64;
        let (upright, landed) = self.after_vertical_snap(s);
        let (aside, stopped) = upright.after_horizontal_snap(s);
        let (freed, pushed) = aside.after_extrusion(snap_x, snap_y, s);
        (freed, landed || stopped || pushed)
    }

    /// Whether a player at `(x, y)` stands on the ground.
    pub fn is_grounded(x: Scalar, y: Scalar, surrounding: Surrounding) -> (g: bool)
        ensures
            g == grounded(x as int, y as int, surrounding),
    {
        let bottom_left: bool = cell_is_solid(surrounding.bottom_left);
        let bottom_center: bool = cell_is_solid(surrounding.bottom_center);
        let bottom_right: bool = cell_is_solid(surrounding.bottom_right);
        let considered_solid: bool = match shift(x) {
            Shift::Left => bottom_left || bottom_center,
            Shift::Right => bottom_center || bottom_right,
            Shift::Centered => bottom_center,
        };
        considered_solid && on_grid(y)
    }

    /// The resistance of the medium the player's body is in.
    pub fn get_resistance(surrounding: Surrounding) -> (r: Scalar)
        ensures
            r == resistance(surrounding),
    {
        if cell_is_water(surrounding.upper_body) || cell_is_water(surrounding.lower_body) {
            WATER_RESISTANCE
        } else {
            AIR_RESISTANCE
        }
    }

    /// The falling step of a tick.
    pub fn do_fall(self, surrounding: Surrounding) -> (p: Player)
        ensures
            p == self.after_fall(surrounding),
    {
        let mut p: Player = self;
        if !Player::is_grounded(p.x, p.y, surrounding) {
            if p.velocity.y < -TERMINAL_VELOCITY {
                p.velocity.y = -TERMINAL_VELOCITY;
            }
            p.y = sat_add(p.y, p.velocity.y);
            p.acceleration.y = sat_sub(p.acceleration.y, G - Player::get_resistance(surrounding));
        } else {
            p.velocity.y = 0;
            p.acceleration.y = 0;
        }
        p
    }

    /// The resistance step of a tick.
    pub fn do_air_resistance(self, surrounding: Surrounding) -> (p: Player)
        ensures
            p == self.after_resistance(surrounding),
    {
        let mut p: Player = self;
        let r: Scalar = Player::get_resistance(surrounding);
        if p.acceleration.x < 0 {
            let eased: Scalar = sat_add(p.acceleration.x, r);
            p.acceleration.x = if eased <= 0 {
                eased
            } else {
                0
            };
        } else if p.acceleration.x > 0 {
            let eased: Scalar = sat_sub(p.acceleration.x, r);
            p.acceleration.x = if eased >= 0 {
                eased
            } else {
                0
            };
        } else {
            p.acceleration.x = 0;
        }
        p
    }

    /// The motion half of a physics tick. The flag tells whether the player
    /// was in motion.
    pub fn do_move(self, surrounding: Surrounding) -> (r: (Player, bool))
        ensures
            r == self.after_move(surrounding),
            self.jumps(surrounding) && self.y + INITIAL_JUMP_SPEED > RESPAWN_THRESHOLD ==> r.0.y
                == clamp_i64(self.y + INITIAL_JUMP_SPEED) && r.0.velocity.y == INITIAL_JUMP_SPEED
                + INITIAL_JUMP_ACCEL - G && r.0.velocity.y > 0 && !r.0.do_jump && r.1,
    {
        let mut p: Player = self;
        if p.do_jump && Player::is_grounded(p.x, p.y, surrounding) {
            p.acceleration.y = INITIAL_JUMP_ACCEL - Player::get_resistance(surrounding);
            p.velocity.y = INITIAL_JUMP_SPEED;
            p.y = sat_add(p.y, p.velocity.y);
            p.do_jump = false;
            assert(p == self.after_jump(surrounding));
            p.acceleration.y = sat_sub(p.acceleration.y, G - Player::get_resistance(surrounding));
        } else {
            p.do_jump = false;
            assert(p == self.after_jump(surrounding));
            p = p.do_fall(surrounding);
        }
        assert(p == self.after_lift(surrounding));
        p = p.do_air_resistance(surrounding);
        if p.y <= RESPAWN_THRESHOLD {
            p.y = -RESPAWN_THRESHOLD;
            if p.x < 0 {
                p.x = 0;
            }
        }
        assert(p == self.after_lift(surrounding).after_resistance(surrounding).after_void_check());
        if p.velocity.is_zero() && p.acceleration.is_zero() {
            (p, false)
        } else {
            p.velocity = p.velocity.accelerate(p.acceleration);
            p.x = sat_add(p.x, p.velocity.x);
            (p, true)
        }
    }

    /// The collision half of a physics tick. The flag tells whether the
    /// player was moved.
    pub fn do_collision(self, surrounding: Surrounding) -> (r: (Player, bool))
        ensures
            r == self.after_collision(surrounding),
    {
        let mut p: Player = self;
        let snap_x: Scalar = snap(p.x);
        let snap_y: Scalar = snap(p.y);
        let direction: Shift = shift(p.x);
        let top_left: bool = cell_is_solid(surrounding.top_left);
        let top_center: bool = cell_is_solid(surrounding.top_center);
        let top_right: bool = cell_is_solid(surrounding.top_right);
        let bottom_left: bool = cell_is_solid(surrounding.bottom_left);
        let bottom_center: bool = cell_is_solid(surrounding.bottom_center);
        let bottom_right: bool = cell_is_solid(surrounding.bottom_right);
        let left_up: bool = cell_is_solid(surrounding.left_up);
        let left_down: bool = cell_is_solid(surrounding.left_down);
        let right_up: bool = cell_is_solid(surrounding.right_up);
        let right_down: bool = cell_is_solid(surrounding.right_down);
        let upper_body: bool = cell_is_solid(surrounding.upper_body);
        let lower_body: bool = cell_is_solid(surrounding.lower_body);

        let (bottom, top): (bool, bool) = match direction {
            Shift::Left => (bottom_left || bottom_center, top_left || top_center),
            Shift::Centered => (bottom_center, top_center),
            Shift::Right => (bottom_center || bottom_right, top_center || top_right),
        };

        let mut has_changed: bool = false;

        if p.y != snap_y && ((bottom && p.velocity.y < 0) || (top && p.velocity.y > 0)) {
            p.y = snap_y;
            p.velocity.y = 0;
            p.acceleration.y = 0;
            has_changed = true;
        }
        assert((p, has_changed) == self.after_vertical_snap(surrounding));
        let ghost upright = p;

        if p.x != snap_x && (((right_up || right_down) && direction == Shift::Right) || ((left_up
            || left_down) && direction == Shift::Left)) {
            p.x = snap_x;
            has_changed = true;
        }
        assert(p == upright.after_horizontal_snap(surrounding).0);
        let ghost aside = p;

        if lower_body && !upper_body {
            if !top_center {
                p.y = sat_add(snap_y, UNIT);
                has_changed = true;
            }
        } else if !lower_body && upper_body {
            if !bottom_center {
                p.y = sat_sub(snap_y, UNIT);
                has_changed = true;
            }
        } else if lower_body && upper_body {
            if !top_left && !left_up {
                p.x = sat_sub(snap_x, UNIT);
                p.y = sat_add(snap_y, UNIT);
                has_changed = true;
            } else if !left_down && !bottom_left {
                p.x = sat_sub(snap_x, UNIT);
                p.y = sat_sub(snap_y, UNIT);
                has_changed = true;
            } else if !top_right && !right_up {
                p.x = sat_add(snap_x, UNIT);
                p.y = sat_add(snap_y, UNIT);
                has_changed = true;
            } else if !right_down && !bottom_right {
                p.x = sat_add(snap_x, UNIT);
                p.y = sat_sub(snap_y, UNIT);
                has_changed = true;
            }
        }
        assert(p == aside.after_extrusion(snap_x, snap_y, surrounding).0);
        (p, has_changed)
    }

    /// The stack in the selected slot.
    pub fn get_current_itemstack(&self) -> (stack: Option<ItemStack>)
        requires
            self.selected_slot < 9,
        ensures
            stack == self.current_stack(),
    {
        self.inventory[self.selected_slot as usize]
    }

    /// The breaking power of what the player holds; bare hands have none.
    pub fn get_current_breaking_power(&self) -> (power: u8)
        requires
            self.selected_slot < 9,
        ensures
            power == match self.current_item() {
                Some(item) => item_breaking_power(item),
                None => 0,
            },
    {
        match self.get_current_itemstack() {
            Some(stack) => stack.item.breaking_power(),
            None => 0,
        }
    }

    /// The health a hit by this player takes from its target.
    pub fn get_current_damage(&self) -> (damage: Scalar)
        requires
            self.selected_slot < 9,
        ensures
            damage == hit_damage(self.current_item()),
    {
        match self.get_current_itemstack() {
            Some(stack) => match stack.item {
                Item::WoodSword => 781_250,
                Item::WoodAxe | Item::WoodPickaxe => 546_875,
                _ => 312_500,
            },
            None => 156_250,
        }
    }

    /// Takes one item from the selected slot.
    pub fn consume_current(&mut self)
        requires
            old(self).wf(),
        ensures
            final(self).inventory@ == consume_at(
                old(self).inventory@,
                old(self).selected_slot as int,
            ),
            *final(self) == (Player { inventory: final(self).inventory, ..*old(self) }),
            final(self).wf(),
    {
        let slot: usize = self.selected_slot as usize;
        consume_slot(&mut self.inventory, slot);
    }

    /// Puts a stack into the inventory by the insertion policy (see
    /// [`insert_into`]). Succeeds if every item found room, and otherwise
    /// fails with the number of items that did not.
    pub fn insert(&mut self, itemstack: ItemStack) -> (r: Result<(), u8>)
        requires
            old(self).wf(),
            itemstack.wf(),
        ensures
            final(self).inventory@ == insert_into(old(self).inventory@, itemstack).0,
            *final(self) == (Player { inventory: final(self).inventory, ..*old(self) }),
            final(self).wf(),
            r is Ok <==> insert_into(old(self).inventory@, itemstack).1 == 0,
            r matches Err(left) ==> left == insert_into(old(self).inventory@, itemstack).1,
            total_count(final(self).inventory@) + (match r {
                Ok(_) => 0,
                Err(left) => left as int,
            }) == total_count(old(self).inventory@) + itemstack.count,
    {
        let left: u8 = insert_stack(&mut self.inventory, itemstack);
        if left == 0 {
            Ok(())
        } else {
            Err(left)
        }
    }
}

/// A jump moves the player up once: in the tick in which a jump starts from
/// the ground, inside the world, the player rises by the jump speed and by no
/// more, keeps rising, and the request is spent.
pub proof fn lemma_jump_advances_once(p: Player, s: Surrounding)
    requires
        p.jumps(s),
        p.y + INITIAL_JUMP_SPEED > RESPAWN_THRESHOLD,
    ensures
        p.after_move(s).0.y == clamp_i64(p.y + INITIAL_JUMP_SPEED),
        p.after_move(s).0.velocity.y == INITIAL_JUMP_SPEED + INITIAL_JUMP_ACCEL - G,
        p.after_move(s).0.velocity.y > 0,
        !p.after_move(s).0.do_jump,
        p.after_move(s).1,
{
}

/// Rest is stable: a player that stands still on the ground, inside the
/// world, with no jump asked for, no solid cell in its body and no wall it
/// leans into, is left where it is by both halves of a physics tick, and
/// neither reports a move.
pub proof fn lemma_rest_is_stable(p: Player, s: Surrounding)
    requires
        grounded(p.x as int, p.y as int, s),
        p.at_rest(),
        !p.do_jump,
        p.y > RESPAWN_THRESHOLD,
        !cell_solid(s.lower_body),
        !cell_solid(s.upper_body),
        !wall_hit(p.x as int, s),
    ensures
        p.after_move(s) == (p, false),
        p.after_collision(s) == (p, false),
{
}

} // verus!
