//! The fall of a player in a world that stands still: a player let go above
//! solid ground in its column comes to rest on that ground after finitely
//! many physics ticks, and stays there. Only the player's own column counts,
//! and the column beside it over which the player leans, if it leans.

use vstd::prelude::*;
use crate::constants::TERMINAL_VELOCITY;
use crate::connection::ClientConnection;
use crate::player::{
    cell_solid, floor_solid, grounded, overlaps, shift_of, wall_hit, Acceleration, Player, Shift,
    Velocity,
};
use crate::scalar::{
    cell_origin, is_whole, lemma_cell_origin_round_trip, lemma_nearest_cell_is_near, nearest_cell,
    snapped, UNIT,
};
use crate::world::World;

verus! {

/// A length beyond every world: ten thousand million million units, more
/// than the height of the highest world there can be.
pub open spec fn sky() -> int {
    10_000_000_000_000_000
}

/// A coordinate on a cell boundary is the lower edge of its nearest cell.
pub proof fn lemma_whole_is_snapped(v: int)
    requires
        is_whole(v),
    ensures
        snapped(v) == v,
        shift_of(v) == Shift::Centered,
{
    let u = UNIT as int;
    let c = nearest_cell(v);
    lemma_nearest_cell_is_near(v);
    assert(v == c * u) by (nonlinear_arith)
        requires
            u == 1_562_500,
            v % u == 0,
            -781_250 <= v - c * u <= 781_250,
    ;
}

/// Where the nearest cell of a coordinate lies tells where the coordinate
/// lies, to half a block.
pub proof fn lemma_nearest_cell_bounds(v: int, c: int)
    requires
        v >= 0,
    ensures
        v > cell_origin(c) ==> nearest_cell(v) >= c,
        nearest_cell(v) >= c + 1 ==> v >= cell_origin(c) + 781_250,
        nearest_cell(v) <= c ==> v < cell_origin(c) + 781_250,
{
    let u = UNIT as int;
    let n = nearest_cell(v);
    assert(n * u <= v + 781_250 < n * u + u) by (nonlinear_arith)
        requires
            u == 1_562_500,
            n == (v + 781_250) / u,
            v >= 0,
    ;
    assert(v > c * u ==> n >= c) by (nonlinear_arith)
        requires
            u == 1_562_500,
            v + 781_250 < n * u + u,
    ;
    assert(n >= c + 1 ==> v >= c * u + 781_250) by (nonlinear_arith)
        requires
            u == 1_562_500,
            n * u <= v + 781_250,
    ;
    assert(n <= c ==> v < c * u + 781_250) by (nonlinear_arith)
        requires
            u == 1_562_500,
            v + 781_250 < n * u + u,
    ;
}

impl World {
    /// The player one physics tick later, in this world.
    pub open spec fn ticked(&self, p: Player) -> Player {
        let s = self.neighbourhood(p);
        p.after_move(s).0.after_collision(s).0
    }

    /// The player `n` physics ticks later, in this world.
    pub open spec fn ticked_times(&self, p: Player, n: nat) -> Player
        decreases n,
    {
        if n == 0 {
            p
        } else {
            self.ticked(self.ticked_times(p, (n - 1) as nat))
        }
    }

    /// Whether the column `column` is free above solid ground for a player
    /// that leans to the side `lean`: the cell of the column in the row
    /// `floor` is solid, no cell of the column is solid above that row up to
    /// the row `top`, and if the player leans over the next column, no cell of
    /// that column is either. The column on the side to which the player does
    /// not lean plays no part.
    pub open spec fn shaft(&self, column: int, lean: Shift, floor: int, top: int) -> bool {
        &&& 0 <= floor
        &&& cell_solid(self.sampled(column, floor))
        &&& forall|r: int| floor < r <= top ==> !cell_solid(#[trigger] self.sampled(column, r))
        &&& lean == Shift::Left ==> forall|r: int|
            floor < r <= top ==> !cell_solid(#[trigger] self.sampled(column - 1, r))
        &&& lean == Shift::Right ==> forall|r: int|
            floor < r <= top ==> !cell_solid(#[trigger] self.sampled(column + 1, r))
    }

    /// Whether the player is let go above solid ground: it is one block
    /// wide and two high, inside the world, neither moves nor accelerates, has
    /// the ground of its column under its feet with nothing solid between the
    /// ground and its head, and is not about to jump from the ground.
    pub open spec fn let_go_above(&self, p: Player, floor: int, top: int) -> bool {
        &&& p.hitbox_width == 1
        &&& p.hitbox_height == 2
        &&& p.at_rest()
        &&& p.do_jump ==> p.y > cell_origin(floor + 1)
        &&& cell_origin(floor + 1) <= p.y
        &&& nearest_cell(p.y as int) < self.height
        &&& nearest_cell(p.y as int) + 1 <= top
        &&& self.shaft(nearest_cell(p.x as int), shift_of(p.x as int), floor, top)
    }

    /// Whether the player falls straight down to the ground of its column:
    /// it is one block wide and two high, does not move sideways, is above the
    /// ground with nothing solid between the ground and its head, does not
    /// rise, and is not about to jump from the ground. The last two clauses
    /// bound the speed it can have gained on its way.
    pub open spec fn falls_in_shaft(&self, p: Player, floor: int, top: int) -> bool {
        &&& p.hitbox_width == 1
        &&& p.hitbox_height == 2
        &&& p.velocity.x == 0
        &&& p.acceleration.x == 0
        &&& p.do_jump ==> p.y > cell_origin(floor + 1)
        &&& p.velocity.y <= p.acceleration.y <= 0
        &&& (p.acceleration.y == 0 || p.acceleration.y <= -581)
        &&& cell_origin(floor + 1) <= p.y
        &&& nearest_cell(p.y as int) + 1 <= top
        &&& self.shaft(nearest_cell(p.x as int), shift_of(p.x as int), floor, top)
        &&& -4 * sky() <= p.velocity.y
        &&& self.fall_potential(p, floor) <= 941 * sky() + 546_721
    }

    /// A bound on how far the fall can still speed up: the way to the
    /// ground, weighed against the downward acceleration gained so far.
    pub open spec fn fall_potential(&self, p: Player, floor: int) -> int {
        581 * (-p.acceleration.y) + 941 * (p.y - cell_origin(floor + 1)) + (if p.acceleration.y
            == 0 {
            546_721int
        } else {
            0int
        })
    }

    /// How many ticks the fall takes at most: the way to the ground in
    /// units, and one more for a player that has not begun to fall.
    pub open spec fn fall_measure(&self, p: Player, floor: int) -> int {
        p.y - cell_origin(floor + 1) + (if p.acceleration.y == 0 {
            1int
        } else {
            0int
        })
    }

    /// Whether the player rests on the ground of a shaft.
    pub open spec fn rests_on(&self, p: Player, floor: int) -> bool {
        &&& p.y == cell_origin(floor + 1)
        &&& p.at_rest()
        &&& !p.do_jump
    }

    /// `n + 1` ticks are one tick and then `n` ticks.
    pub proof fn lemma_ticked_times_shift(&self, p: Player, n: nat)
        ensures
            self.ticked_times(p, n + 1) == self.ticked_times(self.ticked(p), n),
        decreases n,
    {
        if n > 0 {
            self.lemma_ticked_times_shift(p, (n - 1) as nat);
            assert(self.ticked_times(p, n + 1) == self.ticked(self.ticked_times(p, n)));
        } else {
            assert(self.ticked_times(p, 1) == self.ticked(self.ticked_times(p, 0)));
        }
    }
}

impl World {
    /// The cells around a player above the ground of its column: its body
    /// cells are free, no wall stands where it leans, the floor carries it
    /// exactly if the cell under its feet is the ground, and the ground is a
    /// row of the world.
    proof fn lemma_shaft_cells(&self, p: Player, floor: int, top: int)
        requires
            self.falls_in_shaft(p, floor, top),
        ensures
            ({
                let s = self.neighbourhood(p);
                let gy = nearest_cell(p.y as int);
                &&& gy >= floor + 1
                &&& !cell_solid(s.lower_body)
                &&& !cell_solid(s.upper_body)
                &&& floor_solid(p.x as int, s) == (gy == floor + 1)
                &&& !wall_hit(p.x as int, s)
                &&& floor < 0x1_0000_0000
                &&& 0 <= cell_origin(floor + 1) <= 6_710_886_400_000_000
                &&& p.y <= 2 * sky()
            }),
    {
        let gx = nearest_cell(p.x as int);
        let gy = nearest_cell(p.y as int);
        let u = UNIT as int;
        lemma_nearest_cell_bounds(p.y as int, floor);
        lemma_cell_origin_round_trip(floor + 1);
        assert(self.in_bounds(gx, floor));
        assert(0 <= (floor + 1) * u <= 6_710_886_400_000_000) by (nonlinear_arith)
            requires
                0 <= floor < 0x1_0000_0000,
                u == 1_562_500,
        ;
        if p.y == cell_origin(floor + 1) {
            assert(gy == floor + 1);
        } else {
            lemma_nearest_cell_bounds(p.y as int, floor + 1);
        }
        assert(!cell_solid(self.sampled(gx, gy)));
        assert(!cell_solid(self.sampled(gx, gy + 1)));
        if shift_of(p.x as int) == Shift::Left {
            assert(!cell_solid(self.sampled(gx - 1, gy)));
            assert(!cell_solid(self.sampled(gx - 1, gy + 1)));
        }
        if shift_of(p.x as int) == Shift::Right {
            assert(!cell_solid(self.sampled(gx + 1, gy)));
            assert(!cell_solid(self.sampled(gx + 1, gy + 1)));
        }
        if gy - 1 > floor {
            assert(!cell_solid(self.sampled(gx, gy - 1)));
            if shift_of(p.x as int) == Shift::Left {
                assert(!cell_solid(self.sampled(gx - 1, gy - 1)));
            }
            if shift_of(p.x as int) == Shift::Right {
                assert(!cell_solid(self.sampled(gx + 1, gy - 1)));
            }
        }
    }

    /// A tick on the ground: a player in a shaft whose feet are on the
    /// ground loses its vertical speed and acceleration and stays.
    pub proof fn lemma_tick_on_ground(&self, p: Player, floor: int, top: int)
        requires
            self.falls_in_shaft(p, floor, top),
            p.y == cell_origin(floor + 1),
        ensures
            self.ticked(p) == (Player {
                velocity: Velocity { x: 0, y: 0 },
                acceleration: Acceleration { x: 0, y: 0 },
                ..p
            }),
            self.rests_on(self.ticked(p), floor),
            self.falls_in_shaft(self.ticked(p), floor, top),
    {
        self.lemma_shaft_cells(p, floor, top);
        lemma_cell_origin_round_trip(floor + 1);
        let s = self.neighbourhood(p);
        assert(grounded(p.x as int, p.y as int, s));
        assert(cell_origin(floor + 1) >= 0) by (nonlinear_arith)
            requires
                floor >= 0,
                cell_origin(floor + 1) == (floor + 1) * 1_562_500,
        ;
        let moved = p.after_move(s).0;
        assert(moved == (Player {
            velocity: Velocity { x: 0, y: 0 },
            acceleration: Acceleration { x: 0, y: 0 },
            ..p
        }));
        lemma_whole_is_snapped(p.y as int);
        assert(moved.after_vertical_snap(s) == (moved, false));
        assert(moved.after_horizontal_snap(s) == (moved, false));
    }

    /// A tick in the air: a player in a shaft whose feet are above the
    /// ground is still in the shaft a tick later, and either rests on the
    /// ground or has less of its fall before it.
    pub proof fn lemma_tick_in_air(&self, p: Player, floor: int, top: int)
        requires
            self.falls_in_shaft(p, floor, top),
            p.y > cell_origin(floor + 1),
        ensures
            self.falls_in_shaft(self.ticked(p), floor, top),
            self.ticked(p).x == p.x,
            self.rests_on(self.ticked(p), floor) || 0 <= self.fall_measure(
                self.ticked(p),
                floor,
            ) < self.fall_measure(p, floor),
    {
        self.lemma_shaft_cells(p, floor, top);
        lemma_cell_origin_round_trip(floor + 1);
        let u = UNIT as int;
        let s = self.neighbourhood(p);
        let gy = nearest_cell(p.y as int);
        let ground = cell_origin(floor + 1);
        assert(ground == (floor + 1) * u);
        assert(ground >= u) by (nonlinear_arith)
            requires
                floor >= 0,
                ground == (floor + 1) * u,
                u == 1_562_500,
        ;
        lemma_whole_is_snapped(ground);
        assert(!is_whole(p.y as int) || gy >= floor + 2) by {
            if is_whole(p.y as int) {
                lemma_whole_is_snapped(p.y as int);
                assert(p.y == gy * u);
                assert(gy >= floor + 2) by (nonlinear_arith)
                    requires
                        p.y == gy * u,
                        p.y > (floor + 1) * u,
                        u == 1_562_500,
                ;
            }
        }
        assert(!grounded(p.x as int, p.y as int, s));
        let g = crate::constants::G - crate::player::resistance(s);
        assert(g == 941 || g == 581);
        let fall = if p.velocity.y >= -TERMINAL_VELOCITY {
            p.velocity.y
        } else {
            (-TERMINAL_VELOCITY) as i64
        };
        let y1 = p.y + fall;
        let ay1 = p.acceleration.y - g;
        let vy2 = fall + ay1;
        let moved = p.after_move(s).0;
        assert(!p.jumps(s));
        assert(moved == (Player {
            y: y1 as i64,
            velocity: Velocity { x: 0, y: vy2 as i64 },
            acceleration: Acceleration { x: 0, y: ay1 as i64 },
            do_jump: false,
            ..p
        }));
        lemma_nearest_cell_bounds(p.y as int, floor + 1);
        lemma_nearest_cell_bounds(y1, floor + 1);
        lemma_nearest_cell_bounds(y1, floor);
        lemma_nearest_cell_bounds(y1, gy);
        lemma_nearest_cell_bounds(p.y as int, gy);
        assert(gy * u == cell_origin(gy));
        assert(nearest_cell(y1) <= gy);
        if gy == floor + 1 {
            assert(nearest_cell(y1) == floor + 1);
            assert(snapped(y1) == ground);
        } else {
            assert(y1 > ground);
        }
        let q = self.ticked(p);
        assert(q == moved.after_collision(s).0);
        if gy == floor + 1 && y1 != ground {
            assert(q == (Player {
                y: ground as i64,
                velocity: Velocity { x: 0, y: 0 },
                acceleration: Acceleration { x: 0, y: 0 },
                ..moved
            }));
            assert(self.rests_on(q, floor));
        } else {
            assert(q == moved);
            assert(y1 >= ground);
        }
    }

    /// A player in a shaft comes to rest on its ground after finitely many
    /// ticks.
    pub proof fn lemma_fall_lands(&self, p: Player, floor: int, top: int) -> (n: nat)
        requires
            self.falls_in_shaft(p, floor, top),
        ensures
            self.rests_on(self.ticked_times(p, n), floor),
            self.falls_in_shaft(self.ticked_times(p, n), floor, top),
            self.ticked_times(p, n).x == p.x,
        decreases self.fall_measure(p, floor),
    {
        if self.rests_on(p, floor) {
            0
        } else if p.y == cell_origin(floor + 1) {
            self.lemma_tick_on_ground(p, floor, top);
            assert(self.ticked_times(p, 1) == self.ticked(self.ticked_times(p, 0)));
            1
        } else {
            self.lemma_tick_in_air(p, floor, top);
            let q = self.ticked(p);
            if self.rests_on(q, floor) {
                assert(self.ticked_times(p, 1) == self.ticked(self.ticked_times(p, 0)));
                1
            } else {
                let n = self.lemma_fall_lands(q, floor, top);
                self.lemma_ticked_times_shift(p, n);
                n + 1
            }
        }
    }

    /// A player that rests on the ground of a shaft stays as it is.
    pub proof fn lemma_rest_stays(&self, p: Player, floor: int, top: int, k: nat)
        requires
            self.falls_in_shaft(p, floor, top),
            self.rests_on(p, floor),
        ensures
            self.ticked_times(p, k) == p,
        decreases k,
    {
        if k > 0 {
            self.lemma_rest_stays(p, floor, top, (k - 1) as nat);
            self.lemma_tick_on_ground(p, floor, top);
        }
    }

    /// Ticks add up: `n + k` ticks are `n` ticks and then `k` ticks.
    pub proof fn lemma_ticked_times_add(&self, p: Player, n: nat, k: nat)
        ensures
            self.ticked_times(p, n + k) == self.ticked_times(self.ticked_times(p, n), k),
        decreases k,
    {
        let reached = self.ticked_times(p, n);
        if k > 0 {
            let less = (k - 1) as nat;
            let total = n + k;
            self.lemma_ticked_times_add(p, n, less);
            assert((total - 1) as nat == n + less);
            assert(self.ticked_times(p, total) == self.ticked(
                self.ticked_times(p, (total - 1) as nat),
            ));
            assert(self.ticked_times(reached, k) == self.ticked(self.ticked_times(reached, less)));
        } else {
            assert(self.ticked_times(reached, 0) == reached);
        }
    }

    /// A player let go above solid ground falls to it.
    pub proof fn lemma_let_go_falls(&self, p: Player, floor: int, top: int)
        requires
            self.let_go_above(p, floor, top),
        ensures
            self.falls_in_shaft(p, floor, top),
    {
        let u = UNIT as int;
        let gy = nearest_cell(p.y as int);
        let gx = nearest_cell(p.x as int);
        lemma_nearest_cell_is_near(p.y as int);
        assert(self.in_bounds(gx, floor));
        assert(p.y - (floor + 1) * u <= sky()) by (nonlinear_arith)
            requires
                p.y - gy * u <= 781_250,
                gy < 0x1_0000_0000,
                floor >= 0,
                u == 1_562_500,
                sky() == 10_000_000_000_000_000,
        ;
    }

    /// The fall ends: in a world that stands still, a player let go above
    /// solid ground, with neither speed nor acceleration, rests on the highest
    /// solid cell of its column below it from some tick on, as far to the side
    /// as it started, with neither speed nor acceleration, and never leaves it
    /// again.
    pub proof fn lemma_fall_comes_to_rest(&self, p: Player, floor: int, top: int) -> (n: nat)
        requires
            self.let_go_above(p, floor, top),
        ensures
            forall|m: nat|
                m >= n ==> self.rests_on(#[trigger] self.ticked_times(p, m), floor)
                    && self.ticked_times(p, m).x == p.x && self.ticked_times(p, m)
                    == self.ticked_times(p, n),
    {
        self.lemma_let_go_falls(p, floor, top);
        let n = self.lemma_fall_lands(p, floor, top);
        let q = self.ticked_times(p, n);
        assert forall|m: nat| m >= n implies self.rests_on(
            #[trigger] self.ticked_times(p, m),
            floor,
        ) && self.ticked_times(p, m).x == p.x && self.ticked_times(p, m) == q by {
            let k = (m - n) as nat;
            self.lemma_ticked_times_add(p, n, k);
            self.lemma_rest_stays(q, floor, top, k);
        }
        n
    }

    /// The tick of the physics tick is this tick: what
    /// [`World::physics_tick`] makes of the player of a connection is the
    /// player one tick later.
    pub proof fn lemma_step_is_tick(&self, conn: ClientConnection)
        ensures
            self.stepped(conn).0.server_player == self.ticked(conn.server_player),
    {
    }

    /// A tick reads nothing of the world but its grid: in two worlds with
    /// the same chunks and sizes, as before and after a physics tick, a player
    /// is the same one tick later, and so after any number of ticks.
    pub proof fn lemma_tick_reads_grid_only(&self, other: World, p: Player, n: nat)
        requires
            self.chunks == other.chunks,
            self.same_shape(other),
        ensures
            self.ticked(p) == other.ticked(p),
            self.ticked_times(p, n) == other.ticked_times(p, n),
        decreases n,
    {
        crate::world::lemma_same_chunks_same_grid(*self, other);
        assert(self.neighbourhood(p) == other.neighbourhood(p));
        if n > 0 {
            self.lemma_tick_reads_grid_only(other, p, (n - 1) as nat);
            let q = self.ticked_times(p, (n - 1) as nat);
            self.lemma_tick_reads_grid_only(other, q, 0);
        }
    }

    /// A falling player is still falling, or on the ground, a tick later.
    pub proof fn lemma_fall_keeps_shaft(&self, p: Player, floor: int, top: int)
        requires
            self.falls_in_shaft(p, floor, top),
        ensures
            self.falls_in_shaft(self.ticked(p), floor, top),
    {
        if p.y == cell_origin(floor + 1) {
            self.lemma_tick_on_ground(p, floor, top);
        } else {
            self.lemma_tick_in_air(p, floor, top);
        }
    }

    /// A falling player is clear of solid cells: if the row above its head
    /// is free too, no cell that its hitbox overlaps is solid. With
    /// [`World::lemma_fall_keeps_shaft`], this holds after every tick of the
    /// fall.
    pub proof fn lemma_shaft_player_is_clear(&self, p: Player, floor: int, top: int, cx: int, cy: int)
        requires
            self.falls_in_shaft(p, floor, top),
            nearest_cell(p.y as int) + 2 <= top,
            overlaps(p.x as int, p.y as int, p.hitbox_width as int, p.hitbox_height as int, cx, cy),
        ensures
            !cell_solid(self.sampled(cx, cy)),
    {
        let u = UNIT as int;
        let gx = nearest_cell(p.x as int);
        let gy = nearest_cell(p.y as int);
        lemma_nearest_cell_is_near(p.x as int);
        lemma_nearest_cell_is_near(p.y as int);
        crate::collision::lemma_overlap_near(p.x as int, p.y as int, gx, gy, cx, cy);
        assert(floor < cy) by (nonlinear_arith)
            requires
                u == 1_562_500,
                p.y < (cy + 1) * u,
                p.y >= (floor + 1) * u,
        ;
        assert(!cell_solid(self.sampled(cx, cy)));
    }
}

} // verus!
