//! What collision handling achieves: after it the hitbox of a player
//! overlaps no solid cell of its neighbourhood, but for the cases that the
//! rule leaves unresolved, which are named here; and, for a player that its
//! motion carried away from the cell around which the neighbourhood was
//! sampled, which cells its hitbox covers afterwards.

use vstd::prelude::*;
use crate::block::solid;
use crate::player::{
    cell_solid, overlaps, shift_of, wall_hit, BlockPos, Player, Shift, Surrounding,
};
use crate::scalar::{cell_origin, lemma_nearest_cell_is_near, nearest_cell, snapped, UNIT};
use crate::world::World;

verus! {

/// Whether a sampled cell, if it is inside the world, is the cell
/// `(cx, cy)`.
pub open spec fn cell_is_at(cell: Option<BlockPos>, cx: int, cy: int) -> bool {
    cell matches Some(pos) ==> pos.0 == cx && pos.1 == cy
}

/// Whether the neighbourhood `s` was sampled around the cell `(gx, gy)` for
/// a player one block wide and two high: its columns are the one left of
/// `gx`, `gx` and the one right of it, its rows the one under `gy`, `gy` and
/// the two above it.
pub open spec fn sampled_around(s: Surrounding, gx: int, gy: int) -> bool {
    &&& cell_is_at(s.top_left, gx - 1, gy + 2)
    &&& cell_is_at(s.top_center, gx, gy + 2)
    &&& cell_is_at(s.top_right, gx + 1, gy + 2)
    &&& cell_is_at(s.left_up, gx - 1, gy + 1)
    &&& cell_is_at(s.upper_body, gx, gy + 1)
    &&& cell_is_at(s.right_up, gx + 1, gy + 1)
    &&& cell_is_at(s.left_down, gx - 1, gy)
    &&& cell_is_at(s.lower_body, gx, gy)
    &&& cell_is_at(s.right_down, gx + 1, gy)
    &&& cell_is_at(s.bottom_left, gx - 1, gy - 1)
    &&& cell_is_at(s.bottom_center, gx, gy - 1)
    &&& cell_is_at(s.bottom_right, gx + 1, gy - 1)
}

/// Whether the sampled cell is solid and the hitbox of a player one block
/// wide and two high with its corner at `(x, y)` overlaps it.
pub open spec fn hits(cell: Option<BlockPos>, x: int, y: int) -> bool {
    cell matches Some(pos) && solid(pos.2) && overlaps(x, y, 1, 2, pos.0 as int, pos.1 as int)
}

/// Whether the hitbox of a player one block wide and two high with its
/// corner at `(x, y)` overlaps no solid cell of the neighbourhood.
pub open spec fn clear_of_solids(s: Surrounding, x: int, y: int) -> bool {
    &&& !hits(s.top_left, x, y)
    &&& !hits(s.top_center, x, y)
    &&& !hits(s.top_right, x, y)
    &&& !hits(s.left_up, x, y)
    &&& !hits(s.upper_body, x, y)
    &&& !hits(s.right_up, x, y)
    &&& !hits(s.left_down, x, y)
    &&& !hits(s.lower_body, x, y)
    &&& !hits(s.right_down, x, y)
    &&& !hits(s.bottom_left, x, y)
    &&& !hits(s.bottom_center, x, y)
    &&& !hits(s.bottom_right, x, y)
}

/// The side to which the player still leans after the horizontal part of
/// collision handling: none if a wall made it stand upright.
pub open spec fn leans(x: int, s: Surrounding) -> Shift {
    if wall_hit(x, s) {
        Shift::Centered
    } else {
        shift_of(x)
    }
}

/// Squeezed: both body cells are solid and no corner has both its cells
/// free, so the player is left where it is.
pub open spec fn squeezed(s: Surrounding) -> bool {
    &&& cell_solid(s.lower_body)
    &&& cell_solid(s.upper_body)
    &&& cell_solid(s.top_left) || cell_solid(s.left_up)
    &&& cell_solid(s.left_down) || cell_solid(s.bottom_left)
    &&& cell_solid(s.top_right) || cell_solid(s.right_up)
    &&& cell_solid(s.right_down) || cell_solid(s.bottom_right)
}

/// Wedged: one body cell is solid and so is the cell beyond the other end
/// of the body, above the head or under the feet, so the player is left
/// where it is.
pub open spec fn wedged(s: Surrounding) -> bool {
    ||| cell_solid(s.lower_body) && !cell_solid(s.upper_body) && cell_solid(s.top_center)
    ||| !cell_solid(s.lower_body) && cell_solid(s.upper_body) && cell_solid(s.bottom_center)
}

/// Scraped: one body cell is solid and the player is pushed a row up or
/// down, but it leans over the next column, where the corner cell that it
/// comes to overlap is solid.
pub open spec fn scraped(x: int, s: Surrounding) -> bool {
    ||| cell_solid(s.lower_body) && !cell_solid(s.upper_body) && !cell_solid(s.top_center) && ((
    leans(x, s) == Shift::Left && cell_solid(s.top_left)) || (leans(x, s) == Shift::Right
        && cell_solid(s.top_right)))
    ||| !cell_solid(s.lower_body) && cell_solid(s.upper_body) && !cell_solid(s.bottom_center) && ((
    leans(x, s) == Shift::Left && cell_solid(s.bottom_left)) || (leans(x, s) == Shift::Right
        && cell_solid(s.bottom_right)))
}

/// Unstopped: no body cell is solid and the player, between two rows, is
/// not stopped by the vertical part of collision handling, because it does
/// not move towards the face it meets; it reaches into a solid cell of the row
/// under its feet or of the row above its head.
pub open spec fn unstopped(p: Player, s: Surrounding) -> bool {
    let x = p.x as int;
    &&& !cell_solid(s.lower_body)
    &&& !cell_solid(s.upper_body)
    &&& !p.after_vertical_snap(s).1
    &&& {
        ||| p.y < snapped(p.y as int) && (cell_solid(s.bottom_center) || (leans(x, s) == Shift::Left
            && cell_solid(s.bottom_left)) || (leans(x, s) == Shift::Right && cell_solid(
            s.bottom_right,
        )))
        ||| p.y > snapped(p.y as int) && (cell_solid(s.top_center) || (leans(x, s) == Shift::Left
            && cell_solid(s.top_left)) || (leans(x, s) == Shift::Right && cell_solid(s.top_right)))
    }
}

/// Whether collision handling leaves the player overlapping a solid cell:
/// the cases that the rule does not resolve.
pub open spec fn unresolved(p: Player, s: Surrounding) -> bool {
    squeezed(s) || wedged(s) || scraped(p.x as int, s) || unstopped(p, s)
}

/// Whether the player is at least two blocks away from both ends of the
/// range of coordinates, in both directions: collision handling then moves
/// it by whole blocks without reaching an end of the range.
pub open spec fn far_from_ends(p: Player) -> bool {
    &&& i64::MIN + 2 * UNIT <= p.x <= i64::MAX - 2 * UNIT
    &&& i64::MIN + 2 * UNIT <= p.y <= i64::MAX - 2 * UNIT
}

/// By how many columns and rows the player is pushed out of solid cells
/// inside its body: a row up or down if one body cell is solid and the cell
/// beyond the other end of the body is free; into the first corner whose two
/// cells are free if both are solid; and not at all otherwise.
pub open spec fn push(s: Surrounding) -> (int, int) {
    let lower = cell_solid(s.lower_body);
    let upper = cell_solid(s.upper_body);
    if lower && !upper {
        if !cell_solid(s.top_center) {
            (0, 1)
        } else {
            (0, 0)
        }
    } else if !lower && upper {
        if !cell_solid(s.bottom_center) {
            (0, -1)
        } else {
            (0, 0)
        }
    } else if lower && upper {
        if !cell_solid(s.top_left) && !cell_solid(s.left_up) {
            (-1, 1)
        } else if !cell_solid(s.left_down) && !cell_solid(s.bottom_left) {
            (-1, -1)
        } else if !cell_solid(s.top_right) && !cell_solid(s.right_up) {
            (1, 1)
        } else if !cell_solid(s.right_down) && !cell_solid(s.bottom_right) {
            (1, -1)
        } else {
            (0, 0)
        }
    } else {
        (0, 0)
    }
}

/// Whether the hitbox covers part of the column `cx` after collision
/// handling with the solidity of `s`: the column nearest to the player, moved
/// by the push, and, unless the player was pushed sideways, the next column
/// on the side to which it still leans.
pub open spec fn covers_column(p: Player, s: Surrounding, cx: int) -> bool {
    let column = nearest_cell(p.x as int) + push(s).0;
    let lean = leans(p.x as int, s);
    ||| cx == column
    ||| push(s).0 == 0 && cx == column - 1 && lean == Shift::Left
    ||| push(s).0 == 0 && cx == column + 1 && lean == Shift::Right
}

/// Whether the hitbox covers part of the row `cy` after collision handling
/// with the solidity of `s`: the row nearest to the player, moved by the
/// push, and the row above it; and, if the player was neither pushed nor
/// stopped by a floor or a ceiling, the row under them if it lies under its
/// nearest row and the row above them if it lies over it.
pub open spec fn covers_row(p: Player, s: Surrounding, cy: int) -> bool {
    let row = nearest_cell(p.y as int) + push(s).1;
    let loose = push(s) == (0int, 0int) && !p.after_vertical_snap(s).1;
    ||| cy == row
    ||| cy == row + 1
    ||| loose && cy == row - 1 && p.y < snapped(p.y as int)
    ||| loose && cy == row + 2 && p.y > snapped(p.y as int)
}

/// Whether the sampled cell is solid and among the cells that the hitbox
/// covers after collision handling.
pub open spec fn met(cell: Option<BlockPos>, p: Player, s: Surrounding) -> bool {
    cell matches Some(pos) && solid(pos.2) && covers_column(p, s, pos.0 as int) && covers_row(
        p,
        s,
        pos.1 as int,
    )
}

/// Whether collision handling with the neighbourhood `s` leaves the player
/// `p` in a solid cell of `s`, wherever `s` was sampled.
pub open spec fn runs_into(p: Player, s: Surrounding) -> bool {
    ||| met(s.top_left, p, s)
    ||| met(s.top_center, p, s)
    ||| met(s.top_right, p, s)
    ||| met(s.left_up, p, s)
    ||| met(s.upper_body, p, s)
    ||| met(s.right_up, p, s)
    ||| met(s.left_down, p, s)
    ||| met(s.lower_body, p, s)
    ||| met(s.right_down, p, s)
    ||| met(s.bottom_left, p, s)
    ||| met(s.bottom_center, p, s)
    ||| met(s.bottom_right, p, s)
}

/// Which cells a hitbox overlaps: a hitbox one block wide and two high whose
/// corner is within half a block of the lower edge of the cell `(gx, gy)`
/// overlaps the column `gx`, the column left of it if the corner lies left of
/// the edge and the column right of it if it lies right; and the rows `gy` and
/// `gy + 1`, the row under them if the corner lies under the edge and the row
/// above them if it lies above.
pub proof fn lemma_overlap_near(x: int, y: int, gx: int, gy: int, cx: int, cy: int)
    requires
        -781_250 <= x - cell_origin(gx) <= 781_250,
        -781_250 <= y - cell_origin(gy) <= 781_250,
    ensures
        overlaps(x, y, 1, 2, cx, cy) <==> (cx == gx || (cx == gx - 1 && x < cell_origin(gx)) || (cx
            == gx + 1 && x > cell_origin(gx))) && (cy == gy || cy == gy + 1 || (cy == gy - 1 && y
            < cell_origin(gy)) || (cy == gy + 2 && y > cell_origin(gy))),
{
    let u = UNIT as int;
    assert((x < (cx + 1) * u && cx * u < x + 1 * u) <==> (cx == gx || (cx == gx - 1 && x < gx * u)
        || (cx == gx + 1 && x > gx * u))) by (nonlinear_arith)
        requires
            u == 1_562_500,
            -781_250 <= x - gx * u <= 781_250,
    ;
    assert((y < (cy + 1) * u && cy * u < y + 2 * u) <==> (cy == gy || cy == gy + 1 || (cy == gy - 1
        && y < gy * u) || (cy == gy + 2 && y > gy * u))) by (nonlinear_arith)
        requires
            u == 1_562_500,
            -781_250 <= y - gy * u <= 781_250,
    ;
}

/// Where collision handling puts the player, in terms of the cell
/// `(gx, gy)` nearest to it: the cell nearest to the player afterwards, and
/// on which side of that cell's lower edges its corner lies.
proof fn lemma_collision_place(p: Player, s: Surrounding) -> (base: (int, int))
    requires
        far_from_ends(p) || sampled_around(s, nearest_cell(p.x as int), nearest_cell(p.y as int)),
    ensures
        ({
            let gx = nearest_cell(p.x as int);
            let gy = nearest_cell(p.y as int);
            let q = p.after_collision(s).0;
            let lower = cell_solid(s.lower_body);
            let upper = cell_solid(s.upper_body);
            let lean = leans(p.x as int, s);
            let moved_up = (lower && !upper && !cell_solid(s.top_center));
            let moved_down = (!lower && upper && !cell_solid(s.bottom_center));
            let west_up = lower && upper && !cell_solid(s.top_left) && !cell_solid(s.left_up);
            let west_down = lower && upper && !west_up && !cell_solid(s.left_down) && !cell_solid(
                s.bottom_left,
            );
            let east_up = lower && upper && !west_up && !west_down && !cell_solid(s.top_right)
                && !cell_solid(s.right_up);
            let east_down = lower && upper && !west_up && !west_down && !east_up && !cell_solid(
                s.right_down,
            ) && !cell_solid(s.bottom_right);
            let diagonal = west_up || west_down || east_up || east_down;
            &&& -781_250 <= q.x - cell_origin(base.0) <= 781_250
            &&& -781_250 <= q.y - cell_origin(base.1) <= 781_250
            &&& base.0 == (if west_up || west_down {
                gx - 1
            } else if east_up || east_down {
                gx + 1
            } else {
                gx
            })
            &&& base.1 == (if moved_up || west_up || east_up {
                gy + 1
            } else if moved_down || west_down || east_down {
                gy - 1
            } else {
                gy
            })
            &&& (q.x < cell_origin(base.0)) == (!diagonal && lean == Shift::Left)
            &&& (q.x > cell_origin(base.0)) == (!diagonal && lean == Shift::Right)
            &&& (q.y < cell_origin(base.1)) == (!diagonal && !moved_up && !moved_down
                && !p.after_vertical_snap(s).1 && p.y < snapped(p.y as int))
            &&& (q.y > cell_origin(base.1)) == (!diagonal && !moved_up && !moved_down
                && !p.after_vertical_snap(s).1 && p.y > snapped(p.y as int))
        }),
{
    let u = UNIT as int;
    let gx = nearest_cell(p.x as int);
    let gy = nearest_cell(p.y as int);
    lemma_nearest_cell_is_near(p.x as int);
    lemma_nearest_cell_is_near(p.y as int);
    let snap_x = snapped(p.x as int);
    let snap_y = snapped(p.y as int);
    assert(snap_x == gx * u && snap_y == gy * u);
    let (upright, landed) = p.after_vertical_snap(s);
    let (aside, stopped) = upright.after_horizontal_snap(s);
    assert(upright.x == p.x);
    assert(aside.y == upright.y);
    let lower = cell_solid(s.lower_body);
    let upper = cell_solid(s.upper_body);
    if far_from_ends(p) {
        assert(-781_250 <= p.x - snap_x <= 781_250 && -781_250 <= p.y - snap_y <= 781_250);
        assert(i64::MIN <= snap_x - u && snap_x + u <= i64::MAX);
        assert(i64::MIN <= snap_y - u && snap_y + u <= i64::MAX);
        assert(cell_origin(gx - 1) == snap_x - u && cell_origin(gx + 1) == snap_x + u
            && cell_origin(gy - 1) == snap_y - u && cell_origin(gy + 1) == snap_y + u)
            by (nonlinear_arith)
            requires
                snap_x == gx * u,
                snap_y == gy * u,
                u == 1_562_500,
                cell_origin(gx - 1) == (gx - 1) * u,
                cell_origin(gx + 1) == (gx + 1) * u,
                cell_origin(gy - 1) == (gy - 1) * u,
                cell_origin(gy + 1) == (gy + 1) * u,
        ;
    } else if lower || upper {
        if lower {
            let pos = s.lower_body->0;
            assert(pos.0 == gx && pos.1 == gy);
        } else {
            let pos = s.upper_body->0;
            assert(pos.0 == gx && pos.1 == gy + 1);
        }
        assert(0 <= gx <= 0xffff_ffff && -1 <= gy <= 0x1_0000_0000);
        assert(cell_origin(gx - 1) == snap_x - u && cell_origin(gx + 1) == snap_x + u
            && cell_origin(gy - 1) == snap_y - u && cell_origin(gy + 1) == snap_y + u)
            by (nonlinear_arith)
            requires
                snap_x == gx * u,
                snap_y == gy * u,
                u == 1_562_500,
                cell_origin(gx - 1) == (gx - 1) * u,
                cell_origin(gx + 1) == (gx + 1) * u,
                cell_origin(gy - 1) == (gy - 1) * u,
                cell_origin(gy + 1) == (gy + 1) * u,
        ;
        assert(-7_000_000_000_000_000 <= snap_x <= 7_000_000_000_000_000
            && -7_000_000_000_000_000 <= snap_y <= 7_000_000_000_000_000) by (nonlinear_arith)
            requires
                snap_x == gx * u,
                snap_y == gy * u,
                u == 1_562_500,
                0 <= gx <= 0xffff_ffff,
                -1 <= gy <= 0x1_0000_0000,
        ;
    }
    let q = p.after_collision(s).0;
    assert(q == aside.after_extrusion(snap_x as i64, snap_y as i64, s).0);
    let west_up = lower && upper && !cell_solid(s.top_left) && !cell_solid(s.left_up);
    let west_down = lower && upper && !west_up && !cell_solid(s.left_down) && !cell_solid(
        s.bottom_left,
    );
    let east_up = lower && upper && !west_up && !west_down && !cell_solid(s.top_right)
        && !cell_solid(s.right_up);
    let east_down = lower && upper && !west_up && !west_down && !east_up && !cell_solid(
        s.right_down,
    ) && !cell_solid(s.bottom_right);
    let bx = if west_up || west_down {
        gx - 1
    } else if east_up || east_down {
        gx + 1
    } else {
        gx
    };
    let by = if (lower && !upper && !cell_solid(s.top_center)) || west_up || east_up {
        gy + 1
    } else if (!lower && upper && !cell_solid(s.bottom_center)) || west_down || east_down {
        gy - 1
    } else {
        gy
    };
    (bx, by)
}

/// Which cells the hitbox covers after collision handling: for every
/// player one block wide and two high that is far from the ends of the range,
/// and for every neighbourhood, wherever it was sampled, the hitbox overlaps
/// the cell `(cx, cy)` after collision handling exactly if it covers the
/// column `cx` and the row `cy`.
pub proof fn lemma_cells_after_collision(p: Player, s: Surrounding, cx: int, cy: int)
    requires
        far_from_ends(p),
    ensures
        overlaps(
            p.after_collision(s).0.x as int,
            p.after_collision(s).0.y as int,
            1,
            2,
            cx,
            cy,
        ) <==> covers_column(p, s, cx) && covers_row(p, s, cy),
{
    let q = p.after_collision(s).0;
    let base = lemma_collision_place(p, s);
    lemma_overlap_near(q.x as int, q.y as int, base.0, base.1, cx, cy);
}

/// Collision handling clears the player of the solid cells that it does
/// not run into: for every player one block wide and two high that is far
/// from the ends of the range, and for every neighbourhood, wherever it was
/// sampled, the hitbox overlaps no solid cell of the neighbourhood after
/// collision handling exactly if none of its solid cells is among the cells
/// that the hitbox then covers.
pub proof fn lemma_collision_clears_anywhere(p: Player, s: Surrounding)
    requires
        far_from_ends(p),
    ensures
        clear_of_solids(s, p.after_collision(s).0.x as int, p.after_collision(s).0.y as int)
            <==> !runs_into(p, s),
{
    let q = p.after_collision(s).0;
    assert forall|cx: int, cy: int| #[trigger]
        overlaps(q.x as int, q.y as int, 1, 2, cx, cy) <==> covers_column(p, s, cx) && covers_row(
            p,
            s,
            cy,
        ) by {
        lemma_cells_after_collision(p, s, cx, cy);
    }
}

/// Collision handling clears the player of solid cells, but for the cases
/// it does not resolve: for every player one block wide and two high and
/// every neighbourhood sampled around the cell nearest to it, the hitbox
/// overlaps no solid cell of the neighbourhood after collision handling,
/// unless the player is squeezed, wedged, scraped or unstopped; and in each
/// of these cases it does overlap one.
pub proof fn lemma_collision_clears(p: Player, s: Surrounding)
    requires
        sampled_around(s, nearest_cell(p.x as int), nearest_cell(p.y as int)),
    ensures
        clear_of_solids(s, p.after_collision(s).0.x as int, p.after_collision(s).0.y as int)
            <==> !unresolved(p, s),
{
    let gx = nearest_cell(p.x as int);
    let gy = nearest_cell(p.y as int);
    let q = p.after_collision(s).0;
    let base = lemma_collision_place(p, s);
    assert forall|cx: int, cy: int| #[trigger]
        overlaps(q.x as int, q.y as int, 1, 2, cx, cy) <==> (cx == base.0 || (cx == base.0 - 1
            && q.x < cell_origin(base.0)) || (cx == base.0 + 1 && q.x > cell_origin(base.0))) && (cy
            == base.1 || cy == base.1 + 1 || (cy == base.1 - 1 && q.y < cell_origin(base.1)) || (cy
            == base.1 + 2 && q.y > cell_origin(base.1))) by {
        lemma_overlap_near(q.x as int, q.y as int, base.0, base.1, cx, cy);
    }
}

impl World {
    /// The neighbourhood of a player one block wide and two high is sampled
    /// around the cell nearest to the player.
    pub proof fn lemma_neighbourhood_is_sampled(&self, p: Player)
        requires
            p.hitbox_width == 1,
            p.hitbox_height == 2,
        ensures
            sampled_around(
                self.neighbourhood(p),
                nearest_cell(p.x as int),
                nearest_cell(p.y as int),
            ),
    {
    }

    /// A physics tick clears the player of solid cells, but for the cases
    /// that collision handling does not resolve: if the motion of the tick
    /// leaves the player nearest to the cell around which its neighbourhood
    /// was sampled, then after the tick its hitbox overlaps no solid cell of
    /// that neighbourhood, unless the player was squeezed, wedged, scraped or
    /// unstopped after its motion; and in each of these cases it does overlap
    /// one.
    pub proof fn lemma_tick_clears(&self, p: Player)
        requires
            p.hitbox_width == 1,
            p.hitbox_height == 2,
            nearest_cell(p.after_move(self.neighbourhood(p)).0.x as int) == nearest_cell(
                p.x as int,
            ),
            nearest_cell(p.after_move(self.neighbourhood(p)).0.y as int) == nearest_cell(
                p.y as int,
            ),
        ensures
            clear_of_solids(
                self.neighbourhood(p),
                self.ticked(p).x as int,
                self.ticked(p).y as int,
            ) <==> !unresolved(p.after_move(self.neighbourhood(p)).0, self.neighbourhood(p)),
    {
        self.lemma_neighbourhood_is_sampled(p);
        lemma_collision_clears(p.after_move(self.neighbourhood(p)).0, self.neighbourhood(p));
    }

    /// Whether no cell of the world is solid that the hitbox of a player one
    /// block wide and two high overlaps with its corner at `(x, y)`.
    pub open spec fn stands_clear(&self, x: int, y: int) -> bool {
        forall|cx: int, cy: int|
            overlaps(x, y, 1, 2, cx, cy) ==> !cell_solid(#[trigger] self.sampled(cx, cy))
    }

    /// When a player stands clear after a physics tick, wherever its motion
    /// carries it: if after the motion of the tick the player is far from the
    /// ends of the range, then after the tick its hitbox overlaps no solid
    /// cell of the world exactly if no cell is solid in the columns and rows
    /// that the hitbox covers after collision handling. The cells that are
    /// tested are those sampled before the motion; the cells that are covered
    /// lie around the player after it.
    pub proof fn lemma_tick_stands_clear(&self, p: Player)
        requires
            p.hitbox_width == 1,
            p.hitbox_height == 2,
            far_from_ends(p.after_move(self.neighbourhood(p)).0),
        ensures
            self.stands_clear(self.ticked(p).x as int, self.ticked(p).y as int) <==> (forall|
                cx: int,
                cy: int,
            |
                covers_column(p.after_move(self.neighbourhood(p)).0, self.neighbourhood(p), cx)
                    && covers_row(
                    p.after_move(self.neighbourhood(p)).0,
                    self.neighbourhood(p),
                    cy,
                ) ==> !cell_solid(#[trigger] self.sampled(cx, cy))),
    {
        let s = self.neighbourhood(p);
        let m = p.after_move(s).0;
        let q = self.ticked(p);
        assert forall|cx: int, cy: int|
            overlaps(q.x as int, q.y as int, 1, 2, cx, cy) == (covers_column(m, s, cx)
                && covers_row(m, s, cy)) by {
            lemma_cells_after_collision(m, s, cx, cy);
        }
        if self.stands_clear(q.x as int, q.y as int) {
            assert forall|cx: int, cy: int|
                covers_column(m, s, cx) && covers_row(m, s, cy) implies !cell_solid(
                #[trigger] self.sampled(cx, cy),
            ) by {
                assert(overlaps(q.x as int, q.y as int, 1, 2, cx, cy));
            }
        }
    }

    /// A physics tick clears the player of the solid cells that it does not
    /// run into, wherever its motion carries it: if after the motion of the
    /// tick the player is far from the ends of the range, be it nearest to
    /// another cell than the one around which its neighbourhood was sampled,
    /// then after the tick its hitbox overlaps no solid cell of that
    /// neighbourhood exactly if none of them is among the cells that the
    /// hitbox covers after collision handling.
    pub proof fn lemma_tick_clears_anywhere(&self, p: Player)
        requires
            p.hitbox_width == 1,
            p.hitbox_height == 2,
            far_from_ends(p.after_move(self.neighbourhood(p)).0),
        ensures
            clear_of_solids(
                self.neighbourhood(p),
                self.ticked(p).x as int,
                self.ticked(p).y as int,
            ) <==> !runs_into(p.after_move(self.neighbourhood(p)).0, self.neighbourhood(p)),
    {
        lemma_collision_clears_anywhere(
            p.after_move(self.neighbourhood(p)).0,
            self.neighbourhood(p),
        );
    }
}

} // verus!
