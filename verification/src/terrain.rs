//! World generation: empty, flat and terrain worlds.
//!
//! A terrain is painted column by column from a sampled field: for each
//! column the height of the surface and, row by row, whether the rock is
//! solid there or hollowed out by a cave. Water fills the columns up to the
//! water level, grass covers the rock that rises above it, and trees grow in
//! the columns picked for them. Last the water settles.

use vstd::prelude::*;
use crate::block::{lemma_non_solid_blocks, solid, Block};
use crate::grid::{flat_index, lemma_flat_index_bound, lemma_flat_index_parts, lemma_flat_index_split};
use crate::random::{draw_u32, draw_u64, random_u64, seeded_generator};
use crate::sorting::{ascending, sorted_unique};
use crate::world::{PositionUpdate, World, WorldError};

verus! {

/// The kinds of tree.
#[derive(Clone, Copy, Debug, PartialEq, Eq, Structural)]
pub enum TreeTypes {
    Basic,
}

/// A cell a tree takes and the block it puts there. A tree near the edge
/// may take cells left of or below the world, hence the signed coordinates.
pub type TreeCell = (i64, i64, Block);

/// What a tree with its trunk's foot at the origin puts into the cell
/// `(dx, dy)`: a trunk of four blocks of wood, and leaves around its top in
/// rows of four, three and one.
pub open spec fn tree_block(dx: int, dy: int) -> Option<Block> {
    if dx == 0 && 0 <= dy <= 3 {
        Some(Block::Wood)
    } else if (dy == 3 && -2 <= dx <= 2) || (dy == 4 && -1 <= dx <= 1) || (dy == 5 && dx == 0) {
        Some(Block::Leaves)
    } else {
        None
    }
}

/// The twelve cells of a tree whose trunk's foot is in `(x, y)`, from the
/// top down.
pub open spec fn tree_cells(x: int, y: int) -> Seq<(int, int, Block)> {
    seq![
        (x, y + 5, Block::Leaves),
        (x - 1, y + 4, Block::Leaves),
        (x, y + 4, Block::Leaves),
        (x + 1, y + 4, Block::Leaves),
        (x - 2, y + 3, Block::Leaves),
        (x - 1, y + 3, Block::Leaves),
        (x, y + 3, Block::Wood),
        (x + 1, y + 3, Block::Leaves),
        (x + 2, y + 3, Block::Leaves),
        (x, y + 2, Block::Wood),
        (x, y + 1, Block::Wood),
        (x, y, Block::Wood),
    ]
}

impl TreeTypes {
    /// The cells that a tree takes when its trunk's foot is in
    /// `(trunk_x, trunk_y)`, with the block for each.
    pub fn get_required_blocks(tree: TreeTypes, trunk_x: u32, trunk_y: u32) -> (cells: Vec<
        TreeCell,
    >)
        ensures
            cells@.len() == 12,
            forall|i: int|
                0 <= i < 12 ==> ((#[trigger] cells@[i]).0 as int, cells@[i].1 as int, cells@[i].2)
                    == tree_cells(trunk_x as int, trunk_y as int)[i],
            forall|i: int|
                0 <= i < 12 ==> tree_block(
                    (#[trigger] cells@[i]).0 - trunk_x,
                    cells@[i].1 - trunk_y,
                ) == Some(cells@[i].2),
    {
        let x: i64 = trunk_x as i64;
        let y: i64 = trunk_y as i64;
        let mut cells: Vec<TreeCell> = Vec::new();
        match tree {
            TreeTypes::Basic => {
                cells.push((x, y + 5, Block::Leaves));
                cells.push((x - 1, y + 4, Block::Leaves));
                cells.push((x, y + 4, Block::Leaves));
                cells.push((x + 1, y + 4, Block::Leaves));
                cells.push((x - 2, y + 3, Block::Leaves));
                cells.push((x - 1, y + 3, Block::Leaves));
                cells.push((x, y + 3, Block::Wood));
                cells.push((x + 1, y + 3, Block::Leaves));
                cells.push((x + 2, y + 3, Block::Leaves));
                cells.push((x, y + 2, Block::Wood));
                cells.push((x, y + 1, Block::Wood));
                cells.push((x, y, Block::Wood));
            },
        }
        cells
    }
}

/// The block that filling puts into row `y` of a column whose surface is
/// at `height`: water above the surface, and below it rock or, in a cave, air.
pub open spec fn fill_block(height: u32, rock: Seq<bool>, y: int) -> Block {
    if y > height {
        Block::Water
    } else if rock[y] {
        Block::Stone
    } else {
        Block::Air
    }
}

/// The highest row of rock below row `n` of a column, if there is one.
pub open spec fn top_rock(rock: Seq<bool>, n: int) -> Option<u32>
    decreases n,
{
    if n <= 0 {
        None
    } else if rock[n - 1] {
        Some((n - 1) as u32)
    } else {
        top_rock(rock, n - 1)
    }
}

/// The surface of a column whose fill is rock or cave up to the row
/// `height`: its topmost rock, if it has any.
pub open spec fn surface_rock(rock: Seq<bool>, height: u32) -> Option<u32> {
    top_rock(rock, height + 1)
}

/// The larger of two heights.
pub open spec fn higher(a: u32, b: u32) -> u32 {
    if a >= b {
        a
    } else {
        b
    }
}

/// The cells of column `x` that filling turns into water: the rows above
/// `height` up to `top`, from the bottom up.
pub open spec fn column_water(x: u32, height: u32, top: u32) -> Seq<(u32, u32)> {
    Seq::new(
        if top > height {
            (top - height) as nat
        } else {
            0
        },
        |i: int| (x, (height + 1 + i) as u32),
    )
}

/// What dressing makes of the surface of a column: its topmost rock grows
/// grass if it rises above the water. What lies on such a rock is air, never
/// water, since water is filled in only up to the water level.
pub open spec fn dress_block(surface: Option<u32>, water: u32) -> Option<Block> {
    match surface {
        Some(top_y) => if top_y > water {
            Some(Block::Grass)
        } else {
            None
        },
        None => None,
    }
}

impl World {
    /// Whether a tree with its trunk's foot in `(x, y)` lies inside the
    /// world.
    pub open spec fn tree_fits(&self, x: int, y: int) -> bool {
        2 <= x && x + 2 < self.width && 0 <= y && y + 5 < self.height
    }

    /// Whether this world is `before` with a tree planted with its trunk's
    /// foot in `(x, y)`.
    pub open spec fn is_planting_of(&self, before: World, x: int, y: int) -> bool {
        &&& self.same_shape(before)
        &&& self.grid_wf()
        &&& self.same_state(before)
        &&& forall|a: int, b: int|
            before.in_bounds(a, b) ==> #[trigger] self.block_at(a, b) == (match tree_block(
                a - x,
                b - y,
            ) {
                Some(block) => block,
                None => before.block_at(a, b),
            })
    }

    /// Whether this world is `before` with column `x` filled up to row
    /// `top`: every row of the column up to there holds what [`fill_block`]
    /// says, and the cells that turned into water are queued.
    pub open spec fn is_filling_of(
        &self,
        before: World,
        x: u32,
        height: u32,
        top: u32,
        rock: Seq<bool>,
    ) -> bool {
        &&& self.same_shape(before)
        &&& self.grid_wf()
        &&& self.players == before.players
        &&& self.player_loaded == before.player_loaded
        &&& self.physics_update_queue == before.physics_update_queue
        &&& self.spawn_point == before.spawn_point
        &&& self.spawn_range == before.spawn_range
        &&& self.to_update@ == before.to_update@ + column_water(x, height, top)
        &&& forall|a: int, b: int|
            before.in_bounds(a, b) ==> #[trigger] self.block_at(a, b) == (if a == x && b <= top {
                fill_block(height, rock, b)
            } else {
                before.block_at(a, b)
            })
    }

    /// Whether this world is `before` with the surface of column `x`
    /// dressed as [`dress_block`] says, and nothing else changed.
    pub open spec fn is_dressing_of(
        &self,
        before: World,
        x: u32,
        surface: Option<u32>,
        water: u32,
    ) -> bool {
        match dress_block(surface, water) {
            Some(block) => self.is_write_of(before, x as int, surface->0 as int, block)
                && self.same_state(before),
            None => *self == before,
        }
    }

    /// Plants a tree with its trunk's foot in `(trunk_x, trunk_y)`, if the
    /// whole tree lies inside the world; a tree that does not is not planted
    /// at all.
    pub fn generate_tree_at(&mut self, trunk_x: u32, trunk_y: u32) -> (r: Result<(), WorldError>)
        requires
            old(self).grid_wf(),
        ensures
            final(self).grid_wf(),
            old(self).tree_fits(trunk_x as int, trunk_y as int) ==> r == Ok::<(), WorldError>(())
                && final(self).is_planting_of(*old(self), trunk_x as int, trunk_y as int),
            !old(self).tree_fits(trunk_x as int, trunk_y as int) ==> r == Err::<(), WorldError>(
                WorldError::OutOfBoundsBlock(trunk_x, trunk_y),
            ) && *final(self) == *old(self),
            old(self).wf() ==> final(self).wf(),
    {
        if trunk_x < 2 || trunk_x >= self.width || self.width - trunk_x <= 2 || trunk_y
            >= self.height || self.height - trunk_y <= 5 {
            return Err(WorldError::OutOfBoundsBlock(trunk_x, trunk_y));
        }
        let space: Vec<TreeCell> = TreeTypes::get_required_blocks(
            TreeTypes::Basic,
            trunk_x,
            trunk_y,
        );
        let ghost cells = tree_cells(trunk_x as int, trunk_y as int);
        let mut i: usize = 0;
        while i < 12
            invariant
                0 <= i <= 12,
                space@.len() == 12,
                old(self).tree_fits(trunk_x as int, trunk_y as int),
                old(self).grid_wf(),
                cells == tree_cells(trunk_x as int, trunk_y as int),
                forall|k: int|
                    0 <= k < 12 ==> ((#[trigger] space@[k]).0 as int, space@[k].1 as int, space@[k].2)
                        == cells[k],
                self.same_shape(*old(self)),
                self.grid_wf(),
                self.same_state(*old(self)),
                old(self).wf() ==> self.wf(),
                forall|a: int, b: int|
                    old(self).in_bounds(a, b) ==> #[trigger] self.block_at(a, b) == (if exists|
                        k: int,
                    |
                        0 <= k < i && cells[k].0 == a && cells[k].1 == b {
                        tree_block(a - trunk_x, b - trunk_y)->0
                    } else {
                        old(self).block_at(a, b)
                    }),
            decreases 12 - i,
        {
            let (x, y, block): (i64, i64, Block) = space[i];
            assert((x as int, y as int, block) == cells[i as int]);
            let ghost prev = *self;
            let _ = self.raw_set_block(x as u32, y as u32, block);
            proof {
                assert forall|a: int, b: int| old(self).in_bounds(a, b) implies #[trigger] self.block_at(
                    a,
                    b,
                ) == (if exists|k: int| 0 <= k < i + 1 && cells[k].0 == a && cells[k].1 == b {
                    tree_block(a - trunk_x, b - trunk_y)->0
                } else {
                    old(self).block_at(a, b)
                }) by {
                    if a == x && b == y {
                        assert(cells[i as int].0 == a && cells[i as int].1 == b);
                    } else {
                        assert(self.block_at(a, b) == prev.block_at(a, b));
                        if exists|k: int| 0 <= k < i + 1 && cells[k].0 == a && cells[k].1 == b {
                            let k = choose|k: int|
                                0 <= k < i + 1 && cells[k].0 == a && cells[k].1 == b;
                            assert(k < i);
                        }
                    }
                }
            }
            i = i + 1;
        }
        proof {
            assert forall|a: int, b: int| old(self).in_bounds(a, b) implies #[trigger] self.block_at(
                a,
                b,
            ) == (match tree_block(a - trunk_x, b - trunk_y) {
                Some(block) => block,
                None => old(self).block_at(a, b),
            }) by {
                if exists|k: int| 0 <= k < 12 && cells[k].0 == a && cells[k].1 == b {
                    let k = choose|k: int| 0 <= k < 12 && cells[k].0 == a && cells[k].1 == b;
                    assert(tree_block(a - trunk_x, b - trunk_y) is Some);
                } else {
                    if tree_block(a - trunk_x, b - trunk_y) is Some {
                        let dx = a - trunk_x;
                        let dy = b - trunk_y;
                        let k: int = if dy == 5 {
                            0
                        } else if dy == 4 {
                            dx + 2
                        } else if dy == 3 {
                            dx + 6
                        } else if dy == 2 {
                            9
                        } else if dy == 1 {
                            10
                        } else {
                            11
                        };
                        assert(cells[k].0 == a && cells[k].1 == b);
                    }
                }
            }
        }
        Ok(())
    }

    /// Fills column `x` of a terrain whose surface is at `height` there:
    /// rock or cave up to the surface, water above it up to the water level.
    /// Gives the surface of the column: its topmost rock, if it has any.
    pub fn fill_column(&mut self, x: u32, height: u32, water: u32, rock: &Vec<bool>) -> (r: Result<
        Option<u32>,
        WorldError,
    >)
        requires
            old(self).grid_wf(),
            x < old(self).width,
            higher(height, water) < old(self).height ==> rock@.len() > higher(height, water),
        ensures
            final(self).grid_wf(),
            higher(height, water) < old(self).height ==> r == Ok::<Option<u32>, WorldError>(
                surface_rock(rock@, height),
            ) && final(self).is_filling_of(*old(self), x, height, higher(height, water), rock@),
            higher(height, water) >= old(self).height ==> r == Err::<Option<u32>, WorldError>(
                WorldError::OutOfBoundsBlock(x, old(self).height),
            ) && *final(self) == *old(self),
            old(self).wf() ==> final(self).wf(),
    {
        let top: u32 = if height >= water {
            height
        } else {
            water
        };
        if top >= self.height {
            return Err(WorldError::OutOfBoundsBlock(x, self.height));
        }
        let mut surface: Option<u32> = None;
        let mut y: u32 = 0;
        while y <= top
            invariant
                0 <= y <= top + 1,
                top == higher(height, water),
                top < old(self).height,
                x < old(self).width,
                rock@.len() > top,
                old(self).grid_wf(),
                self.same_shape(*old(self)),
                self.grid_wf(),
                old(self).wf() ==> self.wf(),
                self.players == old(self).players,
                self.player_loaded == old(self).player_loaded,
                self.physics_update_queue == old(self).physics_update_queue,
                self.spawn_point == old(self).spawn_point,
                self.spawn_range == old(self).spawn_range,
                surface == top_rock(
                    rock@,
                    if y <= height {
                        y as int
                    } else {
                        height + 1
                    },
                ),
                self.to_update@ == old(self).to_update@ + column_water(
                    x,
                    height,
                    if y == 0 {
                        0u32
                    } else {
                        (y - 1) as u32
                    },
                ),
                forall|a: int, b: int|
                    old(self).in_bounds(a, b) ==> #[trigger] self.block_at(a, b) == (if a == x && b
                        < y {
                        fill_block(height, rock@, b)
                    } else {
                        old(self).block_at(a, b)
                    }),
            decreases top + 1 - y,
        {
            let ghost prev = *self;
            if rock[y as usize] {
                if y <= height {
                    surface = Some(y);
                }
                let _ = self.raw_set_block(x, y, Block::Stone);
            } else {
                let _ = self.raw_set_block(x, y, Block::Air);
            }
            let ghost mid = *self;
            if y > height {
                let _ = self.set_block(x, y, Block::Water);
                assert(self.to_update@ =~= old(self).to_update@ + column_water(x, height, y));
            } else {
                assert(self.to_update@ =~= old(self).to_update@ + column_water(x, height, y));
            }
            proof {
                assert forall|a: int, b: int| old(self).in_bounds(a, b) implies #[trigger] self.block_at(
                    a,
                    b,
                ) == (if a == x && b < y + 1 {
                    fill_block(height, rock@, b)
                } else {
                    old(self).block_at(a, b)
                }) by {
                    assert(mid.block_at(a, b) == (if a == x && b == y {
                        if rock@[y as int] {
                            Block::Stone
                        } else {
                            Block::Air
                        }
                    } else {
                        prev.block_at(a, b)
                    }));
                    if y > height {
                        assert(self.block_at(a, b) == (if a == x && b == y {
                            Block::Water
                        } else {
                            mid.block_at(a, b)
                        }));
                    }
                }
            }
            y = y + 1;
        }
        assert(self.to_update@ =~= old(self).to_update@ + column_water(x, height, top));
        Ok(surface)
    }

    /// Dresses the surface of a filled column: grass on its topmost rock,
    /// if that rises above the water.
    pub fn dress_column(&mut self, x: u32, surface: Option<u32>, water: u32)
        requires
            old(self).grid_wf(),
            surface matches Some(top_y) ==> old(self).in_bounds(x as int, top_y as int),
        ensures
            final(self).grid_wf(),
            final(self).same_shape(*old(self)),
            final(self).is_dressing_of(*old(self), x, surface, water),
            old(self).wf() ==> final(self).wf(),
    {
        match surface {
            Some(top_y) => {
                if top_y > water {
                    let _ = self.raw_set_block(x, top_y, Block::Grass);
                }
            },
            None => {},
        }
    }
}


impl World {
    /// Number of cells into which water can flow, among the first `n` cells
    /// counted row by row.
    pub open spec fn dry_cells(&self, n: int) -> int
        decreases n,
    {
        if n <= 0 {
            0
        } else {
            self.dry_cells(n - 1) + (if self.floodable(
                (n - 1) % (self.width as int),
                (n - 1) / (self.width as int),
            ) {
                1int
            } else {
                0int
            })
        }
    }

    /// Whether every water cell either waits in the queue or has spread
    /// already: water cannot flow from it below, left or right.
    pub open spec fn flow_pending(&self) -> bool {
        forall|a: int, b: int|
            self.in_bounds(a, b) && #[trigger] self.block_at(a, b) == Block::Water
                ==> self.to_update@.contains((a as u32, b as u32)) || (!self.floodable(a, b - 1)
                && !self.floodable(a - 1, b) && !self.floodable(a + 1, b))
    }

    /// Whether the water has settled: from no water cell can water flow
    /// below, left or right.
    pub open spec fn is_settled(&self) -> bool {
        forall|a: int, b: int|
            self.in_bounds(a, b) && #[trigger] self.block_at(a, b) == Block::Water
                ==> !self.floodable(a, b - 1) && !self.floodable(a - 1, b) && !self.floodable(
                a + 1,
                b,
            )
    }

    /// Whether every water cell is queued.
    pub open spec fn water_is_queued(&self) -> bool {
        forall|a: int, b: int|
            self.in_bounds(a, b) && #[trigger] self.block_at(a, b) == Block::Water
                ==> self.to_update@.contains((a as u32, b as u32))
    }

    /// Adding a cell to the cells to flood keeps the ones listed, and lists
    /// the cell if water can flow into it.
    pub proof fn lemma_add_flow_grows(&self, acc: Seq<(u32, u32)>, x: int, y: int)
        ensures
            forall|c: (u32, u32)| acc.contains(c) ==> self.add_flow(acc, x, y).contains(c),
            self.floodable(x, y) ==> self.add_flow(acc, x, y).contains((x as u32, y as u32)),
    {
        crate::movement::lemma_push_contains(acc, (x as u32, y as u32));
    }

    /// The cells that a tick floods include every cell below, left or right
    /// of a queued water cell into which water can flow.
    pub proof fn lemma_flow_complete(&self, queue: Seq<(u32, u32)>, i: int)
        requires
            0 <= i < queue.len(),
            self.in_bounds(queue[i].0 as int, queue[i].1 as int),
            self.block_at(queue[i].0 as int, queue[i].1 as int) == Block::Water,
        ensures
            self.floodable(queue[i].0 as int, queue[i].1 - 1) ==> self.flow_targets(
                queue,
            ).contains((queue[i].0, (queue[i].1 - 1) as u32)),
            self.floodable(queue[i].0 - 1, queue[i].1 as int) ==> self.flow_targets(
                queue,
            ).contains(((queue[i].0 - 1) as u32, queue[i].1)),
            self.floodable(queue[i].0 + 1, queue[i].1 as int) ==> self.flow_targets(
                queue,
            ).contains(((queue[i].0 + 1) as u32, queue[i].1)),
        decreases queue.len(),
    {
        let head = queue.drop_last();
        let q = queue.last();
        let acc0 = self.flow_targets(head);
        if self.in_bounds(q.0 as int, q.1 as int) && self.block_at(q.0 as int, q.1 as int)
            == Block::Water {
            let acc1 = self.add_flow(acc0, q.0 as int, q.1 - 1);
            let acc2 = self.add_flow(acc1, q.0 - 1, q.1 as int);
            self.lemma_add_flow_grows(acc0, q.0 as int, q.1 - 1);
            self.lemma_add_flow_grows(acc1, q.0 - 1, q.1 as int);
            self.lemma_add_flow_grows(acc2, q.0 + 1, q.1 as int);
        }
        if i < queue.len() - 1 {
            assert(head[i] == queue[i]);
            self.lemma_flow_complete(head, i);
        }
    }

    /// A tick keeps the promise that every water cell waits in the queue or
    /// has spread already.
    pub proof fn lemma_tick_keeps_pending(&self, before: World)
        requires
            before.wf(),
            before.flow_pending(),
            self.is_flood_of(before, before.flow_targets(before.to_update@)),
            self.to_update@ == before.flow_targets(before.to_update@),
        ensures
            self.flow_pending(),
    {
        let targets = before.flow_targets(before.to_update@);
        before.lemma_flow_targets(before.to_update@);
        assert forall|a: int, b: int|
            self.in_bounds(a, b) && #[trigger] self.block_at(a, b)
                == Block::Water implies self.to_update@.contains((a as u32, b as u32)) || (
        !self.floodable(a, b - 1) && !self.floodable(a - 1, b) && !self.floodable(a + 1, b)) by {
            if !targets.contains((a as u32, b as u32)) {
                assert(before.block_at(a, b) == Block::Water);
                if before.to_update@.contains((a as u32, b as u32)) {
                    let i = choose|i: int|
                        0 <= i < before.to_update@.len() && before.to_update@[i] == (
                            a as u32,
                            b as u32,
                        );
                    before.lemma_flow_complete(before.to_update@, i);
                }
                self.lemma_flood_keeps_wet(before, targets, a, b - 1);
                self.lemma_flood_keeps_wet(before, targets, a - 1, b);
                self.lemma_flood_keeps_wet(before, targets, a + 1, b);
            }
        }
    }

    /// After a flood, water can flow into a cell only if it could before and
    /// the cell was not flooded.
    pub proof fn lemma_flood_keeps_wet(&self, before: World, targets: Seq<(u32, u32)>, a: int, b: int)
        requires
            self.is_flood_of(before, targets),
        ensures
            self.floodable(a, b) ==> before.floodable(a, b) && !targets.contains(
                (a as u32, b as u32),
            ),
    {
        if self.in_bounds(a, b) {
            assert(self.block_at(a, b) == (if targets.contains((a as u32, b as u32)) {
                Block::Water
            } else {
                before.block_at(a, b)
            }));
        }
    }

    /// A flood does not add cells into which water can flow, and takes one
    /// away for each flooded cell that held air.
    pub proof fn lemma_flood_dries(&self, before: World, targets: Seq<(u32, u32)>, n: int)
        requires
            before.grid_wf(),
            self.is_flood_of(before, targets),
            0 <= n <= before.width * before.height,
        ensures
            0 <= self.dry_cells(n) <= before.dry_cells(n),
            targets.len() > 0 && before.floodable(targets[0].0 as int, targets[0].1 as int)
                && flat_index(targets[0].0 as int, targets[0].1 as int, before.width as int) < n
                ==> self.dry_cells(n) < before.dry_cells(n),
        decreases n,
    {
        if n > 0 {
            self.lemma_flood_dries(before, targets, n - 1);
            let w = before.width as int;
            let a = (n - 1) % w;
            let b = (n - 1) / w;
            lemma_flat_index_split(n - 1, w);
            self.lemma_flood_keeps_wet(before, targets, a, b);
            if targets.len() > 0 && before.floodable(targets[0].0 as int, targets[0].1 as int)
                && flat_index(targets[0].0 as int, targets[0].1 as int, w) == n - 1 {
                lemma_flat_index_parts(targets[0].0 as int, targets[0].1 as int, w);
                assert(targets.contains(targets[0]));
            }
        }
    }

    /// Whether two worlds hold the same water: the same sizes, the same
    /// block in every cell, and the same queue.
    pub open spec fn same_water(&self, other: World) -> bool {
        self.same_blocks(other) && self.to_update@ == other.to_update@
    }

    /// Whether this world is `before` one tick of the water automaton
    /// later, as far as blocks and queue go.
    pub open spec fn is_tick_of(&self, before: World) -> bool {
        self.is_flood_of(before, before.flow_targets(before.to_update@)) && self.to_update@
            == before.flow_targets(before.to_update@)
    }

    /// Whether this world is `before` after the water has settled in `n`
    /// ticks: the queue ran empty after exactly so many.
    pub open spec fn is_settling_of(&self, before: World, n: nat) -> bool
        decreases n,
    {
        if n == 0 {
            before.same_water(*self) && before.to_update@.len() == 0
        } else {
            before.to_update@.len() > 0 && exists|mid: World|
                #[trigger] mid.is_tick_of(before) && self.is_settling_of(mid, (n - 1) as nat)
        }
    }

    /// What a tick floods depends on nothing but the sizes, the blocks and
    /// the queue.
    pub proof fn lemma_same_targets(&self, other: World, queue: Seq<(u32, u32)>)
        requires
            self.same_blocks(other),
        ensures
            self.flow_targets(queue) == other.flow_targets(queue),
        decreases queue.len(),
    {
        if queue.len() > 0 {
            self.lemma_same_targets(other, queue.drop_last());
            let q = queue.last();
            let acc0 = self.flow_targets(queue.drop_last());
            if self.in_bounds(q.0 as int, q.1 as int) {
                assert(self.block_at(q.0 as int, q.1 as int) == other.block_at(
                    q.0 as int,
                    q.1 as int,
                ));
            }
            self.lemma_same_flow(other, acc0, q.0 as int, q.1 - 1);
            let acc1 = self.add_flow(acc0, q.0 as int, q.1 - 1);
            self.lemma_same_flow(other, acc1, q.0 - 1, q.1 as int);
            let acc2 = self.add_flow(acc1, q.0 - 1, q.1 as int);
            self.lemma_same_flow(other, acc2, q.0 + 1, q.1 as int);
        }
    }

    /// Whether a cell is added to the cells to flood depends on nothing but
    /// the sizes and the blocks.
    proof fn lemma_same_flow(&self, other: World, acc: Seq<(u32, u32)>, x: int, y: int)
        requires
            self.same_blocks(other),
        ensures
            self.add_flow(acc, x, y) == other.add_flow(acc, x, y),
    {
        if self.in_bounds(x, y) {
            assert(self.block_at(x, y) == other.block_at(x, y));
        }
    }

    /// One tick takes worlds that hold the same water to worlds that hold
    /// the same water.
    pub proof fn lemma_tick_is_determined(&self, before: World, other: World, other_before: World)
        requires
            before.same_water(other_before),
            self.is_tick_of(before),
            other.is_tick_of(other_before),
        ensures
            self.same_water(other),
    {
        before.lemma_same_targets(other_before, before.to_update@);
        let targets = before.flow_targets(before.to_update@);
        assert forall|x: int, y: int| self.in_bounds(x, y) implies #[trigger] self.block_at(x, y)
            == other.block_at(x, y) by {
            assert(before.block_at(x, y) == other_before.block_at(x, y));
            assert(other.block_at(x, y) == (if targets.contains((x as u32, y as u32)) {
                Block::Water
            } else {
                other_before.block_at(x, y)
            }));
        }
    }

    /// Settling has one outcome: worlds that hold the same water settle in
    /// the same number of ticks into worlds that hold the same water.
    pub proof fn lemma_settling_is_determined(
        &self,
        before: World,
        n: nat,
        other: World,
        other_before: World,
        m: nat,
    )
        requires
            before.same_water(other_before),
            self.is_settling_of(before, n),
            other.is_settling_of(other_before, m),
        ensures
            n == m,
            self.same_water(other),
        decreases n,
    {
        if n == 0 {
            assert(m == 0);
            assert forall|x: int, y: int| self.in_bounds(x, y) implies #[trigger] self.block_at(
                x,
                y,
            ) == other.block_at(x, y) by {
                assert(before.block_at(x, y) == self.block_at(x, y));
                assert(before.block_at(x, y) == other_before.block_at(x, y));
                assert(other_before.block_at(x, y) == other.block_at(x, y));
            }
        } else {
            assert(m > 0);
            let mid = choose|mid: World|
                #[trigger] mid.is_tick_of(before) && self.is_settling_of(mid, (n - 1) as nat);
            let other_mid = choose|mid: World|
                #[trigger] mid.is_tick_of(other_before) && other.is_settling_of(
                    mid,
                    (m - 1) as nat,
                );
            mid.lemma_tick_is_determined(before, other_mid, other_before);
            self.lemma_settling_is_determined(mid, (n - 1) as nat, other, other_mid, (m - 1) as nat);
        }
    }

    /// A row of worlds, each one tick after the one before it and the last
    /// the first with an empty queue, ends in the first world settled.
    pub proof fn lemma_ticks_settle(history: Seq<World>, from: int)
        requires
            0 <= from < history.len(),
            forall|i: int|
                0 <= i < history.len() - 1 ==> (#[trigger] history[i + 1]).is_tick_of(history[i])
                    && history[i].to_update@.len() > 0,
            history.last().to_update@.len() == 0,
            history.last().grid_wf(),
        ensures
            history.last().is_settling_of(history[from], (history.len() - 1 - from) as nat),
        decreases history.len() - from,
    {
        if from < history.len() - 1 {
            World::lemma_ticks_settle(history, from + 1);
            assert(history[from + 1].is_tick_of(history[from]));
        }
    }

    /// Lets the water settle: runs the water automaton, of which no player
    /// is told, until the queue is empty. Only air turns into water. If every
    /// water cell was queued or had spread already, the water has settled
    /// afterwards.
    pub fn settle(&mut self)
        requires
            old(self).wf(),
        ensures
            final(self).wf(),
            final(self).to_update@.len() == 0,
            final(self).same_shape(*old(self)),
            final(self).players == old(self).players,
            final(self).player_loaded == old(self).player_loaded,
            final(self).physics_update_queue == old(self).physics_update_queue,
            final(self).spawn_point == old(self).spawn_point,
            final(self).spawn_range == old(self).spawn_range,
            forall|x: int, y: int|
                old(self).in_bounds(x, y) ==> #[trigger] final(self).block_at(x, y) == old(self).block_at(x, y) || (old(self).block_at(x, y) == Block::Air && final(self).block_at(x, y) == Block::Water),
            old(self).flow_pending() ==> final(self).is_settled(),
            exists|n: nat| #[trigger] final(self).is_settling_of(*old(self), n),
    {
        let ghost mut history: Seq<World> = seq![*self];
        while self.to_update.len() > 0
            invariant
                self.wf(),
                history.len() >= 1,
                history[0] == *old(self),
                history.last() == *self,
                forall|i: int|
                    0 <= i < history.len() - 1 ==> (#[trigger] history[i + 1]).is_tick_of(
                        history[i],
                    ) && history[i].to_update@.len() > 0,
                self.same_shape(*old(self)),
                self.players == old(self).players,
                self.player_loaded == old(self).player_loaded,
                self.physics_update_queue == old(self).physics_update_queue,
                self.spawn_point == old(self).spawn_point,
                self.spawn_range == old(self).spawn_range,
                forall|x: int, y: int|
                    old(self).in_bounds(x, y) ==> #[trigger] self.block_at(x, y) == old(self).block_at(x, y) || (old(self).block_at(x, y) == Block::Air && self.block_at(
                        x,
                        y,
                    ) == Block::Water),
                old(self).flow_pending() ==> self.flow_pending(),
            decreases self.dry_cells(self.width * self.height), self.to_update@.len(),
        {
            let ghost before = *self;
            let _ = self.init_flow_water();
            proof {
                let longer = history.push(*self);
                assert forall|i: int| 0 <= i < longer.len() - 1 implies (
                #[trigger] longer[i + 1]).is_tick_of(longer[i]) && longer[i].to_update@.len()
                    > 0 by {
                    if i < history.len() - 1 {
                        assert(history[i + 1].is_tick_of(history[i]));
                    }
                }
                history = longer;
                let targets = before.flow_targets(before.to_update@);
                before.lemma_flow_targets(before.to_update@);
                self.lemma_flood_dries(before, targets, before.width * before.height);
                if targets.len() > 0 {
                    lemma_flat_index_bound(
                        targets[0].0 as int,
                        targets[0].1 as int,
                        before.width as int,
                        before.height as int,
                    );
                    lemma_non_solid_blocks(Block::Air);
                    assert(before.floodable(targets[0].0 as int, targets[0].1 as int));
                    assert(self.dry_cells(self.width * self.height) < before.dry_cells(
                        before.width * before.height,
                    ));
                } else {
                    assert(self.to_update@.len() == 0);
                }
                if before.flow_pending() {
                    self.lemma_tick_keeps_pending(before);
                }
                assert forall|x: int, y: int| old(self).in_bounds(x, y) implies #[trigger] self.block_at(
                    x,
                    y,
                ) == old(self).block_at(x, y) || (old(self).block_at(x, y) == Block::Air
                    && self.block_at(x, y) == Block::Water) by {
                    assert(before.block_at(x, y) == old(self).block_at(x, y) || (old(self).block_at(x, y) == Block::Air && before.block_at(x, y) == Block::Water));
                    if targets.contains((x as u32, y as u32)) {
                        let i = choose|i: int|
                            0 <= i < targets.len() && targets[i] == (x as u32, y as u32);
                        assert(before.block_at(targets[i].0 as int, targets[i].1 as int)
                            == Block::Air);
                    }
                }
            }
        }
        proof {
            World::lemma_ticks_settle(history, 0);
            if old(self).flow_pending() {
                assert forall|a: int, b: int|
                    self.in_bounds(a, b) && #[trigger] self.block_at(a, b)
                        == Block::Water implies !self.floodable(a, b - 1) && !self.floodable(
                    a - 1,
                    b,
                ) && !self.floodable(a + 1, b) by {
                    assert(!self.to_update@.contains((a as u32, b as u32)));
                }
            }
        }
    }
}


/// The sampled field from which a terrain is painted.
#[derive(Clone, Debug)]
pub struct TerrainField {
    /// For each column, the height of the surface.
    pub heights: Vec<u32>,
    /// For each column and each row from the bottom, whether the rock is
    /// solid there; where it is not, there is a cave.
    pub rock: Vec<Vec<bool>>,
    /// The columns picked for trees, in any order.
    pub trees: Vec<u32>,
}

/// What kind of world to make.
#[derive(Clone, Debug)]
pub enum WorldType {
    /// A world of air.
    Empty,
    /// A flat world: grass in the row `grass_height`, rock below it.
    Flat { grass_height: u32 },
    /// A terrain between `base_height` and `upper_height`, flooded up to
    /// `water_height`, painted from `field`.
    Terrain { base_height: u32, upper_height: u32, water_height: u32, field: TerrainField },
}

/// The settings of a terrain.
#[derive(Clone, Debug)]
pub struct TerrainSettings {
    pub base_height: u32,
    pub upper_height: u32,
    pub water_height: u32,
    pub field: TerrainField,
}

/// The seeds from which the field of a terrain is sampled.
#[derive(Clone, Debug)]
pub struct TerrainSeeds {
    /// The seed of the whole terrain.
    pub master: u64,
    /// One seed for each pass of surface noise.
    pub octaves: Vec<u32>,
    /// The seed of the cave noise.
    pub caves: u32,
    /// The seed of the placing of trees.
    pub trees: u64,
}

impl TerrainSeeds {
    /// Draws the seeds of a terrain from a generator seeded with `seed`, or
    /// with a seed drawn at random if none is given.
    pub fn draw(seed: Option<u64>, noise_passes: usize) -> (seeds: TerrainSeeds)
        ensures
            seeds.octaves@.len() == noise_passes,
            seed matches Some(master) ==> seeds.master == master,
    {
        let master: u64 = match seed {
            Some(m) => m,
            None => random_u64(),
        };
        let mut generator = seeded_generator(master);
        let mut octaves: Vec<u32> = Vec::new();
        let mut pass: usize = 0;
        while pass < noise_passes
            invariant
                0 <= pass <= noise_passes,
                octaves@.len() == pass,
            decreases noise_passes - pass,
        {
            octaves.push(draw_u32(&mut generator));
            pass = pass + 1;
        }
        let caves: u32 = draw_u32(&mut generator);
        let trees: u64 = draw_u64(&mut generator);
        TerrainSeeds { master, octaves, caves, trees }
    }
}

impl TerrainField {
    /// Whether the field covers a world `width` wide and `height` high: it
    /// has a height for every column and, for every column whose filling stays
    /// inside the world when the water stands at `water`, the rock rows up to
    /// the top of what is filled.
    pub open spec fn covers(&self, width: u32, height: u32, water: u32) -> bool {
        &&& self.heights@.len() == width
        &&& self.rock@.len() == width
        &&& forall|x: int|
            0 <= x < width && higher(self.heights@[x], water) < height ==> (
            #[trigger] self.rock@[x])@.len() > higher(self.heights@[x], water)
    }

    /// The highest row that is filled in column `x`.
    pub open spec fn top(&self, x: int, water: u32) -> u32 {
        higher(self.heights@[x], water)
    }

    /// The surface of column `x`: its topmost rock, if it has any.
    pub open spec fn surface(&self, x: int) -> Option<u32> {
        surface_rock(self.rock@[x]@, self.heights@[x])
    }

    /// What dressing does to the surface of column `x`.
    pub open spec fn dressing(&self, x: int, water: u32) -> Option<Block> {
        dress_block(self.surface(x), water)
    }

    /// Whether a tree grows in column `x`: the column is picked for one, its
    /// surface rises above the water, and the tree lies inside a world `w`
    /// wide and `h` high.
    pub open spec fn grows_tree(&self, x: int, water: u32, w: int, h: int) -> bool {
        self.trees@.contains(x as u32) && (self.surface(x) matches Some(t) && t > water && 2 <= x
            && x + 2 < w && t + 6 < h)
    }

    /// The block in the cell `(x, y)` of a world `w` wide and `h` high once
    /// the first `n` columns are painted: column by column, the column is
    /// filled, its surface is dressed, and its tree, if one grows there, is
    /// planted on the surface over whatever is in its way.
    pub open spec fn painted(&self, water: u32, w: int, h: int, n: int, x: int, y: int) -> Block
        decreases n,
    {
        if n <= 0 {
            Block::Air
        } else {
            let k = n - 1;
            let tree = if self.grows_tree(k, water, w, h) {
                tree_block(x - k, y - (self.surface(k)->0 + 1))
            } else {
                None
            };
            if tree is Some {
                tree->0
            } else if x == k && (self.surface(k) matches Some(t) && y == t) && self.dressing(
                k,
                water,
            ) is Some {
                self.dressing(k, water)->0
            } else if x == k && y <= self.top(k, water) {
                fill_block(self.heights@[k], self.rock@[k]@, y)
            } else {
                self.painted(water, w, h, k, x, y)
            }
        }
    }

    /// The queue of the water automaton once the first `n` columns are
    /// painted: the cells that filling turned into water, column by column.
    pub open spec fn painted_queue(&self, water: u32, n: int) -> Seq<(u32, u32)>
        decreases n,
    {
        if n <= 0 {
            Seq::empty()
        } else {
            let k = n - 1;
            self.painted_queue(water, k) + column_water(
                k as u32,
                self.heights@[k],
                self.top(k, water),
            )
        }
    }

    /// The first column whose filling goes beyond a world `h` high, among
    /// the first `n` columns, if there is one.
    pub open spec fn first_overflow(&self, water: u32, h: int, n: int) -> Option<int>
        decreases n,
    {
        if n <= 0 {
            None
        } else if self.first_overflow(water, h, n - 1) is Some {
            self.first_overflow(water, h, n - 1)
        } else if self.top(n - 1, water) >= h {
            Some(n - 1)
        } else {
            None
        }
    }
}

/// The highest row of rock below row `n` is a row of rock below `n`.
pub proof fn lemma_top_rock(rock: Seq<bool>, n: int)
    requires
        0 <= n <= 0x1_0000_0000,
    ensures
        top_rock(rock, n) matches Some(t) ==> t < n && rock[t as int],
    decreases n,
{
    if n > 0 {
        lemma_top_rock(rock, n - 1);
    }
}

impl World {
    /// Whether this world is `before` made flat: rock in the rows below
    /// `grass_level`, grass in that row, and everything else as it was.
    pub open spec fn is_flat_of(&self, before: World, grass_level: u32) -> bool {
        &&& self.same_shape(before)
        &&& self.grid_wf()
        &&& self.same_state(before)
        &&& forall|a: int, b: int|
            before.in_bounds(a, b) ==> #[trigger] self.block_at(a, b) == (if b < grass_level {
                Block::Stone
            } else if b == grass_level {
                Block::Grass
            } else {
                before.block_at(a, b)
            })
    }

    /// Whether this world is what painting from `field` gives before the
    /// water settles: every cell holds what [`TerrainField::painted`] says,
    /// and the queue is [`TerrainField::painted_queue`].
    pub open spec fn is_painting_of(&self, field: TerrainField, water: u32) -> bool {
        &&& self.grid_wf()
        &&& self.to_update@ == field.painted_queue(water, self.width as int)
        &&& forall|a: int, b: int|
            self.in_bounds(a, b) ==> #[trigger] self.block_at(a, b) == field.painted(
                water,
                self.width as int,
                self.height as int,
                self.width as int,
                a,
                b,
            )
    }

    /// Whether this world is a terrain painted from `field` and settled:
    /// no player is in it, nothing is queued, and its blocks are those of the
    /// painting after the water has settled.
    pub open spec fn is_terrain_of(&self, field: TerrainField, water: u32) -> bool {
        &&& self.wf()
        &&& self.players@.len() == 0
        &&& self.physics_update_queue@ == Map::<u32, PositionUpdate>::empty()
        &&& self.to_update@.len() == 0
        &&& self.is_settled()
        &&& exists|painting: World, n: nat|
            painting.same_shape(*self) && painting.is_painting_of(field, water)
                && #[trigger] self.is_settling_of(painting, n)
    }

    /// A field and a water level make one terrain: two terrains of the
    /// same sizes painted from the same field hold the same block in every
    /// cell.
    pub proof fn lemma_terrain_is_determined(&self, other: World, field: TerrainField, water: u32)
        requires
            self.is_terrain_of(field, water),
            other.is_terrain_of(field, water),
            self.same_shape(other),
        ensures
            self.same_blocks(other),
    {
        let (p, n) = choose|painting: World, n: nat|
            painting.same_shape(*self) && painting.is_painting_of(field, water)
                && #[trigger] self.is_settling_of(painting, n);
        let (q, m) = choose|painting: World, n: nat|
            painting.same_shape(other) && painting.is_painting_of(field, water)
                && #[trigger] other.is_settling_of(painting, n);
        assert(p.same_water(q)) by {
            assert forall|a: int, b: int| p.in_bounds(a, b) implies #[trigger] p.block_at(a, b)
                == q.block_at(a, b) by {
                assert(q.block_at(a, b) == field.painted(
                    water,
                    q.width as int,
                    q.height as int,
                    q.width as int,
                    a,
                    b,
                ));
            }
        }
        self.lemma_settling_is_determined(p, n, other, q, m);
    }

    /// Makes a world flat: rock in the rows below `grass_level`, grass in
    /// that row.
    pub fn generate_flat(world: World, grass_level: u32) -> (r: Result<World, WorldError>)
        requires
            world.grid_wf(),
        ensures
            grass_level < world.height ==> (r matches Ok(w) && w.is_flat_of(world, grass_level) && (
            world.wf() ==> w.wf())),
            grass_level >= world.height ==> (r matches Err(e) && e
                == WorldError::OutOfBoundsBlock(0, world.height)),
    {
        let mut world = world;
        let ghost start = world;
        if grass_level >= world.height {
            return Err(WorldError::OutOfBoundsBlock(0, world.height));
        }
        let mut y: u32 = 0;
        while y <= grass_level
            invariant
                0 <= y <= grass_level + 1,
                grass_level < start.height,
                start.grid_wf(),
                world.same_shape(start),
                world.grid_wf(),
                world.same_state(start),
                start.wf() ==> world.wf(),
                forall|a: int, b: int|
                    start.in_bounds(a, b) ==> #[trigger] world.block_at(a, b) == (if b < y {
                        if b < grass_level {
                            Block::Stone
                        } else {
                            Block::Grass
                        }
                    } else {
                        start.block_at(a, b)
                    }),
            decreases grass_level + 1 - y,
        {
            let layer: Block = if y < grass_level {
                Block::Stone
            } else {
                Block::Grass
            };
            let mut x: u32 = 0;
            while x < world.width
                invariant
                    0 <= x <= world.width,
                    y <= grass_level,
                    grass_level < start.height,
                    layer == (if y < grass_level {
                        Block::Stone
                    } else {
                        Block::Grass
                    }),
                    start.grid_wf(),
                    world.same_shape(start),
                    world.grid_wf(),
                    world.same_state(start),
                    start.wf() ==> world.wf(),
                    forall|a: int, b: int|
                        start.in_bounds(a, b) ==> #[trigger] world.block_at(a, b) == (if b < y || (b
                            == y && a < x) {
                            if b < grass_level {
                                Block::Stone
                            } else {
                                Block::Grass
                            }
                        } else {
                            start.block_at(a, b)
                        }),
                decreases world.width - x,
            {
                let ghost prev = world;
                let _ = world.raw_set_block(x, y, layer);
                proof {
                    assert forall|a: int, b: int| start.in_bounds(a, b) implies #[trigger] world.block_at(
                        a,
                        b,
                    ) == (if b < y || (b == y && a < x + 1) {
                        if b < grass_level {
                            Block::Stone
                        } else {
                            Block::Grass
                        }
                    } else {
                        start.block_at(a, b)
                    }) by {
                        assert(world.block_at(a, b) == (if a == x && b == y {
                            layer
                        } else {
                            prev.block_at(a, b)
                        }));
                    }
                }
                x = x + 1;
            }
            y = y + 1;
        }
        Ok(world)
    }

    /// Paints a terrain into a fresh world and lets the water settle.
    pub fn generate_terrain(base: World, terrain_settings: TerrainSettings) -> (r: Result<
        World,
        WorldError,
    >)
        requires
            base.wf(),
            base.players@.len() == 0,
            base.physics_update_queue@ == Map::<u32, PositionUpdate>::empty(),
            base.to_update@.len() == 0,
            forall|a: int, b: int| base.in_bounds(a, b) ==> base.block_at(a, b) == Block::Air,
            terrain_settings.field.covers(
                base.width,
                base.height,
                terrain_settings.water_height,
            ),
        ensures
            match World::terrain_error(base.width, base.height, terrain_settings) {
                Some(e) => r matches Err(f) && f == e,
                None => r matches Ok(w) && w.same_shape(base) && w.spawn_point
                    == base.spawn_point && w.spawn_range == base.spawn_range && w.player_loaded
                    == base.player_loaded && w.is_terrain_of(
                    terrain_settings.field,
                    terrain_settings.water_height,
                ),
            },
    {
        let mut world = base;
        let ghost start = world;
        let ghost settings = terrain_settings;
        if terrain_settings.upper_height > world.height {
            return Err(
                WorldError::InvalidGenerationRange(terrain_settings.upper_height, world.height),
            );
        }
        if terrain_settings.base_height >= terrain_settings.upper_height {
            return Err(WorldError::GenerationTooThin);
        }
        let water: u32 = terrain_settings.water_height;
        let ghost field = terrain_settings.field;
        let ghost w = start.width as int;
        let ghost h = start.height as int;
        let TerrainField { heights, rock: rock_rows, trees: picked } = terrain_settings.field;
        let trees: Vec<u32> = sorted_unique(picked);
        let mut next_tree: usize = 0;
        let mut x: u32 = 0;
        while x < world.width
            invariant
                0 <= x <= world.width,
                start.wf(),
                start == base,
                settings == terrain_settings,
                w == start.width,
                h == start.height,
                heights == field.heights,
                rock_rows == field.rock,
                field == settings.field,
                water == settings.water_height,
                settings.upper_height <= start.height,
                settings.base_height < settings.upper_height,
                field.covers(start.width, start.height, water),
                world.same_shape(start),
                world.wf(),
                world.players == start.players,
                world.player_loaded == start.player_loaded,
                world.physics_update_queue == start.physics_update_queue,
                world.spawn_point == start.spawn_point,
                world.spawn_range == start.spawn_range,
                world.water_is_queued(),
                world.to_update@ == field.painted_queue(water, x as int),
                field.first_overflow(water, h, x as int) is None,
                forall|a: int, b: int|
                    start.in_bounds(a, b) ==> #[trigger] world.block_at(a, b) == field.painted(
                        water,
                        w,
                        h,
                        x as int,
                        a,
                        b,
                    ),
                ascending(trees@),
                forall|v: u32| trees@.contains(v) <==> field.trees@.contains(v),
                0 <= next_tree <= trees@.len(),
                forall|j: int| 0 <= j < next_tree ==> trees@[j] < x,
                forall|j: int| next_tree <= j < trees@.len() ==> trees@[j] >= x,
            decreases world.width - x,
        {
            let height: u32 = heights[x as usize];
            let ghost rock = field.rock@[x as int]@;
            let ghost before = world;
            let surface: Option<u32> = match world.fill_column(
                x,
                height,
                water,
                &rock_rows[x as usize],
            ) {
                Err(e) => {
                    proof {
                        assert(field.first_overflow(water, h, x + 1) == Some(x as int));
                        lemma_first_overflow_stays(field, water, h, x + 1, w);
                    }
                    return Err(e);
                },
                Ok(s) => s,
            };
            let ghost filled = world;
            proof {
                lemma_top_rock(rock, height + 1);
                assert(surface == field.surface(x as int));
                assert(world.water_is_queued()) by {
                    assert forall|a: int, b: int|
                        world.in_bounds(a, b) && #[trigger] world.block_at(a, b)
                            == Block::Water implies world.to_update@.contains(
                        (a as u32, b as u32),
                    ) by {
                        let cw = column_water(x, height, field.top(x as int, water));
                        if a == x && b <= field.top(x as int, water) {
                            assert(b > height);
                            assert(cw[b - height - 1] == (a as u32, b as u32));
                            assert(world.to_update@[before.to_update@.len() + b - height - 1] == (
                                a as u32,
                                b as u32,
                            ));
                        } else {
                            assert(before.block_at(a, b) == Block::Water);
                            let i = choose|i: int|
                                0 <= i < before.to_update@.len() && before.to_update@[i] == (
                                    a as u32,
                                    b as u32,
                                );
                            assert(world.to_update@[i] == (a as u32, b as u32));
                        }
                    }
                }
            }
            world.dress_column(x, surface, water);
            let ghost dressed = world;
            proof {
                assert(world.water_is_queued()) by {
                    assert forall|a: int, b: int|
                        world.in_bounds(a, b) && #[trigger] world.block_at(a, b)
                            == Block::Water implies world.to_update@.contains(
                        (a as u32, b as u32),
                    ) by {
                        if field.dressing(x as int, water) is Some {
                            assert(!(a == x && b == surface->0));
                            assert(filled.block_at(a, b) == Block::Water);
                        }
                    }
                }
            }
            let mut planted: bool = false;
            if next_tree < trees.len() && trees[next_tree] == x {
                match surface {
                    Some(top_y) => {
                        if top_y > water {
                            planted = world.generate_tree_at(x, top_y + 1).is_ok();
                        }
                    },
                    None => {},
                }
                next_tree = next_tree + 1;
                assert(trees@.contains(x));
            } else {
                proof {
                    if trees@.contains(x) {
                        let j = choose|j: int| 0 <= j < trees@.len() && trees@[j] == x;
                        assert(j >= next_tree);
                        if j > next_tree {
                            assert(trees@[next_tree as int] < trees@[j]);
                        }
                    }
                }
            }
            proof {
                assert(planted == field.grows_tree(x as int, water, w, h));
                assert(world.water_is_queued()) by {
                    assert forall|a: int, b: int|
                        world.in_bounds(a, b) && #[trigger] world.block_at(a, b)
                            == Block::Water implies world.to_update@.contains(
                        (a as u32, b as u32),
                    ) by {
                        if planted {
                            assert(tree_block(a - x, b - (surface->0 + 1)) is None);
                        }
                        assert(dressed.block_at(a, b) == Block::Water);
                    }
                }
                assert forall|a: int, b: int| start.in_bounds(a, b) implies #[trigger] world.block_at(
                    a,
                    b,
                ) == field.painted(water, w, h, x + 1, a, b) by {
                    assert(before.block_at(a, b) == field.painted(water, w, h, x as int, a, b));
                    assert(filled.block_at(a, b) == (if a == x && b <= field.top(x as int, water) {
                        fill_block(height, rock, b)
                    } else {
                        before.block_at(a, b)
                    }));
                    if field.dressing(x as int, water) is Some {
                        assert(dressed.block_at(a, b) == (if a == x && b == surface->0 {
                            field.dressing(x as int, water)->0
                        } else {
                            filled.block_at(a, b)
                        }));
                    }
                    if planted {
                        assert(world.block_at(a, b) == (match tree_block(
                            a - x,
                            b - (surface->0 + 1),
                        ) {
                            Some(block) => block,
                            None => dressed.block_at(a, b),
                        }));
                    }
                }
                assert forall|j: int| next_tree <= j < trees@.len() implies trees@[j] >= x + 1 by {
                    if j > 0 && trees@[j] == x {
                        if next_tree > 0 {
                            assert(trees@[next_tree - 1] < trees@[j]);
                        }
                    }
                }
            }
            x = x + 1;
        }
        proof {
            lemma_first_overflow_stays(field, water, h, w, w);
            assert(world.flow_pending());
        }
        let ghost painting = world;
        world.settle();
        proof {
            let n = choose|n: nat| #[trigger] world.is_settling_of(painting, n);
            assert(painting.same_shape(world) && painting.is_painting_of(field, water)
                && world.is_settling_of(painting, n));
        }
        Ok(world)
    }

    /// Why a terrain cannot be painted into the world `world`, if it
    /// cannot: it is to rise above the world, or its upper height is not above
    /// its base height, or the filling of a column goes beyond the world.
    pub open spec fn terrain_error(width: u32, height: u32, settings: TerrainSettings) -> Option<
        WorldError,
    > {
        if settings.upper_height > height {
            Some(WorldError::InvalidGenerationRange(settings.upper_height, height))
        } else if settings.base_height >= settings.upper_height {
            Some(WorldError::GenerationTooThin)
        } else {
            match settings.field.first_overflow(settings.water_height, height as int, width as int) {
                Some(x) => Some(WorldError::OutOfBoundsBlock(x as u32, height)),
                None => None,
            }
        }
    }

    /// Whether this is a fresh world of the given sizes but for its blocks:
    /// sound, with no player, no interest and no position update queued.
    pub open spec fn is_fresh(
        &self,
        width: u32,
        height: u32,
        chunk_size: u32,
        spawn_point: u32,
        spawn_range: u32,
    ) -> bool {
        &&& self.wf()
        &&& self.width == width
        &&& self.height == height
        &&& self.chunk_size == chunk_size
        &&& self.spawn_point == spawn_point
        &&& self.spawn_range == spawn_range
        &&& !self.free_placement
        &&& self.players@.len() == 0
        &&& self.physics_update_queue@ == Map::<u32, PositionUpdate>::empty()
        &&& forall|i: int|
            0 <= i < self.player_loaded@.len() ==> (#[trigger] self.player_loaded@[i])@.len() == 0
    }

    /// Whether this is a flat world: rock in the rows below `grass_level`,
    /// grass in that row, air above it, and nothing queued.
    pub open spec fn is_flat_world(&self, grass_level: u32) -> bool {
        &&& self.to_update@.len() == 0
        &&& forall|a: int, b: int|
            self.in_bounds(a, b) ==> #[trigger] self.block_at(a, b) == (if b < grass_level {
                Block::Stone
            } else if b == grass_level {
                Block::Grass
            } else {
                Block::Air
            })
    }

    /// What making a world of the kind `kind` gives, once its layout is
    /// found sound.
    pub open spec fn generation_post(
        r: Result<World, WorldError>,
        width: u32,
        height: u32,
        chunk_size: u32,
        spawn_point: u32,
        spawn_range: u32,
        kind: WorldType,
    ) -> bool {
        match kind {
            WorldType::Empty => r matches Ok(w) && w.is_empty_world(
                width,
                height,
                chunk_size,
                spawn_point,
                spawn_range,
            ),
            WorldType::Flat { grass_height } => if grass_height >= height {
                r matches Err(e) && e == WorldError::OutOfBoundsBlock(0, height)
            } else {
                r matches Ok(w) && w.is_fresh(width, height, chunk_size, spawn_point, spawn_range)
                    && w.is_flat_world(grass_height)
            },
            WorldType::Terrain {
                base_height,
                upper_height,
                water_height,
                field,
            } => match World::terrain_error(
                width,
                height,
                TerrainSettings { base_height, upper_height, water_height, field },
            ) {
                Some(e) => r matches Err(f) && f == e,
                None => r matches Ok(w) && w.is_fresh(
                    width,
                    height,
                    chunk_size,
                    spawn_point,
                    spawn_range,
                ) && w.is_terrain_of(field, water_height),
            },
        }
    }

    /// Makes a world of the given sizes and kind. The sampled field of a
    /// terrain must cover the world.
    pub fn generate(
        width: u32,
        height: u32,
        chunk_size: u32,
        spawn_point: u32,
        spawn_range: u32,
        type_settings: WorldType,
    ) -> (r: Result<World, WorldError>)
        requires
            width >= 1,
            height >= 1,
            chunk_size >= 1,
            spawn_range >= 1,
            width * height <= u32::MAX,
            type_settings matches WorldType::Terrain { water_height, field, .. } ==> field.covers(
                width,
                height,
                water_height,
            ),
        ensures
            match World::layout_error(width, height, chunk_size, spawn_point, spawn_range) {
                Some(e) => r matches Err(f) && f == e,
                None => World::generation_post(
                    r,
                    width,
                    height,
                    chunk_size,
                    spawn_point,
                    spawn_range,
                    type_settings,
                ),
            },
    {
        let base: World = match World::generate_empty(
            width,
            height,
            chunk_size,
            spawn_point,
            spawn_range,
        ) {
            Err(e) => {
                return Err(e);
            },
            Ok(w) => w,
        };
        match type_settings {
            WorldType::Empty => Ok(base),
            WorldType::Flat { grass_height } => World::generate_flat(base, grass_height),
            WorldType::Terrain {
                base_height,
                upper_height,
                water_height,
                field,
            } => World::generate_terrain(
                base,
                TerrainSettings { base_height, upper_height, water_height, field },
            ),
        }
    }
}

/// The first column whose filling goes beyond the world stays the first when
/// more columns are looked at.
pub proof fn lemma_first_overflow_stays(field: TerrainField, water: u32, h: int, n: int, m: int)
    requires
        0 <= n <= m,
    ensures
        field.first_overflow(water, h, n) is Some ==> field.first_overflow(water, h, m)
            == field.first_overflow(water, h, n),
    decreases m - n,
{
    if n < m {
        lemma_first_overflow_stays(field, water, h, n + 1, m);
    }
}

} // verus!
