//! Block writes that clients hear of, and the water automaton: water spreads
//! from every queued water cell into the air below, left and right of it,
//! one cell per tick, and never upwards.

use vstd::prelude::*;
use crate::block::{block_id, is_solid, lemma_non_solid_blocks, solid, Block};
use crate::connection::index_of_id;
use crate::grid::distinct;
use crate::lists::{contains_cell, lemma_push_distinct, lemma_without, remove_cell, without};
use crate::network::{Outbound, PacketTypes};
use crate::player::BlockPos;
use crate::world::{lemma_same_chunks_same_grid, World, WorldError};

verus! {

/// The four cells that touch a cell's sides. A cell outside the world is
/// `None`.
#[derive(Clone, Copy, Debug)]
pub struct SurroundingBlocks {
    pub top: Option<BlockPos>,
    pub bottom: Option<BlockPos>,
    pub left: Option<BlockPos>,
    pub right: Option<BlockPos>,
}

impl World {
    /// The cell `(x, y)` with its block, or `None` outside the world.
    pub open spec fn sampled(&self, x: int, y: int) -> Option<BlockPos> {
        if self.in_bounds(x, y) {
            Some((x as u32, y as u32, self.block_at(x, y)))
        } else {
            None
        }
    }

    /// Whether every queued cell is a cell of the world and holds water.
    pub open spec fn queue_is_wet(&self) -> bool {
        forall|i: int|
            0 <= i < self.to_update@.len() ==> self.in_bounds(
                (#[trigger] self.to_update@[i]).0 as int,
                self.to_update@[i].1 as int,
            ) && self.block_at(self.to_update@[i].0 as int, self.to_update@[i].1 as int)
                == Block::Water
    }

    /// The messages that tell of a write of `block` into the cell `(x, y)`:
    /// one to each player that holds the cell's chunk, in the order of the
    /// chunk's interest list.
    pub open spec fn update_block_packets(&self, x: u32, y: u32, block: Block) -> Seq<Outbound> {
        let c = self.chunk_of(x as int, y as int);
        let ids = self.interest(c.0, c.1);
        Seq::new(
            ids.len(),
            |k: int|
                Outbound {
                    addr: self.players@[index_of_id(self.players@, ids[k])].addr,
                    packet: PacketTypes::ServerUpdateBlock { block: block_id(block), x, y },
                },
        )
    }

    /// Whether water can flow into the cell `(x, y)`: it is a cell of the
    /// world whose block is neither solid nor water.
    pub open spec fn floodable(&self, x: int, y: int) -> bool {
        self.in_bounds(x, y) && !solid(self.block_at(x, y)) && self.block_at(x, y) != Block::Water
    }

    /// The list `acc` of cells to flood, with `(x, y)` added if water can
    /// flow into it and it is not listed yet.
    pub open spec fn add_flow(&self, acc: Seq<(u32, u32)>, x: int, y: int) -> Seq<(u32, u32)> {
        if self.floodable(x, y) && !acc.contains((x as u32, y as u32)) {
            acc.push((x as u32, y as u32))
        } else {
            acc
        }
    }

    /// The list `acc` of cells to flood, with the cells added into which the
    /// queued cell `q` spreads: none unless `q` holds water, and else the
    /// cells below, left and right of it, in this order.
    pub open spec fn spread_from(&self, acc: Seq<(u32, u32)>, q: (u32, u32)) -> Seq<(u32, u32)> {
        if self.in_bounds(q.0 as int, q.1 as int) && self.block_at(q.0 as int, q.1 as int)
            == Block::Water {
            self.add_flow(
                self.add_flow(self.add_flow(acc, q.0 as int, q.1 - 1), q.0 - 1, q.1 as int),
                q.0 + 1,
                q.1 as int,
            )
        } else {
            acc
        }
    }

    /// The cells that one tick floods when `queue` is the queue, in the order
    /// in which they are flooded.
    pub open spec fn flow_targets(&self, queue: Seq<(u32, u32)>) -> Seq<(u32, u32)>
        decreases queue.len(),
    {
        if queue.len() == 0 {
            Seq::empty()
        } else {
            self.spread_from(self.flow_targets(queue.drop_last()), queue.last())
        }
    }

    /// The messages that tell of the flooding of `targets`, target by target.
    pub open spec fn flow_packets(&self, targets: Seq<(u32, u32)>) -> Seq<Outbound>
        decreases targets.len(),
    {
        if targets.len() == 0 {
            Seq::empty()
        } else {
            self.flow_packets(targets.drop_last()) + self.update_block_packets(
                targets.last().0,
                targets.last().1,
                Block::Water,
            )
        }
    }

    /// Whether this world is `before` with exactly the cells of `targets`
    /// turned into water.
    pub open spec fn is_flood_of(&self, before: World, targets: Seq<(u32, u32)>) -> bool {
        &&& self.same_shape(before)
        &&& self.grid_wf()
        &&& forall|x: int, y: int|
            before.in_bounds(x, y) ==> #[trigger] self.block_at(x, y) == (if targets.contains(
                (x as u32, y as u32),
            ) {
                Block::Water
            } else {
                before.block_at(x, y)
            })
    }

    /// The cells that a tick floods are cells of the world that held air,
    /// each listed once.
    pub proof fn lemma_flow_targets(&self, queue: Seq<(u32, u32)>)
        ensures
            distinct(self.flow_targets(queue)),
            forall|i: int|
                0 <= i < self.flow_targets(queue).len() ==> self.in_bounds(
                    (#[trigger] self.flow_targets(queue)[i]).0 as int,
                    self.flow_targets(queue)[i].1 as int,
                ) && self.block_at(
                    self.flow_targets(queue)[i].0 as int,
                    self.flow_targets(queue)[i].1 as int,
                ) == Block::Air,
        decreases queue.len(),
    {
        if queue.len() > 0 {
            self.lemma_flow_targets(queue.drop_last());
            let acc0 = self.flow_targets(queue.drop_last());
            let q = queue.last();
            if self.in_bounds(q.0 as int, q.1 as int) && self.block_at(q.0 as int, q.1 as int)
                == Block::Water {
                let acc1 = self.add_flow(acc0, q.0 as int, q.1 - 1);
                self.lemma_add_flow(acc0, q.0 as int, q.1 - 1);
                let acc2 = self.add_flow(acc1, q.0 - 1, q.1 as int);
                self.lemma_add_flow(acc1, q.0 - 1, q.1 as int);
                self.lemma_add_flow(acc2, q.0 + 1, q.1 as int);
            }
        }
    }

    /// Adding a cell to a list of distinct cells of the world that hold air
    /// leaves such a list.
    proof fn lemma_add_flow(&self, acc: Seq<(u32, u32)>, x: int, y: int)
        requires
            distinct(acc),
            forall|i: int|
                0 <= i < acc.len() ==> self.in_bounds((#[trigger] acc[i]).0 as int, acc[i].1 as int)
                    && self.block_at(acc[i].0 as int, acc[i].1 as int) == Block::Air,
        ensures
            distinct(self.add_flow(acc, x, y)),
            forall|i: int|
                0 <= i < self.add_flow(acc, x, y).len() ==> self.in_bounds(
                    (#[trigger] self.add_flow(acc, x, y)[i]).0 as int,
                    self.add_flow(acc, x, y)[i].1 as int,
                ) && self.block_at(
                    self.add_flow(acc, x, y)[i].0 as int,
                    self.add_flow(acc, x, y)[i].1 as int,
                ) == Block::Air,
    {
        if self.floodable(x, y) && !acc.contains((x as u32, y as u32)) {
            lemma_push_distinct(acc, (x as u32, y as u32));
            lemma_non_solid_blocks(self.block_at(x, y));
            let out = acc.push((x as u32, y as u32));
            assert forall|i: int| 0 <= i < out.len() implies self.in_bounds(
                (#[trigger] out[i]).0 as int,
                out[i].1 as int,
            ) && self.block_at(out[i].0 as int, out[i].1 as int) == Block::Air by {
                if i < acc.len() {
                    assert(out[i] == acc[i]);
                }
            }
        }
    }

    /// The cell `(x, y)` with its block, or `None` outside the world.
    pub fn sample(&self, x: i64, y: i64) -> (c: Option<BlockPos>)
        requires
            self.grid_wf(),
        ensures
            c == self.sampled(x as int, y as int),
    {
        if x < 0 || y < 0 || x >= self.width as i64 || y >= self.height as i64 {
            None
        } else {
            match self.get_block(x as u32, y as u32) {
                Ok(bl) => Some((x as u32, y as u32, bl)),
                Err(_) => None,
            }
        }
    }

    /// The four cells that touch the sides of the cell `(x, y)`.
    pub fn get_neighbours(&self, x: u32, y: u32) -> (n: SurroundingBlocks)
        requires
            self.grid_wf(),
        ensures
            n.top == self.sampled(x as int, y + 1),
            n.bottom == self.sampled(x as int, y - 1),
            n.left == self.sampled(x - 1, y as int),
            n.right == self.sampled(x + 1, y as int),
    {
        let (x_i, y_i): (i64, i64) = (x as i64, y as i64);
        SurroundingBlocks {
            top: self.sample(x_i, y_i + 1),
            bottom: self.sample(x_i, y_i - 1),
            left: self.sample(x_i - 1, y_i),
            right: self.sample(x_i + 1, y_i),
        }
    }

    /// Writes `block` into the cell `(pos_x, pos_y)` and keeps the queue of
    /// the water automaton in step: a cell that receives water is queued to
    /// spread at the next tick, a cell that receives anything else leaves the
    /// queue.
    pub fn set_block(&mut self, pos_x: u32, pos_y: u32, block: Block) -> (r: Result<
        (),
        WorldError,
    >)
        requires
            old(self).grid_wf(),
        ensures
            old(self).in_bounds(pos_x as int, pos_y as int) ==> r == Ok::<(), WorldError>(())
                && final(self).is_write_of(*old(self), pos_x as int, pos_y as int, block)
                && final(self).to_update@ == (if block == Block::Water {
                old(self).to_update@.push((pos_x, pos_y))
            } else {
                without(old(self).to_update@, (pos_x, pos_y))
            }),
            !old(self).in_bounds(pos_x as int, pos_y as int) ==> r == Err::<(), WorldError>(
                WorldError::OutOfBoundsBlock(pos_x, pos_y),
            ) && *final(self) == *old(self),
            final(self).players == old(self).players,
            final(self).player_loaded == old(self).player_loaded,
            final(self).physics_update_queue == old(self).physics_update_queue,
            final(self).spawn_point == old(self).spawn_point,
            final(self).spawn_range == old(self).spawn_range,
            final(self).grid_wf(),
            old(self).wf() ==> final(self).wf(),
            old(self).queue_is_wet() ==> final(self).queue_is_wet(),
    {
        match self.raw_set_block(pos_x, pos_y, block) {
            Err(e) => {
                return Err(e);
            },
            Ok(_) => {},
        }
        let ghost mid = *self;
        if block == Block::Water {
            self.to_update.push((pos_x, pos_y));
        } else {
            remove_cell(&mut self.to_update, (pos_x, pos_y));
        }
        proof {
            lemma_same_chunks_same_grid(mid, *self);
            lemma_without(old(self).to_update@, (pos_x, pos_y));
            if old(self).wf() {
                assert(mid.wf());
                assert forall|i: int| 0 <= i < self.to_update@.len() implies self.in_bounds(
                    (#[trigger] self.to_update@[i]).0 as int,
                    self.to_update@[i].1 as int,
                ) by {
                    let c = self.to_update@[i];
                    if block == Block::Water {
                        if i < old(self).to_update@.len() {
                            assert(c == old(self).to_update@[i]);
                        }
                    } else {
                        assert(self.to_update@.contains(c));
                        assert(old(self).to_update@.contains(c));
                        let j = choose|j: int|
                            0 <= j < old(self).to_update@.len() && old(self).to_update@[j] == c;
                        assert(old(self).in_bounds(
                            old(self).to_update@[j].0 as int,
                            old(self).to_update@[j].1 as int,
                        ));
                    }
                }
            }
            if old(self).queue_is_wet() {
                assert forall|i: int| 0 <= i < self.to_update@.len() implies self.in_bounds(
                    (#[trigger] self.to_update@[i]).0 as int,
                    self.to_update@[i].1 as int,
                ) && self.block_at(self.to_update@[i].0 as int, self.to_update@[i].1 as int)
                    == Block::Water by {
                    let c = self.to_update@[i];
                    if block == Block::Water {
                        if i < old(self).to_update@.len() {
                            assert(c == old(self).to_update@[i]);
                        }
                    } else {
                        assert(self.to_update@.contains(c));
                        assert(old(self).to_update@.contains(c));
                        let j = choose|j: int|
                            0 <= j < old(self).to_update@.len() && old(self).to_update@[j] == c;
                        assert(old(self).in_bounds(
                            old(self).to_update@[j].0 as int,
                            old(self).to_update@[j].1 as int,
                        ));
                        assert(c != (pos_x, pos_y));
                    }
                    assert(self.block_at(c.0 as int, c.1 as int) == mid.block_at(
                        c.0 as int,
                        c.1 as int,
                    ));
                }
            }
        }
        Ok(())
    }

    /// Writes `block` into the cell `(pos_x, pos_y)` as [`World::set_block`]
    /// does, and tells every player that holds the cell's chunk.
    pub fn set_block_and_notify(
        &mut self,
        to_network: &mut Vec<Outbound>,
        pos_x: u32,
        pos_y: u32,
        block: Block,
    ) -> (r: Result<(), WorldError>)
        requires
            old(self).wf(),
        ensures
            old(self).in_bounds(pos_x as int, pos_y as int) ==> r == Ok::<(), WorldError>(())
                && final(self).is_write_of(*old(self), pos_x as int, pos_y as int, block)
                && final(self).to_update@ == (if block == Block::Water {
                old(self).to_update@.push((pos_x, pos_y))
            } else {
                without(old(self).to_update@, (pos_x, pos_y))
            }) && final(to_network)@ == old(to_network)@ + old(self).update_block_packets(
                pos_x,
                pos_y,
                block,
            ),
            !old(self).in_bounds(pos_x as int, pos_y as int) ==> r == Err::<(), WorldError>(
                WorldError::OutOfBoundsBlock(pos_x, pos_y),
            ) && *final(self) == *old(self) && final(to_network)@ == old(to_network)@,
            final(self).players == old(self).players,
            final(self).player_loaded == old(self).player_loaded,
            final(self).physics_update_queue == old(self).physics_update_queue,
            final(self).spawn_point == old(self).spawn_point,
            final(self).spawn_range == old(self).spawn_range,
            final(self).wf(),
            old(self).queue_is_wet() ==> final(self).queue_is_wet(),
    {
        match self.set_block(pos_x, pos_y, block) {
            Err(e) => {
                return Err(e);
            },
            Ok(_) => {},
        }
        proof {
            self.lemma_cell_in_chunk(pos_x as int, pos_y as int);
        }
        let chunk_x: u32 = pos_x / self.chunk_size;
        let chunk_y: u32 = pos_y / self.chunk_size;
        let ghost expected = old(self).update_block_packets(pos_x, pos_y, block);
        match self.get_list_of_players_loading_chunk(chunk_x, chunk_y) {
            Err(_) => {},
            Ok(players_loading) => {
                let mut k: usize = 0;
                while k < players_loading.len()
                    invariant
                        0 <= k <= players_loading@.len(),
                        players_loading@.len() == expected.len(),
                        forall|j: int|
                            0 <= j < players_loading@.len() ==> (Outbound {
                                addr: (#[trigger] players_loading@[j]).addr,
                                packet: PacketTypes::ServerUpdateBlock {
                                    block: block_id(block),
                                    x: pos_x,
                                    y: pos_y,
                                },
                            }) == expected[j],
                        to_network@ == old(to_network)@ + expected.subrange(0, k as int),
                    decreases players_loading@.len() - k,
                {
                    to_network.push(
                        Outbound {
                            addr: players_loading[k].addr,
                            packet: PacketTypes::ServerUpdateBlock {
                                block: block.id(),
                                x: pos_x,
                                y: pos_y,
                            },
                        },
                    );
                    assert(expected.subrange(0, k + 1) =~= expected.subrange(0, k as int).push(
                        expected[k as int],
                    ));
                    k = k + 1;
                    assert(to_network@ =~= old(to_network)@ + expected.subrange(0, k as int));
                }
                assert(expected.subrange(0, expected.len() as int) =~= expected);
            },
        }
        Ok(())
    }

    /// One tick of the water automaton. Every queued cell that holds water
    /// spreads into the cells below, left and right of it that are in the
    /// world and hold neither a solid block nor water; these cells turn into
    /// water, make up the new queue, and the players that hold their chunks
    /// are told. No other cell changes: a tick turns air into water and
    /// nothing else.
    pub fn tick_water(&mut self, to_network: &mut Vec<Outbound>) -> (r: Result<(), WorldError>)
        requires
            old(self).wf(),
        ensures
            r == Ok::<(), WorldError>(()),
            final(self).wf(),
            final(self).queue_is_wet(),
            final(self).is_flood_of(*old(self), old(self).flow_targets(old(self).to_update@)),
            final(self).to_update@ == old(self).flow_targets(old(self).to_update@),
            final(to_network)@ == old(to_network)@ + old(self).flow_packets(
                old(self).flow_targets(old(self).to_update@),
            ),
            final(self).players == old(self).players,
            final(self).player_loaded == old(self).player_loaded,
            final(self).physics_update_queue == old(self).physics_update_queue,
            final(self).spawn_point == old(self).spawn_point,
            final(self).spawn_range == old(self).spawn_range,
            forall|x: int, y: int|
                old(self).in_bounds(x, y) ==> #[trigger] final(self).block_at(x, y) == old(self).block_at(x, y) || (old(self).block_at(x, y) == Block::Air && final(self).block_at(x, y) == Block::Water),
    {
        let targets: Vec<(u32, u32)> = self.collect_flow();
        proof {
            self.lemma_flow_targets(self.to_update@);
        }
        self.to_update.clear();
        proof {
            lemma_same_chunks_same_grid(*old(self), *self);
        }
        let ghost start = *self;
        let mut k: usize = 0;
        while k < targets.len()
            invariant
                0 <= k <= targets@.len(),
                targets@ == old(self).flow_targets(old(self).to_update@),
                distinct(targets@),
                forall|i: int|
                    0 <= i < targets@.len() ==> old(self).in_bounds(
                        (#[trigger] targets@[i]).0 as int,
                        targets@[i].1 as int,
                    ) && old(self).block_at(targets@[i].0 as int, targets@[i].1 as int)
                        == Block::Air,
                old(self).wf(),
                self.wf(),
                self.queue_is_wet(),
                self.same_shape(*old(self)),
                self.players == old(self).players,
                self.player_loaded == old(self).player_loaded,
                self.physics_update_queue == old(self).physics_update_queue,
                self.spawn_point == old(self).spawn_point,
                self.spawn_range == old(self).spawn_range,
                self.to_update@ == targets@.take(k as int),
                self.is_flood_of(*old(self), targets@.take(k as int)),
                to_network@ == old(to_network)@ + old(self).flow_packets(targets@.take(k as int)),
            decreases targets@.len() - k,
        {
            let (x, y): (u32, u32) = targets[k];
            let ghost prev = *self;
            let ghost sent = to_network@;
            let _ = self.set_block_and_notify(to_network, x, y, Block::Water);
            proof {
                let done = targets@.take(k as int);
                let next = targets@.take(k + 1);
                assert(next =~= done.push((x, y)));
                assert(next.drop_last() =~= done);
                assert(prev.update_block_packets(x, y, Block::Water) =~= old(self).update_block_packets(x, y, Block::Water));
                assert(to_network@ =~= old(to_network)@ + old(self).flow_packets(next));
                assert forall|a: int, b: int| old(self).in_bounds(a, b) implies #[trigger] self.block_at(
                    a,
                    b,
                ) == (if next.contains((a as u32, b as u32)) {
                    Block::Water
                } else {
                    old(self).block_at(a, b)
                }) by {
                    if a == x && b == y {
                        assert(next[k as int] == (x, y));
                    } else {
                        if next.contains((a as u32, b as u32)) {
                            let i = choose|i: int|
                                0 <= i < next.len() && next[i] == (a as u32, b as u32);
                            assert(done[i] == (a as u32, b as u32));
                        }
                        if done.contains((a as u32, b as u32)) {
                            let i = choose|i: int|
                                0 <= i < done.len() && done[i] == (a as u32, b as u32);
                            assert(next[i] == (a as u32, b as u32));
                        }
                        assert(self.block_at(a, b) == prev.block_at(a, b));
                    }
                }
            }
            k = k + 1;
        }
        proof {
            assert(targets@.take(targets@.len() as int) =~= targets@);
            assert forall|x: int, y: int| old(self).in_bounds(x, y) implies #[trigger] self.block_at(
                x,
                y,
            ) == old(self).block_at(x, y) || (old(self).block_at(x, y) == Block::Air
                && self.block_at(x, y) == Block::Water) by {
                if targets@.contains((x as u32, y as u32)) {
                    let i = choose|i: int|
                        0 <= i < targets@.len() && targets@[i] == (x as u32, y as u32);
                    assert(old(self).block_at(targets@[i].0 as int, targets@[i].1 as int)
                        == Block::Air);
                }
            }
        }
        Ok(())
    }

    /// One tick of the water automaton of which no player is told.
    pub fn init_flow_water(&mut self) -> (r: Result<(), WorldError>)
        requires
            old(self).wf(),
        ensures
            r == Ok::<(), WorldError>(()),
            final(self).wf(),
            final(self).queue_is_wet(),
            final(self).is_flood_of(*old(self), old(self).flow_targets(old(self).to_update@)),
            final(self).to_update@ == old(self).flow_targets(old(self).to_update@),
            final(self).players == old(self).players,
            final(self).player_loaded == old(self).player_loaded,
            final(self).physics_update_queue == old(self).physics_update_queue,
            final(self).spawn_point == old(self).spawn_point,
            final(self).spawn_range == old(self).spawn_range,
    {
        let mut unheard: Vec<Outbound> = Vec::new();
        self.tick_water(&mut unheard)
    }

    /// The cells that the next tick floods, in the order in which it floods
    /// them.
    pub fn collect_flow(&self) -> (targets: Vec<(u32, u32)>)
        requires
            self.wf(),
        ensures
            targets@ == self.flow_targets(self.to_update@),
    {
        let mut targets: Vec<(u32, u32)> = Vec::new();
        let mut i: usize = 0;
        while i < self.to_update.len()
            invariant
                self.wf(),
                0 <= i <= self.to_update@.len(),
                targets@ == self.flow_targets(self.to_update@.take(i as int)),
            decreases self.to_update@.len() - i,
        {
            let (x, y): (u32, u32) = self.to_update[i];
            assert(self.to_update@.take(i + 1).drop_last() =~= self.to_update@.take(i as int));
            assert(self.to_update@.take(i + 1).last() == (x, y));
            assert(self.in_bounds(x as int, y as int));
            let here: Block = match self.get_block(x, y) {
                Ok(b) => b,
                Err(_) => Block::Air,
            };
            if here == Block::Water {
                let n: SurroundingBlocks = self.get_neighbours(x, y);
                self.add_target(&mut targets, n.bottom, Ghost(x as int), Ghost(y - 1));
                self.add_target(&mut targets, n.left, Ghost(x - 1), Ghost(y as int));
                self.add_target(&mut targets, n.right, Ghost(x + 1), Ghost(y as int));
            }
            i = i + 1;
        }
        assert(self.to_update@.take(self.to_update@.len() as int) =~= self.to_update@);
        targets
    }

    /// Lists the sampled cell as one to flood if water can flow into it and
    /// it is not listed yet.
    fn add_target(
        &self,
        targets: &mut Vec<(u32, u32)>,
        cell: Option<BlockPos>,
        Ghost(x): Ghost<int>,
        Ghost(y): Ghost<int>,
    )
        requires
            cell == self.sampled(x, y),
        ensures
            final(targets)@ == self.add_flow(old(targets)@, x, y),
    {
        match cell {
            Some((cx, cy, bl)) => {
                if !is_solid(bl) && bl != Block::Water && !contains_cell(targets, (cx, cy)) {
                    targets.push((cx, cy));
                }
            },
            None => {},
        }
    }
}

} // verus!
