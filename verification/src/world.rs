//! The world: a grid of chunks, the connected players, the per-chunk
//! interest lists and the queues of pending work.

use vstd::prelude::*;
use std::collections::HashMap;
use crate::block::{is_solid, solid, Block};
use crate::chunk::Chunk;
use crate::connection::{has_id, ids_of, ClientConnection, PeerAddr};
use crate::grid::{
    distinct, flat_index, lemma_chunk_split, lemma_flat_index_bound, lemma_flat_index_injective,
    lemma_flat_index_parts,
};
use crate::random::random_in_range;
use crate::scalar::Scalar;

verus! {

/// What can go wrong when a world is made or addressed.
#[derive(Clone, Copy, Debug, PartialEq, Eq, Structural)]
pub enum WorldError {
    /// Width or height is not a multiple of the chunk size.
    MismatchedChunkSize,
    /// The block position is outside the world.
    OutOfBoundsBlock(u32, u32),
    /// The chunk position is outside the world.
    OutOfBoundsChunk(u32, u32),
    /// The player already holds the chunk.
    ChunkAlreadyLoaded,
    /// Terrain was asked for up to the first height in a world of the second.
    InvalidGenerationRange(u32, u32),
    /// The upper terrain height is not above the base height.
    GenerationTooThin,
    /// The spawn range is more than half the world's width.
    SpawnRangeTooLarge,
}

/// A position update waiting to be sent: where the player is, and to whom
/// that is to be told.
#[derive(Clone, Debug)]
pub struct PositionUpdate {
    pub pos_x: Scalar,
    pub pos_y: Scalar,
    pub recievers: Vec<PeerAddr>,
}

/// The whole state of the server.
#[derive(Debug)]
pub struct World {
    /// Width in blocks.
    pub width: u32,
    /// Height in blocks.
    pub height: u32,
    /// Side of a chunk in blocks.
    pub chunk_size: u32,
    /// The chunks, row by row from the bottom.
    pub chunks: Vec<Chunk>,
    /// Width in chunks.
    pub width_chunks: u32,
    /// Height in chunks.
    pub height_chunks: u32,
    /// The connected players.
    pub players: Vec<ClientConnection>,
    /// For each chunk, the ids of the players whose clients hold it.
    pub player_loaded: Vec<Vec<u32>>,
    /// Position updates waiting for the next flush, at most one per player.
    pub physics_update_queue: HashMap<u32, PositionUpdate>,
    /// Water cells that have not spread yet.
    pub to_update: Vec<(u32, u32)>,
    /// Column around which players spawn.
    pub spawn_point: u32,
    /// How far from the spawn point players may spawn.
    pub spawn_range: u32,
    /// Whether players may place blocks where no solid block touches them.
    pub free_placement: bool,
}

impl World {
    /// Number of chunks.
    pub open spec fn chunk_count(&self) -> int {
        self.width_chunks * self.height_chunks
    }

    /// Whether `(x, y)` is a cell of the world.
    pub open spec fn in_bounds(&self, x: int, y: int) -> bool {
        0 <= x < self.width && 0 <= y < self.height
    }

    /// Whether `(chunk_x, chunk_y)` is a chunk of the world.
    pub open spec fn chunk_in_bounds(&self, chunk_x: int, chunk_y: int) -> bool {
        0 <= chunk_x < self.width_chunks && 0 <= chunk_y < self.height_chunks
    }

    /// Where the chunk `(chunk_x, chunk_y)` stands in the list of chunks.
    pub open spec fn chunk_index(&self, chunk_x: int, chunk_y: int) -> int {
        flat_index(chunk_x, chunk_y, self.width_chunks as int)
    }

    /// The chunk `(chunk_x, chunk_y)`.
    pub open spec fn chunk_at(&self, chunk_x: int, chunk_y: int) -> Chunk {
        self.chunks@[self.chunk_index(chunk_x, chunk_y)]
    }

    /// The chunk coordinates of the chunk that holds the cell `(x, y)`.
    pub open spec fn chunk_of(&self, x: int, y: int) -> (int, int) {
        (x / (self.chunk_size as int), y / (self.chunk_size as int))
    }

    /// The block in the cell `(x, y)`: the block at offset
    /// `(x mod s, y mod s)` of the chunk `(x / s, y / s)`, for chunk size `s`.
    pub open spec fn block_at(&self, x: int, y: int) -> Block {
        let s = self.chunk_size as int;
        self.chunk_at(x / s, y / s).block_at(x % s, y % s)
    }

    /// The ids of the players that hold the chunk `(chunk_x, chunk_y)`.
    pub open spec fn interest(&self, chunk_x: int, chunk_y: int) -> Seq<u32> {
        self.player_loaded@[self.chunk_index(chunk_x, chunk_y)]@
    }

    /// The grid is sound: the sizes agree with each other and every chunk is
    /// in its place.
    pub open spec fn grid_wf(&self) -> bool {
        &&& self.chunk_size >= 1
        &&& self.width >= 1
        &&& self.height >= 1
        &&& self.width == self.width_chunks * self.chunk_size
        &&& self.height == self.height_chunks * self.chunk_size
        &&& self.width * self.height <= u32::MAX
        &&& self.chunks@.len() == self.chunk_count()
        &&& forall|i: int|
            0 <= i < self.chunks@.len() ==> {
                &&& (#[trigger] self.chunks@[i]).wf()
                &&& self.chunks@[i].size == self.chunk_size
                &&& self.chunks@[i].chunk_x == i % (self.width_chunks as int)
                &&& self.chunks@[i].chunk_y == i / (self.width_chunks as int)
            }
    }

    /// The interest lists are sound: one per chunk, no player twice in a
    /// list, and only connected players in them.
    pub open spec fn interest_wf(&self) -> bool {
        &&& self.player_loaded@.len() == self.chunks@.len()
        &&& forall|i: int|
            0 <= i < self.player_loaded@.len() ==> distinct((#[trigger] self.player_loaded@[i])@)
        &&& forall|i: int, k: int|
            0 <= i < self.player_loaded@.len() && 0 <= k < self.player_loaded@[i]@.len()
                ==> has_id(self.players@, #[trigger] self.player_loaded@[i]@[k])
    }

    /// The players are sound: no two share an id, and each is well formed.
    pub open spec fn players_wf(&self) -> bool {
        &&& distinct(ids_of(self.players@))
        &&& forall|i: int|
            0 <= i < self.players@.len() ==> (#[trigger] self.players@[i]).server_player.wf()
    }

    /// The queues are sound: every queued cell is a cell of the world.
    pub open spec fn queues_wf(&self) -> bool {
        &&& forall|i: int|
            0 <= i < self.to_update@.len() ==> self.in_bounds(
                (#[trigger] self.to_update@[i]).0 as int,
                self.to_update@[i].1 as int,
            )
    }

    /// The spawn range is sound: at least one column and at most half the
    /// world wide on each side of the spawn point.
    pub open spec fn spawn_wf(&self) -> bool {
        1 <= self.spawn_range <= self.width / 2
    }

    /// The invariant of the world.
    pub open spec fn wf(&self) -> bool {
        &&& self.grid_wf()
        &&& self.interest_wf()
        &&& self.players_wf()
        &&& self.queues_wf()
        &&& self.spawn_wf()
    }

    /// Whether two worlds have the same grid: the same sizes and the same
    /// block in every cell.
    pub open spec fn same_blocks(&self, other: World) -> bool {
        &&& self.same_shape(other)
        &&& forall|x: int, y: int|
            self.in_bounds(x, y) ==> #[trigger] self.block_at(x, y) == other.block_at(x, y)
    }

    /// Whether two worlds have grids of the same sizes and the same rule for
    /// the placing of blocks.
    pub open spec fn same_shape(&self, other: World) -> bool {
        &&& self.free_placement == other.free_placement
        &&& self.width == other.width
        &&& self.height == other.height
        &&& self.chunk_size == other.chunk_size
        &&& self.width_chunks == other.width_chunks
        &&& self.height_chunks == other.height_chunks
    }

    /// Whether two worlds agree in everything but the blocks: players,
    /// interest lists, queues and spawn area.
    pub open spec fn same_state(&self, other: World) -> bool {
        &&& self.players == other.players
        &&& self.player_loaded == other.player_loaded
        &&& self.physics_update_queue == other.physics_update_queue
        &&& self.to_update == other.to_update
        &&& self.spawn_point == other.spawn_point
        &&& self.spawn_range == other.spawn_range
    }

    /// Whether this world is `before` with the block `block` written into the
    /// cell `(x, y)` and nothing else changed in the grid.
    pub open spec fn is_write_of(&self, before: World, x: int, y: int, block: Block) -> bool {
        &&& self.same_shape(before)
        &&& self.grid_wf()
        &&& forall|i: int, j: int|
            before.in_bounds(i, j) ==> #[trigger] self.block_at(i, j) == (if i == x && j == y {
                block
            } else {
                before.block_at(i, j)
            })
    }

    /// In a sound grid, a cell of the world lies in a chunk of the world, at
    /// an offset inside that chunk, and the chunk is stored where
    /// [`World::chunk_at`] looks for it.
    pub proof fn lemma_cell_in_chunk(&self, x: int, y: int)
        requires
            self.grid_wf(),
            self.in_bounds(x, y),
        ensures
            self.chunk_in_bounds(self.chunk_of(x, y).0, self.chunk_of(x, y).1),
            0 <= self.chunk_index(self.chunk_of(x, y).0, self.chunk_of(x, y).1)
                < self.chunks@.len(),
            self.chunk_at(self.chunk_of(x, y).0, self.chunk_of(x, y).1).holds(
                x % (self.chunk_size as int),
                y % (self.chunk_size as int),
            ),
            x - (x / (self.chunk_size as int)) * self.chunk_size == x % (self.chunk_size as int),
            y - (y / (self.chunk_size as int)) * self.chunk_size == y % (self.chunk_size as int),
    {
        let s = self.chunk_size as int;
        lemma_chunk_split(x, s, self.width_chunks as int);
        lemma_chunk_split(y, s, self.height_chunks as int);
        lemma_flat_index_bound(x / s, y / s, self.width_chunks as int, self.height_chunks as int);
    }

    /// In a sound grid, a chunk of the world is stored inside the list of
    /// chunks and knows its own coordinates.
    pub proof fn lemma_chunk_in_list(&self, chunk_x: int, chunk_y: int)
        requires
            self.grid_wf(),
            self.chunk_in_bounds(chunk_x, chunk_y),
        ensures
            0 <= self.chunk_index(chunk_x, chunk_y) < self.chunks@.len(),
            0 <= chunk_y * self.width_chunks <= self.chunk_index(chunk_x, chunk_y),
            self.chunk_at(chunk_x, chunk_y).chunk_x == chunk_x,
            self.chunk_at(chunk_x, chunk_y).chunk_y == chunk_y,
            self.chunk_at(chunk_x, chunk_y).wf(),
            self.chunk_at(chunk_x, chunk_y).size == self.chunk_size,
    {
        lemma_flat_index_bound(
            chunk_x,
            chunk_y,
            self.width_chunks as int,
            self.height_chunks as int,
        );
        lemma_flat_index_parts(chunk_x, chunk_y, self.width_chunks as int);
    }

    /// Reading the chunk of a cell at the cell's offset gives the cell's
    /// block: for chunk size `s`, the block of `(x, y)` is the one stored at
    /// index `(y mod s) * s + (x mod s)` of the chunk `(x / s, y / s)`.
    pub proof fn lemma_chunk_read(&self, x: int, y: int)
        requires
            self.grid_wf(),
            self.in_bounds(x, y),
        ensures
            ({
                let s = self.chunk_size as int;
                let chunk = self.chunk_at(x / s, y / s);
                &&& 0 <= (y % s) * s + (x % s) < chunk.blocks@.len()
                &&& chunk.blocks@[(y % s) * s + (x % s)] == self.block_at(x, y)
                &&& chunk.chunk_x == x / s
                &&& chunk.chunk_y == y / s
            }),
    {
        let s = self.chunk_size as int;
        self.lemma_cell_in_chunk(x, y);
        self.lemma_chunk_in_list(x / s, y / s);
        lemma_flat_index_bound(x % s, y % s, s, s);
    }

    /// The row of the ground in column `x`, looking only at the rows below
    /// `n`: the highest row under `n` that holds a solid block with a block
    /// that is not solid on top of it, or row 0 if there is none.
    pub open spec fn surface_below(&self, x: int, n: int) -> int
        decreases n,
    {
        if n <= 0 {
            0
        } else if solid(self.block_at(x, n - 1)) && !solid(self.block_at(x, n)) {
            n - 1
        } else {
            self.surface_below(x, n - 1)
        }
    }

    /// The row of the ground in column `x`.
    pub open spec fn surface(&self, x: int) -> int {
        self.surface_below(x, self.height - 1)
    }

    /// The lowest column a player may spawn in.
    pub open spec fn spawn_start(&self) -> int {
        if self.spawn_point >= self.spawn_range {
            self.spawn_point - self.spawn_range
        } else {
            0
        }
    }

    /// The column after the highest one a player may spawn in.
    pub open spec fn spawn_end(&self) -> int {
        if self.spawn_point + self.spawn_range <= self.width {
            self.spawn_point + self.spawn_range
        } else {
            self.width as int
        }
    }

    /// Whether there is a column to spawn in: the spawn area is empty if the
    /// spawn point lies so far beyond the world that no column of the world is
    /// within the spawn range of it.
    pub open spec fn has_spawn_area(&self) -> bool {
        self.spawn_start() < self.spawn_end()
    }

    /// Whether this is a freshly made world of the given sizes: sound, all
    /// air, with no player, no interest and nothing queued.
    pub open spec fn is_empty_world(
        &self,
        width: u32,
        height: u32,
        chunk_size: u32,
        spawn_point: u32,
        spawn_range: u32,
    ) -> bool {
        &&& self.wf()
        &&& self.width == width
        &&& self.height == height
        &&& self.chunk_size == chunk_size
        &&& self.spawn_point == spawn_point
        &&& self.spawn_range == spawn_range
        &&& !self.free_placement
        &&& self.players@.len() == 0
        &&& self.to_update@.len() == 0
        &&& self.physics_update_queue@ == Map::<u32, PositionUpdate>::empty()
        &&& forall|i: int|
            0 <= i < self.player_loaded@.len() ==> (#[trigger] self.player_loaded@[i])@.len() == 0
        &&& forall|x: int, y: int|
            self.in_bounds(x, y) ==> #[trigger] self.block_at(x, y) == Block::Air
    }

    /// Why a world of the given sizes cannot be made, if it cannot: the
    /// sizes are not multiples of the chunk size, or the spawn range is more
    /// than half its width.
    pub open spec fn layout_error(
        width: u32,
        height: u32,
        chunk_size: u32,
        spawn_point: u32,
        spawn_range: u32,
    ) -> Option<WorldError> {
        if width % chunk_size != 0 || height % chunk_size != 0 {
            Some(WorldError::MismatchedChunkSize)
        } else if spawn_range > width / 2 {
            Some(WorldError::SpawnRangeTooLarge)
        } else {
            None
        }
    }

    /// Makes a world of air.
    pub fn generate_empty(
        width: u32,
        height: u32,
        chunk_size: u32,
        spawn_point: u32,
        spawn_range: u32,
    ) -> (r: Result<World, WorldError>)
        requires
            width >= 1,
            height >= 1,
            chunk_size >= 1,
            spawn_range >= 1,
            width * height <= u32::MAX,
        ensures
            match World::layout_error(width, height, chunk_size, spawn_point, spawn_range) {
                Some(e) => r matches Err(f) && f == e,
                None => r matches Ok(w) && w.is_empty_world(
                    width,
                    height,
                    chunk_size,
                    spawn_point,
                    spawn_range,
                ),
            },
    {
        if width % chunk_size != 0 || height % chunk_size != 0 {
            return Err(WorldError::MismatchedChunkSize);
        }
        if spawn_range > width / 2 {
            return Err(WorldError::SpawnRangeTooLarge);
        }
        let width_chunks: u32 = width / chunk_size;
        let height_chunks: u32 = height / chunk_size;
        proof {
            let (w, h, s) = (width as int, height as int, chunk_size as int);
            let (wc, hc) = (width_chunks as int, height_chunks as int);
            assert(w == wc * s && h == hc * s && wc >= 1 && hc >= 1) by (nonlinear_arith)
                requires
                    w % s == 0,
                    h % s == 0,
                    wc == w / s,
                    hc == h / s,
                    s >= 1,
                    w >= 1,
                    h >= 1,
            ;
            assert(wc * hc <= w * h && s * s <= w * h) by (nonlinear_arith)
                requires
                    w == wc * s,
                    h == hc * s,
                    wc >= 1,
                    hc >= 1,
                    s >= 1,
            ;
        }
        let count: u32 = width_chunks * height_chunks;
        let mut chunks: Vec<Chunk> = Vec::new();
        let mut player_loaded: Vec<Vec<u32>> = Vec::new();
        let mut idx: u32 = 0;
        while idx < count
            invariant
                0 <= idx <= count,
                width_chunks >= 1,
                chunk_size * chunk_size <= u32::MAX,
                chunks@.len() == idx,
                player_loaded@.len() == idx,
                forall|i: int|
                    0 <= i < idx ==> {
                        &&& (#[trigger] chunks@[i]).wf()
                        &&& chunks@[i].size == chunk_size
                        &&& chunks@[i].chunk_x == i % (width_chunks as int)
                        &&& chunks@[i].chunk_y == i / (width_chunks as int)
                        &&& forall|k: int|
                            0 <= k < chunks@[i].blocks@.len() ==> chunks@[i].blocks@[k]
                                == Block::Air
                    },
                forall|i: int| 0 <= i < idx ==> (#[trigger] player_loaded@[i])@.len() == 0,
            decreases count - idx,
        {
            let chunk_x: u32 = idx % width_chunks;
            let chunk_y: u32 = idx / width_chunks;
            chunks.push(Chunk::empty(chunk_size, chunk_x, chunk_y));
            player_loaded.push(Vec::new());
            idx = idx + 1;
        }
        let world = World {
            width,
            height,
            chunk_size,
            chunks,
            width_chunks,
            height_chunks,
            players: Vec::new(),
            player_loaded,
            physics_update_queue: HashMap::new(),
            to_update: Vec::new(),
            spawn_point,
            spawn_range,
            free_placement: false,
        };
        proof {
            assert(world.grid_wf());
            assert forall|x: int, y: int| world.in_bounds(x, y) implies #[trigger] world.block_at(
                x,
                y,
            ) == Block::Air by {
                world.lemma_chunk_read(x, y);
                world.lemma_cell_in_chunk(x, y);
            }
        }
        Ok(world)
    }

    /// The ground in column `x`: the column itself and the highest row that
    /// holds a solid block with a block that is not solid on top of it, or
    /// row 0 if the column has no such row.
    pub fn get_highest_block_at(&self, x: u32) -> (r: Result<(u32, u32), WorldError>)
        requires
            self.grid_wf(),
        ensures
            x < self.width ==> (r matches Ok(pos) && pos.0 == x && pos.1 == self.surface(x as int)
                && pos.1 < self.height),
            x >= self.width ==> (r matches Err(e) && e == WorldError::OutOfBoundsBlock(x, 0)),
    {
        if x >= self.width {
            return Err(WorldError::OutOfBoundsBlock(x, 0));
        }
        let mut n: u32 = self.height - 1;
        while n > 0
            invariant
                self.grid_wf(),
                x < self.width,
                0 <= n < self.height,
                self.surface(x as int) == self.surface_below(x as int, n as int),
            decreases n,
        {
            let below: Block = match self.get_block(x, n - 1) {
                Ok(b) => b,
                Err(_) => Block::Air,
            };
            let above: Block = match self.get_block(x, n) {
                Ok(b) => b,
                Err(_) => Block::Air,
            };
            if is_solid(below) && !is_solid(above) {
                return Ok((x, n - 1));
            }
            n = n - 1;
        }
        Ok((x, 0))
    }

    /// Whether there is a column to spawn in.
    pub fn spawn_area_exists(&self) -> (b: bool)
        ensures
            b == self.has_spawn_area(),
    {
        let start: u32 = self.spawn_point.saturating_sub(self.spawn_range);
        let reach: u32 = self.spawn_point.saturating_add(self.spawn_range);
        let end: u32 = if reach < self.width {
            reach
        } else {
            self.width
        };
        start < end
    }

    /// A column for a new player, drawn at random from the spawn area: the
    /// columns within the spawn range of the spawn point that the world has.
    /// There must be such a column.
    pub fn get_spawn(&self) -> (x: u32)
        requires
            self.has_spawn_area(),
        ensures
            self.spawn_start() <= x < self.spawn_end(),
            x < self.width,
    {
        let start: u32 = self.spawn_point.saturating_sub(self.spawn_range);
        let reach: u32 = self.spawn_point.saturating_add(self.spawn_range);
        let end: u32 = if reach < self.width {
            reach
        } else {
            self.width
        };
        random_in_range(start, end)
    }

    /// Moves the spawn point to column `x`.
    pub fn set_spawn(&mut self, x: u32) -> (r: Result<(), WorldError>)
        ensures
            x < old(self).width ==> r == Ok::<(), WorldError>(()) && *final(self) == (World {
                spawn_point: x,
                ..*old(self)
            }),
            x >= old(self).width ==> r == Err::<(), WorldError>(
                WorldError::OutOfBoundsBlock(x, 0),
            ) && *final(self) == *old(self),
            old(self).wf() ==> final(self).wf(),
    {
        if x >= self.width {
            return Err(WorldError::OutOfBoundsBlock(x, 0));
        }
        self.spawn_point = x;
        proof {
            lemma_same_chunks_same_grid(*old(self), *self);
        }
        Ok(())
    }

    /// Sets how far from the spawn point players may spawn.
    pub fn set_spawn_range(&mut self, range: u32) -> (r: Result<(), WorldError>)
        requires
            range >= 1,
        ensures
            range <= old(self).width / 2 ==> r == Ok::<(), WorldError>(()) && *final(self) == (World {
                spawn_range: range,
                ..*old(self)
            }),
            range > old(self).width / 2 ==> r == Err::<(), WorldError>(
                WorldError::SpawnRangeTooLarge,
            ) && *final(self) == *old(self),
            old(self).wf() ==> final(self).wf(),
    {
        if range > self.width / 2 {
            return Err(WorldError::SpawnRangeTooLarge);
        }
        self.spawn_range = range;
        proof {
            lemma_same_chunks_same_grid(*old(self), *self);
        }
        Ok(())
    }

    /// A block written into a cell is the block that the cell holds
    /// afterwards, whatever it held before.
    pub proof fn lemma_write_then_read(&self, before: World, x: int, y: int, block: Block)
        requires
            self.is_write_of(before, x, y, block),
            before.in_bounds(x, y),
        ensures
            self.block_at(x, y) == block,
            self.in_bounds(x, y),
    {
    }

    /// The wire form of the chunk of a cell holds, at the offset of the
    /// cell, the id of the block in the cell: for chunk size `s`, the byte at
    /// index `(y mod s) * s + (x mod s)` of the chunk `(x / s, y / s)`.
    pub proof fn lemma_chunk_bytes(&self, x: int, y: int, wire: crate::chunk::NetworkChunk)
        requires
            self.grid_wf(),
            self.in_bounds(x, y),
            wire.describes(
                self.chunk_at(x / (self.chunk_size as int), y / (self.chunk_size as int)),
            ),
        ensures
            ({
                let s = self.chunk_size as int;
                &&& 0 <= (y % s) * s + (x % s) < wire.blocks@.len()
                &&& wire.blocks@[(y % s) * s + (x % s)] == crate::block::block_id(
                    self.block_at(x, y),
                )
            }),
    {
        self.lemma_chunk_read(x, y);
        let s = self.chunk_size as int;
        let chunk = self.chunk_at(x / s, y / s);
        assert(wire.blocks@[(y % s) * s + (x % s)] == crate::block::block_id(
            chunk.blocks@[(y % s) * s + (x % s)],
        ));
    }

    /// Fails with the chunk position if it is outside the world.
    pub fn check_out_of_bounds_chunk(&self, chunk_x: u32, chunk_y: u32) -> (r: Result<
        (),
        WorldError,
    >)
        ensures
            self.chunk_in_bounds(chunk_x as int, chunk_y as int) ==> r == Ok::<(), WorldError>(()),
            !self.chunk_in_bounds(chunk_x as int, chunk_y as int) ==> r == Err::<(), WorldError>(
                WorldError::OutOfBoundsChunk(chunk_x, chunk_y),
            ),
    {
        if chunk_x >= self.width_chunks || chunk_y >= self.height_chunks {
            Err(WorldError::OutOfBoundsChunk(chunk_x, chunk_y))
        } else {
            Ok(())
        }
    }

    /// Fails with the block position if it is outside the world.
    pub fn check_out_of_bounds_block(&self, x: u32, y: u32) -> (r: Result<(), WorldError>)
        ensures
            self.in_bounds(x as int, y as int) ==> r == Ok::<(), WorldError>(()),
            !self.in_bounds(x as int, y as int) ==> r == Err::<(), WorldError>(
                WorldError::OutOfBoundsBlock(x, y),
            ),
    {
        if x >= self.width || y >= self.height {
            Err(WorldError::OutOfBoundsBlock(x, y))
        } else {
            Ok(())
        }
    }

    /// The chunk coordinates of the chunk that holds the cell
    /// `(pos_x, pos_y)`.
    pub fn get_chunk_block_is_in(&self, pos_x: u32, pos_y: u32) -> (r: Result<
        (u32, u32),
        WorldError,
    >)
        requires
            self.grid_wf(),
        ensures
            self.in_bounds(pos_x as int, pos_y as int) ==> (r matches Ok(c) && (
                c.0 as int,
                c.1 as int,
            ) == self.chunk_of(pos_x as int, pos_y as int) && self.chunk_in_bounds(
                c.0 as int,
                c.1 as int,
            )),
            !self.in_bounds(pos_x as int, pos_y as int) ==> r == Err::<(u32, u32), WorldError>(
                WorldError::OutOfBoundsBlock(pos_x, pos_y),
            ),
    {
        if pos_x >= self.width || pos_y >= self.height {
            return Err(WorldError::OutOfBoundsBlock(pos_x, pos_y));
        }
        proof {
            self.lemma_cell_in_chunk(pos_x as int, pos_y as int);
        }
        let chunk_x: u32 = pos_x / self.chunk_size;
        let chunk_y: u32 = pos_y / self.chunk_size;
        Ok((chunk_x, chunk_y))
    }

    /// Where the chunk `(chunk_x, chunk_y)` stands in the list of chunks.
    pub fn chunk_slot(&self, chunk_x: u32, chunk_y: u32) -> (i: usize)
        requires
            self.grid_wf(),
            self.chunk_in_bounds(chunk_x as int, chunk_y as int),
        ensures
            i == self.chunk_index(chunk_x as int, chunk_y as int),
            i < self.chunks@.len(),
    {
        proof {
            self.lemma_chunk_in_list(chunk_x as int, chunk_y as int);
            assert(self.chunk_count() <= self.width * self.height) by (nonlinear_arith)
                requires
                    self.width == self.width_chunks * self.chunk_size,
                    self.height == self.height_chunks * self.chunk_size,
                    self.chunk_size >= 1,
                    self.chunk_count() == self.width_chunks * self.height_chunks,
            ;
        }
        (chunk_y * self.width_chunks + chunk_x) as usize
    }

    /// The chunk `(chunk_x, chunk_y)`.
    pub fn get_chunk(&self, chunk_x: u32, chunk_y: u32) -> (r: Result<&Chunk, WorldError>)
        requires
            self.grid_wf(),
        ensures
            self.chunk_in_bounds(chunk_x as int, chunk_y as int) ==> (r matches Ok(c) && *c
                == self.chunk_at(chunk_x as int, chunk_y as int) && c.wf() && c.size
                == self.chunk_size && c.chunk_x == chunk_x && c.chunk_y == chunk_y),
            !self.chunk_in_bounds(chunk_x as int, chunk_y as int) ==> (r matches Err(e) && e
                == WorldError::OutOfBoundsChunk(chunk_x, chunk_y)),
    {
        if chunk_x >= self.width_chunks || chunk_y >= self.height_chunks {
            return Err(WorldError::OutOfBoundsChunk(chunk_x, chunk_y));
        }
        proof {
            self.lemma_chunk_in_list(chunk_x as int, chunk_y as int);
        }
        let i: usize = self.chunk_slot(chunk_x, chunk_y);
        Ok(&self.chunks[i])
    }

    /// The chunk `(chunk_x, chunk_y)`, to be changed in place. Whoever
    /// changes it answers for the soundness of the grid afterwards.
    pub fn get_chunk_mut(&mut self, chunk_x: u32, chunk_y: u32) -> (r: Result<&mut Chunk, WorldError>)
        requires
            old(self).grid_wf(),
        ensures
            old(self).chunk_in_bounds(chunk_x as int, chunk_y as int) ==> (r matches Ok(c) && *c
                == old(self).chunk_at(chunk_x as int, chunk_y as int) && final(self).chunks@
                == old(self).chunks@.update(
                old(self).chunk_index(chunk_x as int, chunk_y as int),
                *final(c),
            ) && *final(self) == (World { chunks: final(self).chunks, ..*old(self) })),
            !old(self).chunk_in_bounds(chunk_x as int, chunk_y as int) ==> (r matches Err(e) && e
                == WorldError::OutOfBoundsChunk(chunk_x, chunk_y)) && *final(self) == *old(self),
    {
        if chunk_x >= self.width_chunks || chunk_y >= self.height_chunks {
            return Err(WorldError::OutOfBoundsChunk(chunk_x, chunk_y));
        }
        let i: usize = self.chunk_slot(chunk_x, chunk_y);
        Ok(&mut self.chunks[i])
    }

    /// The block in the cell `(pos_x, pos_y)`.
    pub fn get_block(&self, pos_x: u32, pos_y: u32) -> (r: Result<Block, WorldError>)
        requires
            self.grid_wf(),
        ensures
            self.in_bounds(pos_x as int, pos_y as int) ==> r == Ok::<Block, WorldError>(
                self.block_at(pos_x as int, pos_y as int),
            ),
            !self.in_bounds(pos_x as int, pos_y as int) ==> r == Err::<Block, WorldError>(
                WorldError::OutOfBoundsBlock(pos_x, pos_y),
            ),
    {
        if pos_x >= self.width || pos_y >= self.height {
            return Err(WorldError::OutOfBoundsBlock(pos_x, pos_y));
        }
        proof {
            self.lemma_cell_in_chunk(pos_x as int, pos_y as int);
            self.lemma_chunk_read(pos_x as int, pos_y as int);
        }
        let chunk_x: u32 = pos_x / self.chunk_size;
        let chunk_y: u32 = pos_y / self.chunk_size;
        let inside_x: u32 = pos_x - chunk_x * self.chunk_size;
        let inside_y: u32 = pos_y - chunk_y * self.chunk_size;
        let i: usize = self.chunk_slot(chunk_x, chunk_y);
        Ok(self.chunks[i].get_block(inside_x, inside_y))
    }

    /// Writes `block` into the cell `(pos_x, pos_y)` and touches nothing
    /// else: no other cell, no queue.
    pub fn raw_set_block(&mut self, pos_x: u32, pos_y: u32, block: Block) -> (r: Result<
        (),
        WorldError,
    >)
        requires
            old(self).grid_wf(),
        ensures
            old(self).in_bounds(pos_x as int, pos_y as int) ==> r == Ok::<(), WorldError>(())
                && final(self).is_write_of(*old(self), pos_x as int, pos_y as int, block),
            !old(self).in_bounds(pos_x as int, pos_y as int) ==> r == Err::<(), WorldError>(
                WorldError::OutOfBoundsBlock(pos_x, pos_y),
            ) && *final(self) == *old(self),
            final(self).same_state(*old(self)),
            final(self).grid_wf(),
            old(self).wf() ==> final(self).wf(),
    {
        if pos_x >= self.width || pos_y >= self.height {
            return Err(WorldError::OutOfBoundsBlock(pos_x, pos_y));
        }
        proof {
            self.lemma_cell_in_chunk(pos_x as int, pos_y as int);
        }
        let chunk_x: u32 = pos_x / self.chunk_size;
        let chunk_y: u32 = pos_y / self.chunk_size;
        let pos_inside_chunk_x: u32 = pos_x - chunk_x * self.chunk_size;
        let pos_inside_chunk_y: u32 = pos_y - chunk_y * self.chunk_size;
        let i: usize = self.chunk_slot(chunk_x, chunk_y);
        self.chunks[i].set_block(pos_inside_chunk_x, pos_inside_chunk_y, block);
        proof {
            self.lemma_written(*old(self), pos_x as int, pos_y as int, block);
        }
        Ok(())
    }

    /// A world that differs from a sound one only in one block of one chunk,
    /// the one that holds the cell `(x, y)`, is that world with the cell
    /// written.
    proof fn lemma_written(&self, before: World, x: int, y: int, block: Block)
        requires
            before.grid_wf(),
            before.in_bounds(x, y),
            self.same_shape(before),
            self.chunks@.len() == before.chunks@.len(),
            ({
                let s = before.chunk_size as int;
                let ci = before.chunk_index(x / s, y / s);
                &&& forall|k: int|
                    0 <= k < before.chunks@.len() && k != ci ==> self.chunks@[k]
                        == before.chunks@[k]
                &&& self.chunks@[ci].wf()
                &&& self.chunks@[ci].size == before.chunks@[ci].size
                &&& self.chunks@[ci].chunk_x == before.chunks@[ci].chunk_x
                &&& self.chunks@[ci].chunk_y == before.chunks@[ci].chunk_y
                &&& self.chunks@[ci].blocks@ == before.chunks@[ci].blocks@.update(
                    flat_index(x % s, y % s, s),
                    block,
                )
            }),
        ensures
            self.is_write_of(before, x, y, block),
    {
        let s = before.chunk_size as int;
        let wc = before.width_chunks as int;
        let ci = before.chunk_index(x / s, y / s);
        before.lemma_cell_in_chunk(x, y);
        lemma_flat_index_bound(x % s, y % s, s, s);
        assert(self.grid_wf()) by {
            assert forall|k: int| 0 <= k < self.chunks@.len() implies {
                &&& (#[trigger] self.chunks@[k]).wf()
                &&& self.chunks@[k].size == self.chunk_size
                &&& self.chunks@[k].chunk_x == k % (self.width_chunks as int)
                &&& self.chunks@[k].chunk_y == k / (self.width_chunks as int)
            } by {
                assert(before.chunks@[k].wf());
            }
        }
        assert forall|i: int, j: int| before.in_bounds(i, j) implies #[trigger] self.block_at(i, j)
            == (if i == x && j == y {
            block
        } else {
            before.block_at(i, j)
        }) by {
            before.lemma_cell_in_chunk(i, j);
            lemma_flat_index_bound(i % s, j % s, s, s);
            let cj = before.chunk_index(i / s, j / s);
            if cj == ci {
                lemma_chunk_split(i, s, wc);
                lemma_chunk_split(x, s, wc);
                lemma_chunk_split(j, s, before.height_chunks as int);
                lemma_chunk_split(y, s, before.height_chunks as int);
                lemma_flat_index_injective(i / s, j / s, x / s, y / s, wc);
                if flat_index(i % s, j % s, s) == flat_index(x % s, y % s, s) {
                    lemma_flat_index_injective(i % s, j % s, x % s, y % s, s);
                }
            }
        }
    }
}

/// A world with the chunks of a sound world and the same sizes has a sound
/// grid with the same blocks.
pub proof fn lemma_same_chunks_same_grid(before: World, after: World)
    requires
        after.chunks == before.chunks,
        after.same_shape(before),
    ensures
        before.grid_wf() ==> after.grid_wf(),
        forall|x: int, y: int| after.block_at(x, y) == before.block_at(x, y),
{
}

} // verus!
