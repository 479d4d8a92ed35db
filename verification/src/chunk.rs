//! Chunks: fixed-size squares of blocks, the unit in which the world is
//! stored and streamed to clients.

use vstd::prelude::*;
use crate::block::{block_id, Block};
use crate::grid::{flat_index, lemma_flat_index_bound};

verus! {

/// A square of `size` by `size` blocks, stored row by row from the bottom.
#[derive(Clone, Debug)]
pub struct Chunk {
    pub size: u32,
    pub chunk_x: u32,
    pub chunk_y: u32,
    pub blocks: Vec<Block>,
}

/// A chunk as it travels on the wire: every block by its id.
#[derive(Clone, Debug)]
pub struct NetworkChunk {
    pub size: u32,
    pub chunk_x: u32,
    pub chunk_y: u32,
    pub blocks: Vec<u8>,
}

impl Chunk {
    /// A chunk holds exactly `size * size` blocks, a number that fits 32 bits.
    pub open spec fn wf(&self) -> bool {
        &&& self.size * self.size <= u32::MAX
        &&& self.blocks@.len() == self.size * self.size
    }

    /// Whether `(x, y)` is a cell of the chunk.
    pub open spec fn holds(&self, x: int, y: int) -> bool {
        0 <= x < self.size && 0 <= y < self.size
    }

    /// The block in column `x`, row `y` of the chunk.
    pub open spec fn block_at(&self, x: int, y: int) -> Block {
        self.blocks@[flat_index(x, y, self.size as int)]
    }

    /// A chunk of air.
    pub fn empty(size: u32, chunk_x: u32, chunk_y: u32) -> (c: Chunk)
        requires
            size * size <= u32::MAX,
        ensures
            c.wf(),
            c.size == size,
            c.chunk_x == chunk_x,
            c.chunk_y == chunk_y,
            forall|i: int| 0 <= i < c.blocks@.len() ==> c.blocks@[i] == Block::Air,
    {
        let cells: u32 = size * size;
        let mut blocks: Vec<Block> = Vec::new();
        let mut i: u32 = 0;
        while i < cells
            invariant
                0 <= i <= cells,
                blocks@.len() == i,
                forall|k: int| 0 <= k < i ==> blocks@[k] == Block::Air,
            decreases cells - i,
        {
            blocks.push(Block::Air);
            i = i + 1;
        }
        Chunk { size, chunk_x, chunk_y, blocks }
    }

    /// Writes the block in column `chunk_pos_x`, row `chunk_pos_y`.
    pub fn set_block(&mut self, chunk_pos_x: u32, chunk_pos_y: u32, block: Block)
        requires
            old(self).wf(),
            old(self).holds(chunk_pos_x as int, chunk_pos_y as int),
        ensures
            final(self).wf(),
            final(self).size == old(self).size,
            final(self).chunk_x == old(self).chunk_x,
            final(self).chunk_y == old(self).chunk_y,
            final(self).blocks@ == old(self).blocks@.update(
                flat_index(chunk_pos_x as int, chunk_pos_y as int, old(self).size as int),
                block,
            ),
    {
        proof {
            lemma_flat_index_bound(
                chunk_pos_x as int,
                chunk_pos_y as int,
                self.size as int,
                self.size as int,
            );
        }
        let idx: usize = (chunk_pos_y * self.size + chunk_pos_x) as usize;
        self.blocks[idx] = block;
    }

    /// Reads the block in column `chunk_pos_x`, row `chunk_pos_y`.
    pub fn get_block(&self, chunk_pos_x: u32, chunk_pos_y: u32) -> (block: Block)
        requires
            self.wf(),
            self.holds(chunk_pos_x as int, chunk_pos_y as int),
        ensures
            block == self.block_at(chunk_pos_x as int, chunk_pos_y as int),
    {
        proof {
            lemma_flat_index_bound(
                chunk_pos_x as int,
                chunk_pos_y as int,
                self.size as int,
                self.size as int,
            );
        }
        self.blocks[(chunk_pos_y * self.size + chunk_pos_x) as usize]
    }

    /// The wire form of the chunk.
    pub fn to_network(&self) -> (n: NetworkChunk)
        ensures
            n.describes(*self),
    {
        let mut bytes: Vec<u8> = Vec::new();
        let mut i: usize = 0;
        while i < self.blocks.len()
            invariant
                0 <= i <= self.blocks@.len(),
                bytes@.len() == i,
                forall|k: int| 0 <= k < i ==> bytes@[k] == block_id(self.blocks@[k]),
            decreases self.blocks@.len() - i,
        {
            bytes.push(self.blocks[i].id());
            i = i + 1;
        }
        NetworkChunk {
            size: self.size,
            chunk_x: self.chunk_x,
            chunk_y: self.chunk_y,
            blocks: bytes,
        }
    }
}

impl NetworkChunk {
    /// Whether this is the wire form of `chunk`: the same size and place, and
    /// at every offset the id of the block that the chunk holds there.
    pub open spec fn describes(&self, chunk: Chunk) -> bool {
        &&& self.size == chunk.size
        &&& self.chunk_x == chunk.chunk_x
        &&& self.chunk_y == chunk.chunk_y
        &&& self.blocks@.len() == chunk.blocks@.len()
        &&& forall|i: int|
            0 <= i < chunk.blocks@.len() ==> self.blocks@[i] == block_id(#[trigger] chunk.blocks@[i])
    }
}

} // verus!
