//! The block catalog: wire ids, solidity, hardness and drops.

use vstd::prelude::*;
use vstd::std_specs::convert::FromSpecImpl;
use crate::item::Item;

verus! {

/// The kinds of block a world cell can hold.
#[derive(Clone, Copy, Debug, PartialEq, Eq, Hash, Structural)]
pub enum Block {
    Air,
    Grass,
    Stone,
    Wood,
    Leaves,
    Water,
    Ore,
}

/// The catalog entry of a block kind.
#[derive(Clone, Copy, Debug, PartialEq, Eq, Structural)]
pub struct BlockProperties {
    /// Whether players and fluids are stopped by the block.
    pub solid: bool,
    /// What a player receives for breaking the block.
    pub item: Option<Item>,
    /// The breaking power a tool needs to break the block.
    pub hardness: u8,
}

/// The stable wire id of a block kind.
pub open spec fn block_id(block: Block) -> u8 {
    match block {
        Block::Air => 0,
        Block::Grass => 1,
        Block::Stone => 2,
        Block::Wood => 3,
        Block::Leaves => 4,
        Block::Water => 5,
        Block::Ore => 6,
    }
}

/// The block kind a wire id stands for; unknown ids stand for air.
pub open spec fn block_of_id(id: u8) -> Block {
    if id == 1 {
        Block::Grass
    } else if id == 2 {
        Block::Stone
    } else if id == 3 {
        Block::Wood
    } else if id == 4 {
        Block::Leaves
    } else if id == 5 {
        Block::Water
    } else if id == 6 {
        Block::Ore
    } else {
        Block::Air
    }
}

/// The catalog, as a mathematical function.
pub open spec fn block_properties(block: Block) -> BlockProperties {
    match block {
        Block::Air => BlockProperties { solid: false, item: None, hardness: 0 },
        Block::Grass => BlockProperties { solid: true, item: Some(Item::Grass), hardness: 0 },
        Block::Stone => BlockProperties { solid: true, item: Some(Item::Stone), hardness: 1 },
        Block::Wood => BlockProperties { solid: true, item: Some(Item::Wood), hardness: 0 },
        Block::Leaves => BlockProperties { solid: true, item: Some(Item::Leaves), hardness: 0 },
        Block::Water => BlockProperties {
            solid: false,
            item: Some(Item::WaterBucket),
            hardness: 0,
        },
        Block::Ore => BlockProperties { solid: true, item: Some(Item::Ore), hardness: 2 },
    }
}

/// Whether a block kind is solid.
pub open spec fn solid(block: Block) -> bool {
    block_properties(block).solid
}

impl Block {
    /// The catalog entry of this block kind.
    pub fn properties(self) -> (p: BlockProperties)
        ensures
            p == block_properties(self),
    {
        match self {
            Block::Air => BlockProperties { solid: false, item: None, hardness: 0 },
            Block::Grass => BlockProperties { solid: true, item: Some(Item::Grass), hardness: 0 },
            Block::Stone => BlockProperties { solid: true, item: Some(Item::Stone), hardness: 1 },
            Block::Wood => BlockProperties { solid: true, item: Some(Item::Wood), hardness: 0 },
            Block::Leaves => BlockProperties {
                solid: true,
                item: Some(Item::Leaves),
                hardness: 0,
            },
            Block::Water => BlockProperties {
                solid: false,
                item: Some(Item::WaterBucket),
                hardness: 0,
            },
            Block::Ore => BlockProperties { solid: true, item: Some(Item::Ore), hardness: 2 },
        }
    }

    /// The wire id of this block kind.
    pub fn id(self) -> (id: u8)
        ensures
            id == block_id(self),
            block_of_id(id) == self,
    {
        match self {
            Block::Air => 0,
            Block::Grass => 1,
            Block::Stone => 2,
            Block::Wood => 3,
            Block::Leaves => 4,
            Block::Water => 5,
            Block::Ore => 6,
        }
    }

    /// The block kind a wire id stands for; unknown ids stand for air.
    pub fn from_id(id: u8) -> (block: Block)
        ensures
            block == block_of_id(id),
    {
        match id {
            1 => Block::Grass,
            2 => Block::Stone,
            3 => Block::Wood,
            4 => Block::Leaves,
            5 => Block::Water,
            6 => Block::Ore,
            _ => Block::Air,
        }
    }

    /// The breaking power a tool needs to break this block kind.
    pub fn hardness(self) -> (h: u8)
        ensures
            h == block_properties(self).hardness,
    {
        self.properties().hardness
    }

    /// What a player receives for breaking this block kind.
    pub fn drop_item(self) -> (item: Option<Item>)
        ensures
            item == block_properties(self).item,
    {
        self.properties().item
    }
}

/// Whether a block kind is solid.
pub fn is_solid(block: Block) -> (s: bool)
    ensures
        s == solid(block),
{
    block.properties().solid
}

impl From<u8> for Block {
    fn from(id: u8) -> (block: Block) {
        Block::from_id(id)
    }
}

impl FromSpecImpl<u8> for Block {
    open spec fn obeys_from_spec() -> bool {
        true
    }

    open spec fn from_spec(id: u8) -> Block {
        block_of_id(id)
    }
}

impl From<Block> for u8 {
    fn from(block: Block) -> (id: u8) {
        block.id()
    }
}

impl FromSpecImpl<Block> for u8 {
    open spec fn obeys_from_spec() -> bool {
        true
    }

    open spec fn from_spec(block: Block) -> u8 {
        block_id(block)
    }
}

impl From<Block> for Option<Item> {
    fn from(block: Block) -> (item: Option<Item>) {
        block.drop_item()
    }
}

impl FromSpecImpl<Block> for Option<Item> {
    open spec fn obeys_from_spec() -> bool {
        true
    }

    open spec fn from_spec(block: Block) -> Option<Item> {
        block_properties(block).item
    }
}

/// Every block kind survives the trip through its wire id.
pub proof fn lemma_block_id_round_trip(block: Block)
    ensures
        block_of_id(block_id(block)) == block,
{
}

/// Air and water are the only block kinds that are not solid.
pub proof fn lemma_non_solid_blocks(block: Block)
    ensures
        !solid(block) <==> (block == Block::Air || block == Block::Water),
{
}

} // verus!
