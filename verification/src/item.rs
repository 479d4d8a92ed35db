//! The item catalog and item stacks.

use vstd::prelude::*;
use vstd::std_specs::convert::FromSpecImpl;
use crate::block::Block;
use crate::scalar::Scalar;

verus! {

/// The kinds of item a player can hold: materials, which place a block, and
/// tools.
#[derive(Clone, Copy, Debug, PartialEq, Eq, Hash, Structural)]
pub enum Item {
    Grass,
    Stone,
    Wood,
    Leaves,
    Bucket,
    WaterBucket,
    WoodPickaxe,
    WoodAxe,
    WoodSword,
    Ore,
    OrePickaxe,
    OreAxe,
    OreSword,
}

/// The stable wire id of an item kind.
pub open spec fn item_id(item: Item) -> u8 {
    match item {
        Item::Grass => 0,
        Item::Stone => 1,
        Item::Wood => 2,
        Item::Leaves => 3,
        Item::Bucket => 4,
        Item::WaterBucket => 5,
        Item::WoodPickaxe => 6,
        Item::WoodAxe => 7,
        Item::WoodSword => 8,
        Item::Ore => 9,
        Item::OrePickaxe => 10,
        Item::OreAxe => 11,
        Item::OreSword => 12,
    }
}

/// The item kind a wire id stands for; unknown ids stand for grass.
pub open spec fn item_of_id(id: u8) -> Item {
    if id == 1 {
        Item::Stone
    } else if id == 2 {
        Item::Wood
    } else if id == 3 {
        Item::Leaves
    } else if id == 4 {
        Item::Bucket
    } else if id == 5 {
        Item::WaterBucket
    } else if id == 6 {
        Item::WoodPickaxe
    } else if id == 7 {
        Item::WoodAxe
    } else if id == 8 {
        Item::WoodSword
    } else if id == 9 {
        Item::Ore
    } else if id == 10 {
        Item::OrePickaxe
    } else if id == 11 {
        Item::OreAxe
    } else if id == 12 {
        Item::OreSword
    } else {
        Item::Grass
    }
}

/// The hardest block an item can break.
pub open spec fn item_breaking_power(item: Item) -> u8 {
    match item {
        Item::WoodPickaxe | Item::WoodAxe => 1,
        Item::OrePickaxe | Item::OreAxe => 2,
        _ => 0,
    }
}

/// The block a material places; tools and the empty bucket place nothing.
pub open spec fn item_block(item: Item) -> Option<Block> {
    match item {
        Item::Grass => Some(Block::Grass),
        Item::Stone => Some(Block::Stone),
        Item::Wood => Some(Block::Wood),
        Item::Leaves => Some(Block::Leaves),
        Item::WaterBucket => Some(Block::Water),
        Item::Ore => Some(Block::Ore),
        _ => None,
    }
}

/// The health a hit takes from its target, by what the attacker holds.
pub open spec fn hit_damage(held: Option<Item>) -> Scalar {
    match held {
        Some(Item::WoodSword) => 781_250,
        Some(Item::WoodAxe) | Some(Item::WoodPickaxe) => 546_875,
        Some(_) => 312_500,
        None => 156_250,
    }
}

impl Item {
    /// The wire id of this item kind.
    pub fn id(self) -> (id: u8)
        ensures
            id == item_id(self),
            item_of_id(id) == self,
    {
        match self {
            Item::Grass => 0,
            Item::Stone => 1,
            Item::Wood => 2,
            Item::Leaves => 3,
            Item::Bucket => 4,
            Item::WaterBucket => 5,
            Item::WoodPickaxe => 6,
            Item::WoodAxe => 7,
            Item::WoodSword => 8,
            Item::Ore => 9,
            Item::OrePickaxe => 10,
            Item::OreAxe => 11,
            Item::OreSword => 12,
        }
    }

    /// The item kind a wire id stands for; unknown ids stand for grass.
    pub fn from_id(id: u8) -> (item: Item)
        ensures
            item == item_of_id(id),
    {
        match id {
            1 => Item::Stone,
            2 => Item::Wood,
            3 => Item::Leaves,
            4 => Item::Bucket,
            5 => Item::WaterBucket,
            6 => Item::WoodPickaxe,
            7 => Item::WoodAxe,
            8 => Item::WoodSword,
            9 => Item::Ore,
            10 => Item::OrePickaxe,
            11 => Item::OreAxe,
            12 => Item::OreSword,
            _ => Item::Grass,
        }
    }

    /// The hardest block this item can break.
    pub fn breaking_power(&self) -> (p: u8)
        ensures
            p == item_breaking_power(*self),
    {
        match self {
            Item::WoodPickaxe | Item::WoodAxe => 1,
            Item::OrePickaxe | Item::OreAxe => 2,
            _ => 0,
        }
    }

    /// The block this item places, if it is a material.
    pub fn block(self) -> (b: Option<Block>)
        ensures
            b == item_block(self),
    {
        match self {
            Item::Grass => Some(Block::Grass),
            Item::Stone => Some(Block::Stone),
            Item::Wood => Some(Block::Wood),
            Item::Leaves => Some(Block::Leaves),
            Item::WaterBucket => Some(Block::Water),
            Item::Ore => Some(Block::Ore),
            _ => None,
        }
    }
}

impl From<u8> for Item {
    fn from(id: u8) -> (item: Item) {
        Item::from_id(id)
    }
}

impl FromSpecImpl<u8> for Item {
    open spec fn obeys_from_spec() -> bool {
        true
    }

    open spec fn from_spec(id: u8) -> Item {
        item_of_id(id)
    }
}

impl From<Item> for u8 {
    fn from(item: Item) -> (id: u8) {
        item.id()
    }
}

impl FromSpecImpl<Item> for u8 {
    open spec fn obeys_from_spec() -> bool {
        true
    }

    open spec fn from_spec(item: Item) -> u8 {
        item_id(item)
    }
}

impl From<Item> for Option<Block> {
    fn from(item: Item) -> (b: Option<Block>) {
        item.block()
    }
}

impl FromSpecImpl<Item> for Option<Block> {
    open spec fn obeys_from_spec() -> bool {
        true
    }

    open spec fn from_spec(item: Item) -> Option<Block> {
        item_block(item)
    }
}

/// A pile of identical items occupying one inventory slot.
#[derive(Clone, Copy, Debug, PartialEq, Eq, Structural)]
pub struct ItemStack {
    pub item: Item,
    /// How many items the stack holds; never zero.
    pub count: u8,
}

impl ItemStack {
    /// A stack holds at least one item.
    pub open spec fn wf(&self) -> bool {
        self.count >= 1
    }

    /// A stack of one item.
    pub fn single(item: Item) -> (stack: ItemStack)
        ensures
            stack == (ItemStack { item, count: 1 }),
            stack.wf(),
    {
        ItemStack { item, count: 1 }
    }

    /// The same item with another count.
    pub fn with_count(self, count: u8) -> (stack: ItemStack)
        requires
            count >= 1,
        ensures
            stack == (ItemStack { item: self.item, count }),
            stack.wf(),
    {
        ItemStack { item: self.item, count }
    }
}

impl From<Item> for ItemStack {
    fn from(item: Item) -> (stack: ItemStack) {
        ItemStack::single(item)
    }
}

impl FromSpecImpl<Item> for ItemStack {
    open spec fn obeys_from_spec() -> bool {
        true
    }

    open spec fn from_spec(item: Item) -> ItemStack {
        ItemStack { item, count: 1 }
    }
}

/// An item stack as it travels on the wire.
#[derive(Clone, Copy, Debug, PartialEq, Eq, Structural)]
pub struct NetworkItemStack {
    pub item: u8,
    pub count: u8,
}

/// The wire form of a stack.
pub open spec fn network_stack(stack: ItemStack) -> NetworkItemStack {
    NetworkItemStack { item: item_id(stack.item), count: stack.count }
}

impl From<ItemStack> for NetworkItemStack {
    fn from(stack: ItemStack) -> (wire: NetworkItemStack) {
        NetworkItemStack { item: stack.item.id(), count: stack.count }
    }
}

impl FromSpecImpl<ItemStack> for NetworkItemStack {
    open spec fn obeys_from_spec() -> bool {
        true
    }

    open spec fn from_spec(stack: ItemStack) -> NetworkItemStack {
        network_stack(stack)
    }
}

/// Every item kind survives the trip through its wire id.
pub proof fn lemma_item_id_round_trip(item: Item)
    ensures
        item_of_id(item_id(item)) == item,
{
}

} // verus!
