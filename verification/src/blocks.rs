//! Blocks: the cells of the world grid.

use crate::items::Item;
use vstd::prelude::*;

verus! {

/// The brightest a block can be: the level of a sky-lit cell of the top row.
pub const MAX_LIGHT: usize = 100;

/// What a block is made of.
#[derive(Debug, Clone, Copy, PartialEq, Eq, Structural)]
pub enum BlockType {
    Grass,
    Air,
    Dirt,
    Tree,
}

/// What shows behind a block.
#[derive(Debug, Clone, Copy, PartialEq, Eq, Structural)]
pub enum NaturalBackground {
    Sky,
    Dirt,
}

/// One cell of the grid.
///
/// `light` is the quantized light level, `water` the amount of water in the
/// cell, in parts of a unit.
#[derive(Debug, Clone, Copy, PartialEq, Eq, Structural)]
pub struct Block {
    pub block_type: BlockType,
    pub natural_background: NaturalBackground,
    pub light: usize,
    pub water: usize,
}

impl Block {
    /// A dark, dry block of the given material and background.
    pub fn _new(block_type: BlockType, natural_background: NaturalBackground) -> (block: Block)
        ensures
            block == (Block { block_type, natural_background, light: 0, water: 0 }),
    {
        Block { block_type, natural_background, light: 0, water: 0 }
    }

    /// The block that stands for every cell outside the loaded world:
    /// dark, dry air in front of the sky.
    pub open spec fn air() -> Block {
        Block {
            block_type: BlockType::Air,
            natural_background: NaturalBackground::Sky,
            light: 0,
            water: 0,
        }
    }

    /// Whether an entity can move through this block.
    pub fn can_pass_through(&self) -> (passable: bool)
        ensures
            passable == self.block_type.passable(),
    {
        self.block_type.can_pass_through()
    }

    /// The items that breaking this block yields.
    pub fn as_item(&self) -> (items: Vec<Item>)
        ensures
            items@ == self.block_type.drops(),
    {
        self.block_type.as_item()
    }
}

impl BlockType {
    /// Air and trees let entities through; grass and dirt are solid.
    pub open spec fn passable(self) -> bool {
        self == BlockType::Air || self == BlockType::Tree
    }

    /// The items that a block of this material breaks into, in order.
    pub open spec fn drops(self) -> Seq<Item> {
        match self {
            BlockType::Grass => seq![Item::Dirt],
            BlockType::Dirt => seq![Item::Dirt],
            BlockType::Air => Seq::empty(),
            BlockType::Tree => seq![Item::Log, Item::WoodStick, Item::Foliage],
        }
    }

    /// How much light is lost on entering a block of this material.
    pub open spec fn light_loss(self) -> int {
        match self {
            BlockType::Grass => 6,
            BlockType::Dirt => 10,
            BlockType::Air => 1,
            BlockType::Tree => 1,
        }
    }

    /// Whether an entity can move through a block of this material.
    pub fn can_pass_through(self) -> (passable: bool)
        ensures
            passable == self.passable(),
    {
        match self {
            BlockType::Grass => false,
            BlockType::Dirt => false,
            BlockType::Air => true,
            BlockType::Tree => true,
        }
    }

    /// The items that breaking a block of this material yields.
    pub fn as_item(&self) -> (items: Vec<Item>)
        ensures
            items@ == self.drops(),
    {
        let mut items: Vec<Item> = Vec::new();
        match self {
            BlockType::Grass => {
                items.push(Item::Dirt);
            },
            BlockType::Dirt => {
                items.push(Item::Dirt);
            },
            BlockType::Air => {},
            BlockType::Tree => {
                items.push(Item::Log);
                items.push(Item::WoodStick);
                items.push(Item::Foliage);
            },
        }
        assert(items@ =~= self.drops());
        items
    }

    /// The light lost on entering a block of this material.
    pub fn get_light_loss(&self) -> (loss: usize)
        ensures
            loss == self.light_loss(),
            1 <= loss <= 10,
    {
        match self {
            BlockType::Grass => 6,
            BlockType::Dirt => 10,
            BlockType::Air => 1,
            BlockType::Tree => 1,
        }
    }
}

} // verus!
