//! What the drawing of a cell needs to know of its surroundings: which
//! variant of a texture fits the open sides of a block, and how high the
//! water stands in a cell.

use crate::blocks::{BlockType, NaturalBackground};
use crate::map::{World, WorldMap};
use crate::textures::{get_texture_idx, texture_idx};
use crate::water::WATER_UNIT;
use vstd::prelude::*;

verus! {

/// The water of a cell is drawn no higher than this many pixels.
pub const FULL_WATER_LEVEL: usize = 16;

impl World {
    /// Whether an entity can move through the block at `x`, `y`.
    pub open spec fn passable(self, x: int, y: int) -> bool {
        self.block_at(x, y).block_type.passable()
    }

    /// Whether the sky shows behind the block at `x`, `y`.
    pub open spec fn sky_behind(self, x: int, y: int) -> bool {
        self.block_at(x, y).natural_background == NaturalBackground::Sky
    }

    /// The texture variant of the block at `x`, `y`: that for the sides on
    /// which its neighbour lets entities through, in the order top, right,
    /// bottom, left.
    pub open spec fn block_texture(self, x: int, y: int) -> int {
        texture_idx(
            (
                self.passable(x, y - 1),
                self.passable(x + 1, y),
                self.passable(x, y + 1),
                self.passable(x - 1, y),
            ),
        )
    }

    /// The texture variant of the dirt behind the block at `x`, `y`, if any
    /// shows. It shows where the cell has dirt behind it and is air or a
    /// block with an open side; the variant is that for the sides on which
    /// the neighbour has the sky behind it.
    pub open spec fn background_texture(self, x: int, y: int) -> Option<int> {
        let block = self.block_at(x, y);
        if block.natural_background == NaturalBackground::Dirt && (block.block_type
            == BlockType::Air || self.block_texture(x, y) != 0) {
            Some(
                texture_idx(
                    (
                        self.sky_behind(x, y - 1),
                        self.sky_behind(x + 1, y),
                        self.sky_behind(x, y + 1),
                        self.sky_behind(x - 1, y),
                    ),
                ),
            )
        } else {
            None
        }
    }

    /// How many pixels high the water stands in the cell at `x`, `y`: one
    /// for each whole unit, and no more than [`FULL_WATER_LEVEL`].
    pub open spec fn water_level(self, x: int, y: int) -> int {
        let units = self.water(x, y) / (WATER_UNIT as int);
        if units > FULL_WATER_LEVEL {
            FULL_WATER_LEVEL as int
        } else {
            units
        }
    }
}

impl WorldMap {
    /// The texture variant of the block at `x`, `y`.
    pub fn block_texture(&self, x: isize, y: isize) -> (idx: usize)
        requires
            self.wf(),
            isize::MIN < x < isize::MAX,
            isize::MIN < y < isize::MAX,
        ensures
            idx == self@.block_texture(x as int, y as int),
            idx < 16,
    {
        get_texture_idx(
            (
                self.get(x, y - 1).can_pass_through(),
                self.get(x + 1, y).can_pass_through(),
                self.get(x, y + 1).can_pass_through(),
                self.get(x - 1, y).can_pass_through(),
            ),
        )
    }

    /// The texture variant of the dirt behind the block at `x`, `y`, if any
    /// shows.
    pub fn background_texture(&self, x: isize, y: isize) -> (idx: Option<usize>)
        requires
            self.wf(),
            isize::MIN < x < isize::MAX,
            isize::MIN < y < isize::MAX,
        ensures
            idx is Some <==> self@.background_texture(x as int, y as int) is Some,
            idx is Some ==> idx.unwrap() == self@.background_texture(x as int, y as int).unwrap(),
    {
        let block = self.get(x, y);
        let is_air = match block.block_type {
            BlockType::Air => true,
            _ => false,
        };
        let on_dirt = match block.natural_background {
            NaturalBackground::Dirt => true,
            NaturalBackground::Sky => false,
        };
        if on_dirt && (is_air || self.block_texture(x, y) != 0) {
            Some(
                get_texture_idx(
                    (
                        self.sky_at(x, y - 1),
                        self.sky_at(x + 1, y),
                        self.sky_at(x, y + 1),
                        self.sky_at(x - 1, y),
                    ),
                ),
            )
        } else {
            None
        }
    }

    /// Whether the sky shows behind the block at `x`, `y`.
    fn sky_at(&self, x: isize, y: isize) -> (sky: bool)
        requires
            self.wf(),
        ensures
            sky == self@.sky_behind(x as int, y as int),
    {
        match self.get(x, y).natural_background {
            NaturalBackground::Sky => true,
            NaturalBackground::Dirt => false,
        }
    }

    /// How many pixels high the water stands in the cell at `x`, `y`.
    pub fn water_level(&self, x: isize, y: isize) -> (level: usize)
        requires
            self.wf(),
        ensures
            level == self@.water_level(x as int, y as int),
            level <= FULL_WATER_LEVEL,
    {
        let units = self.get(x, y).water / WATER_UNIT;
        if units > FULL_WATER_LEVEL {
            FULL_WATER_LEVEL
        } else {
            units
        }
    }
}

} // verus!
