//! Biomes and the generation of terrain, one chunk at a time.

use crate::blocks::{Block, BlockType, NaturalBackground};
use crate::coords::{biome_at, x_to_biome};
use crate::noise::{coordinate_hash, hash_position};
use vstd::prelude::*;

verus! {

/// The number of rows of the world. Row 0 is the top.
pub const WORLD_HEIGHT: usize = 2048;

/// Heights and slopes are fixed-point numbers: this many parts make one row.
pub const UNIT: i64 = 1_000_000;

/// The largest value of a hash of the terrain's noise, halved: the hash that
/// stands for no push at all.
pub const HASH_MIDDLE: i64 = 2_147_483_647;

/// The kind of landscape of a group of chunks.
#[derive(Debug, Clone, Copy, PartialEq, Eq, Structural)]
pub enum Biome {
    Hills,
    Grassland,
    TemperateBroadleafForest,
}

impl Biome {
    /// How hard the noise pushes the slope at each column, in parts of a row.
    pub open spec fn frequency(self) -> int {
        match self {
            Biome::Hills => 200_000,
            Biome::Grassland => 60_000,
            Biome::TemperateBroadleafForest => 80_000,
        }
    }

    /// The steepest slope that the noise alone can reach, in parts of a row
    /// per column.
    pub open spec fn max_slope(self) -> int {
        match self {
            Biome::Hills => 900_000,
            Biome::Grassland => 500_000,
            Biome::TemperateBroadleafForest => 700_000,
        }
    }

    /// The band of heights that the terrain is drawn back to: its least and
    /// its greatest height, in parts of a row.
    pub open spec fn height_band(self) -> (int, int) {
        (30_000_000, 40_000_000)
    }

    /// One column in this many may carry a tree.
    pub open spec fn tree_prob(self) -> int {
        match self {
            Biome::Hills => 50,
            Biome::Grassland => 32,
            Biome::TemperateBroadleafForest => 10,
        }
    }

    /// How hard the noise pushes the slope at each column.
    pub fn get_frequency(&self) -> (frequency: i64)
        ensures
            frequency == self.frequency(),
    {
        match self {
            Biome::Hills => 200_000,
            Biome::Grassland => 60_000,
            Biome::TemperateBroadleafForest => 80_000,
        }
    }

    /// The steepest slope that the noise alone can reach.
    pub fn get_max_slope(&self) -> (max_slope: i64)
        ensures
            max_slope == self.max_slope(),
    {
        match self {
            Biome::Hills => 900_000,
            Biome::Grassland => 500_000,
            Biome::TemperateBroadleafForest => 700_000,
        }
    }

    /// The band of heights that the terrain is drawn back to.
    pub fn get_height(&self) -> (band: (i64, i64))
        ensures
            band.0 == self.height_band().0,
            band.1 == self.height_band().1,
    {
        (30_000_000, 40_000_000)
    }

    /// One column in this many may carry a tree.
    pub fn get_tree_prob(&self) -> (tree_prob: u16)
        ensures
            tree_prob == self.tree_prob(),
    {
        match self {
            Biome::Hills => 50,
            Biome::Grassland => 32,
            Biome::TemperateBroadleafForest => 10,
        }
    }
}

/// `v`, or the nearer of `low` and `high` where it lies outside them.
pub open spec fn clamp(v: int, low: int, high: int) -> int {
    if v < low {
        low
    } else if v > high {
        high
    } else {
        v
    }
}

impl Biome {
    /// The push that a hash gives the slope: the hash, taken as a number
    /// between -1 and 1, times the frequency.
    pub open spec fn noise(self, hash: int) -> int {
        hash * self.frequency() / (HASH_MIDDLE as int) - self.frequency()
    }

    /// Whether `height` lies below the band of heights, so that the slope is
    /// to be raised; ten rows below it a steep negative slope is reason
    /// enough.
    pub open spec fn below_band(self, height: int, slope: int) -> bool {
        (height < self.height_band().0 - 10 * UNIT && slope < -400_000) || height
            < self.height_band().0
    }

    /// Whether `height` lies above the band of heights, so that the slope is
    /// to be lowered; ten rows above it a steep positive slope is reason
    /// enough.
    pub open spec fn above_band(self, height: int, slope: int) -> bool {
        (height > self.height_band().1 + 10 * UNIT && slope > 400_000) || height
            > self.height_band().1
    }

    /// The slope at the next column: pushed by the noise, held within the
    /// steepest slope, then corrected by a third of the frequency towards
    /// the band where the height has left it.
    pub open spec fn next_slope(self, height: int, slope: int, hash: int) -> int {
        let pushed = clamp(slope + self.noise(hash), -self.max_slope(), self.max_slope());
        let raised = if self.below_band(height, pushed) {
            pushed + self.frequency() / 3
        } else {
            pushed
        };
        if self.above_band(height, raised) {
            raised - self.frequency() / 3
        } else {
            raised
        }
    }

    /// The height at the next column: the height moved by the new slope. A
    /// height at either end of the machine's range stays there.
    pub open spec fn next_height(self, height: int, slope: int, hash: int) -> int {
        clamp(height + self.next_slope(height, slope, hash), i64::MIN as int, i64::MAX as int)
    }

    /// Whether a column carries a tree: its own hash is a multiple of the
    /// tree probability and that of the column to its left is not.
    pub open spec fn has_tree(self, hash: int, left_hash: int) -> bool {
        hash % self.tree_prob() == 0 && left_hash % self.tree_prob() != 0
    }

    /// Moves `height` and `slope` on by one column, the noise being `hash`.
    pub fn advance(&self, height: &mut i64, slope: &mut i64, hash: u32)
        ensures
            *final(slope) == self.next_slope(*old(height) as int, *old(slope) as int, hash as int),
            *final(height) == self.next_height(*old(height) as int, *old(slope) as int, hash as int),
    {
        let frequency = self.get_frequency();
        let max_slope = self.get_max_slope();
        let band = self.get_height();
        let scaled: i64 = (hash as i64) * frequency;
        let noise: i64 = scaled / HASH_MIDDLE - frequency;
        assert(-frequency <= noise <= frequency) by {
            assert(0 <= scaled <= 4_294_967_295 * frequency) by (nonlinear_arith)
                requires
                    scaled == (hash as i64) * frequency,
                    0 <= hash <= 4_294_967_295,
                    0 <= frequency,
            ;
        }
        let mut s: i64 = if *slope >= max_slope + frequency {
            max_slope
        } else if *slope <= -max_slope - frequency {
            -max_slope
        } else {
            let sum = *slope + noise;
            if sum > max_slope {
                max_slope
            } else if sum < -max_slope {
                -max_slope
            } else {
                sum
            }
        };
        if (*height < band.0 - 10 * UNIT && s < -400_000) || *height < band.0 {
            s += frequency / 3;
        }
        if (*height > band.1 + 10 * UNIT && s > 400_000) || *height > band.1 {
            s -= frequency / 3;
        }
        *slope = s;
        *height = if s >= 0 {
            if *height > i64::MAX - s {
                i64::MAX
            } else {
                *height + s
            }
        } else {
            if *height < i64::MIN - s {
                i64::MIN
            } else {
                *height + s
            }
        };
    }

    /// Whether a column carries a tree, from its hash and that of the column
    /// to its left.
    pub fn grows_tree(&self, hash: u32, left_hash: u32) -> (tree: bool)
        ensures
            tree == self.has_tree(hash as int, left_hash as int),
    {
        let tree_prob: u32 = self.get_tree_prob() as u32;
        hash % tree_prob == 0 && left_hash % tree_prob != 0
    }
}

/// The row of the surface for a height: the height rounded down to a whole
/// row, and row 0 for a height above the world.
pub open spec fn surface_row(height: int) -> int {
    if height < 0 {
        0
    } else {
        height / (UNIT as int)
    }
}

/// The block at row `y` of a fresh column whose surface is at row `surface`:
/// air in front of the sky above the surface, grass at the surface, dirt
/// below it, and a tree in the cell just above the surface where the column
/// carries one and the surface is not the top row.
pub open spec fn terrain_block(surface: int, tree: bool, y: int) -> Block {
    if tree && surface > 0 && y == surface - 1 {
        Block {
            block_type: BlockType::Tree,
            natural_background: NaturalBackground::Dirt,
            light: 0,
            water: 0,
        }
    } else if y < surface {
        Block::air()
    } else if y == surface {
        Block {
            block_type: BlockType::Grass,
            natural_background: NaturalBackground::Dirt,
            light: 0,
            water: 0,
        }
    } else {
        Block {
            block_type: BlockType::Dirt,
            natural_background: NaturalBackground::Dirt,
            light: 0,
            water: 0,
        }
    }
}

/// The world column of the `i`-th column that a generation visits.
pub open spec fn visited_x(origin_x: int, left_to_right: bool, i: int) -> int {
    if left_to_right {
        origin_x + i
    } else {
        origin_x - i
    }
}

/// Height and slope after `n` columns of a generation that starts at
/// `origin_x` with `height` and `slope`.
pub open spec fn walk(
    biome: Biome,
    height: int,
    slope: int,
    origin_x: int,
    left_to_right: bool,
    n: nat,
) -> (int, int)
    decreases n,
{
    if n == 0 {
        (height, slope)
    } else {
        let before = walk(biome, height, slope, origin_x, left_to_right, (n - 1) as nat);
        let hash = coordinate_hash(visited_x(origin_x, left_to_right, n - 1));
        (biome.next_height(before.0, before.1, hash), biome.next_slope(before.0, before.1, hash))
    }
}

/// The block at row `y` of the `i`-th column that a generation visits.
pub open spec fn visited_block(
    height: int,
    slope: int,
    origin_x: int,
    left_to_right: bool,
    i: int,
    y: int,
) -> Block {
    let biome = biome_at(origin_x);
    let x = visited_x(origin_x, left_to_right, i);
    terrain_block(
        surface_row(walk(biome, height, slope, origin_x, left_to_right, (i + 1) as nat).0),
        biome.has_tree(coordinate_hash(x), coordinate_hash(x - 1)),
        y,
    )
}

/// The block at row `y` of column `column` of a generated chunk. Columns are
/// stored from left to right, whichever way the generation went.
pub open spec fn generated_block(
    height: int,
    slope: int,
    origin_x: int,
    left_to_right: bool,
    column: int,
    y: int,
) -> Block {
    let i = if left_to_right {
        column
    } else {
        31 - column
    };
    visited_block(height, slope, origin_x, left_to_right, i, y)
}

/// A slice of the world, 32 columns wide, with the state of the generation
/// at its left and right edge, each a height and a slope.
pub struct Chunk {
    pub blocks: Vec<[Block; 2048]>,
    pub left_config: (i64, i64),
    pub right_config: (i64, i64),
}

/// The block at row `y` of a fresh column: see [`terrain_block`].
pub fn fresh_block(surface: i64, tree: bool, y: usize) -> (block: Block)
    requires
        y < WORLD_HEIGHT,
    ensures
        block == terrain_block(surface as int, tree, y as int),
{
    let row: i64 = y as i64;
    if tree && surface > 0 && row == surface - 1 {
        Block {
            block_type: BlockType::Tree,
            natural_background: NaturalBackground::Dirt,
            light: 0,
            water: 0,
        }
    } else if row < surface {
        Block {
            block_type: BlockType::Air,
            natural_background: NaturalBackground::Sky,
            light: 0,
            water: 0,
        }
    } else if row == surface {
        Block {
            block_type: BlockType::Grass,
            natural_background: NaturalBackground::Dirt,
            light: 0,
            water: 0,
        }
    } else {
        Block {
            block_type: BlockType::Dirt,
            natural_background: NaturalBackground::Dirt,
            light: 0,
            water: 0,
        }
    }
}

/// A fresh column whose surface is at row `surface`.
pub fn fresh_column(surface: i64, tree: bool) -> (column: [Block; 2048])
    ensures
        forall|y: int| 0 <= y < WORLD_HEIGHT ==> column[y] == terrain_block(surface as int, tree, y),
{
    let mut column = [Block {
        block_type: BlockType::Dirt,
        natural_background: NaturalBackground::Dirt,
        light: 0,
        water: 0,
    }; 2048];
    let mut y: usize = 0;
    while y < WORLD_HEIGHT
        invariant
            y <= WORLD_HEIGHT,
            forall|j: int| 0 <= j < y ==> column[j] == terrain_block(surface as int, tree, j),
        decreases WORLD_HEIGHT - y,
    {
        column[y] = fresh_block(surface, tree, y);
        y += 1;
    }
    column
}

impl Chunk {
    /// A chunk has 32 columns.
    pub open spec fn wf(&self) -> bool {
        self.blocks.len() == 32
    }

    /// The block at row `y` of column `column`.
    pub open spec fn block(&self, column: int, y: int) -> Block {
        self.blocks[column][y]
    }

    /// Generates the chunk whose generation starts at the world column
    /// `origin_x` and visits 32 columns, to the right or to the left, from
    /// the given `height` and `slope`, which are left as they stand after
    /// the last column. The biome is that of `origin_x`.
    pub fn generate(height: &mut i64, slope: &mut i64, left_to_right: bool, origin_x: isize) -> (chunk: Chunk)
        ensures
            chunk.wf(),
            forall|column: int, y: int|
                0 <= column < 32 && 0 <= y < WORLD_HEIGHT ==> #[trigger] chunk.block(column, y)
                    == generated_block(
                    *old(height) as int,
                    *old(slope) as int,
                    origin_x as int,
                    left_to_right,
                    column,
                    y,
                ),
            (*final(height) as int, *final(slope) as int) == walk(
                biome_at(origin_x as int),
                *old(height) as int,
                *old(slope) as int,
                origin_x as int,
                left_to_right,
                32,
            ),
            chunk.left_config == if left_to_right {
                (*old(height), *old(slope))
            } else {
                (*final(height), *final(slope))
            },
            chunk.right_config == if left_to_right {
                (*final(height), *final(slope))
            } else {
                (*old(height), *old(slope))
            },
    {
        let begin_config: (i64, i64) = (*height, *slope);
        let biome = x_to_biome(origin_x);
        let mut x: i128 = origin_x as i128;
        let mut visited: Vec<[Block; 2048]> = Vec::new();
        let mut i: usize = 0;
        while i < 32
            invariant
                i <= 32,
                biome == biome_at(origin_x as int),
                x == visited_x(origin_x as int, left_to_right, i as int),
                visited.len() == i,
                (*height as int, *slope as int) == walk(
                    biome,
                    begin_config.0 as int,
                    begin_config.1 as int,
                    origin_x as int,
                    left_to_right,
                    i as nat,
                ),
                forall|k: int, y: int|
                    0 <= k < i && 0 <= y < WORLD_HEIGHT ==> #[trigger] visited[k][y]
                        == visited_block(
                        begin_config.0 as int,
                        begin_config.1 as int,
                        origin_x as int,
                        left_to_right,
                        k,
                        y,
                    ),
            decreases 32 - i,
        {
            let hash = hash_position(x);
            let left_hash = hash_position(x - 1);
            biome.advance(height, slope, hash);
            let tree = biome.grows_tree(hash, left_hash);
            let surface: i64 = if *height < 0 {
                0
            } else {
                *height / UNIT
            };
            let column = fresh_column(surface, tree);
            visited.push(column);
            if left_to_right {
                x += 1;
            } else {
                x -= 1;
            }
            i += 1;
        }
        let end_config: (i64, i64) = (*height, *slope);
        if left_to_right {
            Chunk { blocks: visited, left_config: begin_config, right_config: end_config }
        } else {
            let blocks = reversed(&visited);
            Chunk { blocks, left_config: end_config, right_config: begin_config }
        }
    }
}

/// The magnitude of `v`.
pub open spec fn magnitude(v: int) -> int {
    if v < 0 {
        -v
    } else {
        v
    }
}

impl Biome {
    /// The longest step that the height can take from one column to the
    /// next: the steepest slope and one correction towards the band.
    pub open spec fn max_step(self) -> int {
        self.max_slope() + self.frequency() / 3
    }

    /// Whether `height` lies inside the band, where no correction applies.
    pub open spec fn in_band(self, height: int) -> bool {
        self.height_band().0 <= height <= self.height_band().1
    }
}

/// From one column to the next the height moves by no more than the
/// biome's longest step, whatever the noise, and by no more than its
/// steepest slope where the height lies inside the band. Either is less
/// than a row, so the surface moves by one row at most.
pub proof fn lemma_step_bounded(biome: Biome, height: int, slope: int, hash: int)
    requires
        i64::MIN <= height <= i64::MAX,
    ensures
        magnitude(biome.next_slope(height, slope, hash)) <= biome.max_step(),
        magnitude(biome.next_height(height, slope, hash) - height) <= biome.max_step(),
        biome.in_band(height) ==> magnitude(biome.next_height(height, slope, hash) - height)
            <= biome.max_slope(),
        biome.max_step() < UNIT,
        magnitude(surface_row(biome.next_height(height, slope, hash)) - surface_row(height)) <= 1,
{
}

/// Seam continuity. Where a second generation goes on from the height and
/// slope that a first one ended with, the height of its first column lies
/// within one longest step of the height of the first one's last column:
/// the seam between two chunks is no rougher than the terrain inside one.
/// Inside the band the step is bounded by the steepest slope alone.
pub proof fn lemma_seam_continuity(
    height: int,
    slope: int,
    origin_x: int,
    next_origin_x: int,
    left_to_right: bool,
)
    ensures
        ({
            let second = biome_at(next_origin_x);
            let end = walk(biome_at(origin_x), height, slope, origin_x, left_to_right, 32);
            let begin = walk(second, end.0, end.1, next_origin_x, left_to_right, 1);
            &&& magnitude(begin.0 - end.0) <= second.max_step()
            &&& second.in_band(end.0) ==> magnitude(begin.0 - end.0) <= second.max_slope()
            &&& magnitude(surface_row(begin.0) - surface_row(end.0)) <= 1
        }),
{
    let second = biome_at(next_origin_x);
    let end = walk(biome_at(origin_x), height, slope, origin_x, left_to_right, 32);
    let hash = coordinate_hash(visited_x(next_origin_x, left_to_right, 0));
    assert(i64::MIN <= end.0 <= i64::MAX);
    assert(walk(second, end.0, end.1, next_origin_x, left_to_right, 0) == end);
    assert(walk(second, end.0, end.1, next_origin_x, left_to_right, 1) == (
        second.next_height(end.0, end.1, hash),
        second.next_slope(end.0, end.1, hash),
    )) by {
        reveal_with_fuel(walk, 2);
    }
    lemma_step_bounded(second, end.0, end.1, hash);
}

/// The columns in the opposite order.
fn reversed(columns: &Vec<[Block; 2048]>) -> (turned: Vec<[Block; 2048]>)
    ensures
        turned.len() == columns.len(),
        forall|i: int| 0 <= i < columns.len() ==> turned[i] == columns[columns.len() - 1 - i],
{
    let mut turned: Vec<[Block; 2048]> = Vec::new();
    let mut i: usize = 0;
    while i < columns.len()
        invariant
            i <= columns.len(),
            turned.len() == i,
            forall|k: int| 0 <= k < i ==> turned[k] == columns[columns.len() - 1 - k],
        decreases columns.len() - i,
    {
        turned.push(columns[columns.len() - 1 - i]);
        i += 1;
    }
    turned
}

} // verus!
