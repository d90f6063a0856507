//! The block grid: a window of loaded chunks that follows the player, and
//! the work lists of the simulations that run on it.

use crate::blocks::{Block, BlockType, NaturalBackground};
use crate::chunks::{Chunk, WORLD_HEIGHT};
use crate::coords::{chunk_of, column_of, x_to_chunk_and_column};
use vstd::prelude::*;

verus! {

/// The window of loaded chunks never reaches beyond this many chunks to
/// either side of chunk 0, so that every loaded column, and its neighbours,
/// fit the machine's integers.
pub const CHUNK_LIMIT: isize = 62_500_000;

/// Why a simulation was given up.
#[derive(Debug, Clone, Copy, PartialEq, Eq, Structural)]
pub enum SimulationError {
    /// The light did not come to rest within its cap of steps.
    LightDiverged,
    /// More cells wait for their water to flow than one pass may work on.
    WaterDiverged,
}

/// What a [`WorldMap`] holds, as mathematics: the window, the block of every
/// loaded cell, the generation state at the edges of every chunk, and the
/// work lists.
pub struct World {
    /// The number of the leftmost loaded chunk.
    pub first_chunk: int,
    /// How many chunks are loaded.
    pub chunk_count: int,
    /// The block of every loaded cell, by world column and row.
    pub cells: Map<(int, int), Block>,
    /// For each loaded chunk, from the left, its left and right config.
    pub configs: Seq<((i64, i64), (i64, i64))>,
    /// The row that stands at the top of the view.
    pub first_block: usize,
    /// The cells whose light is to be updated: column, row, and whether
    /// the light is to be taken back rather than grown.
    pub light_update: Seq<(isize, isize, bool)>,
    /// The cells whose water is to flow.
    pub water_update: Seq<(isize, isize)>,
    /// The cells whose light has changed since it was last drawn.
    pub light_to_render: Seq<(isize, isize)>,
    /// The cells whose block is to be drawn again.
    pub block_to_render: Seq<(isize, isize)>,
}

impl World {
    /// The leftmost loaded column.
    pub open spec fn left_edge(self) -> int {
        self.first_chunk * 32
    }

    /// The column just right of the rightmost loaded column.
    pub open spec fn right_edge(self) -> int {
        (self.first_chunk + self.chunk_count) * 32
    }

    /// Whether the cell at column `x` and row `y` is loaded.
    pub open spec fn loaded(self, x: int, y: int) -> bool {
        self.left_edge() <= x < self.right_edge() && 0 <= y < WORLD_HEIGHT
    }

    /// The window holds at least two chunks and lies within the limits, and
    /// the loaded cells are the cells of the window.
    pub open spec fn wf(self) -> bool {
        &&& 2 <= self.chunk_count
        &&& -CHUNK_LIMIT <= self.first_chunk
        &&& self.first_chunk + self.chunk_count <= CHUNK_LIMIT
        &&& self.configs.len() == self.chunk_count
        &&& forall|p: (int, int)| #[trigger] self.cells.dom().contains(p) <==> self.loaded(p.0, p.1)
    }

    /// The block at column `x` and row `y`: that of the cell where it is
    /// loaded, and dark, dry air everywhere else.
    pub open spec fn block_at(self, x: int, y: int) -> Block {
        if self.loaded(x, y) {
            self.cells[(x, y)]
        } else {
            Block::air()
        }
    }

    /// The world with `block` at column `x` and row `y`. Outside the loaded
    /// cells nothing can be written: the world stays as it is.
    pub open spec fn with_block(self, x: int, y: int, block: Block) -> World {
        if self.loaded(x, y) {
            World { cells: self.cells.insert((x, y), block), ..self }
        } else {
            self
        }
    }

    /// The world after the cell at `x`, `y` was marked as to be drawn again,
    /// with those of its four neighbours that are loaded: the cell itself,
    /// then the cells above, below, left and right of it. A cell that is not
    /// loaded marks nothing.
    pub open spec fn invalidated(self, x: int, y: int) -> World {
        if self.loaded(x, y) {
            let q0 = self.block_to_render.push((x as isize, y as isize));
            let q1 = noted(q0, self.loaded(x, y - 1), (x as isize, (y - 1) as isize));
            let q2 = noted(q1, self.loaded(x, y + 1), (x as isize, (y + 1) as isize));
            let q3 = noted(q2, self.loaded(x - 1, y), ((x - 1) as isize, y as isize));
            let q4 = noted(q3, self.loaded(x + 1, y), ((x + 1) as isize, y as isize));
            World { block_to_render: q4, ..self }
        } else {
            self
        }
    }
}

impl World {
    /// Whether this world is `other` but for the block at column `x` and row
    /// `y`.
    pub open spec fn same_but_cell(self, other: World, x: int, y: int) -> bool {
        &&& self.first_chunk == other.first_chunk
        &&& self.chunk_count == other.chunk_count
        &&& self.configs =~= other.configs
        &&& self.first_block == other.first_block
        &&& self.light_update == other.light_update
        &&& self.water_update == other.water_update
        &&& self.light_to_render == other.light_to_render
        &&& self.block_to_render == other.block_to_render
        &&& forall|x2: int, y2: int|
            !(x2 == x && y2 == y) ==> #[trigger] self.block_at(x2, y2) == other.block_at(x2, y2)
    }
}

/// A world that is another but for one cell is that other with the cell
/// written.
pub proof fn lemma_same_but_cell(after: World, before: World, x: int, y: int)
    requires
        before.wf(),
        after.wf(),
        after.same_but_cell(before, x, y),
    ensures
        after == before.with_block(x, y, after.block_at(x, y)),
{
    let written = before.with_block(x, y, after.block_at(x, y));
    assert forall|p: (int, int)| after.cells.dom().contains(p) implies #[trigger] after.cells[p]
        == written.cells[p] by {
        assert(after.block_at(p.0, p.1) == written.block_at(p.0, p.1));
    }
    assert(after.cells =~= written.cells);
}

/// `list` with `position` at its end where it is `wanted`.
pub open spec fn noted(list: Seq<(isize, isize)>, wanted: bool, position: (isize, isize)) -> Seq<
    (isize, isize),
> {
    if wanted {
        list.push(position)
    } else {
        list
    }
}

/// Reading a cell that was just written gives what was written; every other
/// cell reads as before.
pub proof fn lemma_with_block(w: World, x: int, y: int, block: Block, x2: int, y2: int)
    requires
        w.wf(),
    ensures
        w.with_block(x, y, block).wf(),
        w.with_block(x, y, block).block_at(x2, y2) == if x2 == x && y2 == y && w.loaded(x, y) {
            block
        } else {
            w.block_at(x2, y2)
        },
{
}

/// The grid of blocks: the loaded chunks, from the left, with the number of
/// the first one, and the lists of work that is pending.
pub struct WorldMap {
    pub chunks: Vec<Chunk>,
    pub first_chunk_number: isize,
    pub first_block: usize,
    /// What a write outside the loaded cells goes to. Nothing reads it.
    pub air: Block,
    pub light_update: Vec<(isize, isize, bool)>,
    pub water_update: Vec<(isize, isize)>,
    pub light_to_render: Vec<(isize, isize)>,
    pub block_to_render: Vec<(isize, isize)>,
}

impl View for WorldMap {
    type V = World;

    open spec fn view(&self) -> World {
        World {
            first_chunk: self.first_chunk_number as int,
            chunk_count: self.chunks.len() as int,
            cells: Map::new(
                |p: (int, int)|
                    self.first_chunk_number * 32 <= p.0 < (self.first_chunk_number
                        + self.chunks.len()) * 32 && 0 <= p.1 < WORLD_HEIGHT,
                |p: (int, int)|
                    self.chunks[chunk_of(p.0) - self.first_chunk_number].blocks[column_of(p.0)][p.1],
            ),
            configs: Seq::new(
                self.chunks.len() as nat,
                |i: int| (self.chunks[i].left_config, self.chunks[i].right_config),
            ),
            first_block: self.first_block,
            light_update: self.light_update@,
            water_update: self.water_update@,
            light_to_render: self.light_to_render@,
            block_to_render: self.block_to_render@,
        }
    }
}

impl WorldMap {
    /// Every chunk has its 32 columns, and the window holds at least two
    /// chunks and lies within the limits.
    pub open spec fn wf(&self) -> bool {
        &&& 2 <= self.chunks.len()
        &&& -CHUNK_LIMIT <= self.first_chunk_number
        &&& self.first_chunk_number + self.chunks.len() <= CHUNK_LIMIT
        &&& forall|i: int| 0 <= i < self.chunks.len() ==> (#[trigger] self.chunks[i]).wf()
    }

    /// Whether the cell at column `x` and row `y` is loaded.
    pub fn is_loaded(&self, x: isize, y: isize) -> (loaded: bool)
        requires
            self.wf(),
        ensures
            loaded == self@.loaded(x as int, y as int),
    {
        let (chunk, _column) = x_to_chunk_and_column(x);
        let chunk_index = chunk - self.first_chunk_number;
        0 <= y && y < 2048 && 0 <= chunk_index && (chunk_index as usize) < self.chunks.len()
    }

    /// The block at column `x` and row `y`; dark, dry air where no cell is
    /// loaded.
    pub fn get(&self, x: isize, y: isize) -> (block: Block)
        requires
            self.wf(),
        ensures
            block == self@.block_at(x as int, y as int),
    {
        let (chunk, column) = x_to_chunk_and_column(x);
        let chunk_index = chunk - self.first_chunk_number;
        if 0 <= y && y < 2048 && 0 <= chunk_index && (chunk_index as usize) < self.chunks.len() {
            self.chunks[chunk_index as usize].blocks[column as usize][y as usize]
        } else {
            Block {
                block_type: BlockType::Air,
                natural_background: NaturalBackground::Sky,
                light: 0,
                water: 0,
            }
        }
    }

    /// The cell at `position`, a column and a row, to be changed in place.
    /// Outside the loaded cells this is a spare block of dark, dry air, and
    /// what is written to it is lost.
    pub fn index_mut(&mut self, position: (isize, isize)) -> (block: &mut Block)
        requires
            old(self).wf(),
        ensures
            final(self).wf(),
            *block == old(self)@.block_at(position.0 as int, position.1 as int),
            final(self)@.same_but_cell(old(self)@, position.0 as int, position.1 as int),
            old(self)@.loaded(position.0 as int, position.1 as int) ==> final(self)@.block_at(
                position.0 as int,
                position.1 as int,
            ) == *final(block),
    {
        let (chunk, column) = x_to_chunk_and_column(position.0);
        let y = position.1;
        let chunk_index = chunk - self.first_chunk_number;
        if 0 <= y && y < 2048 && 0 <= chunk_index && (chunk_index as usize) < self.chunks.len() {
            &mut self.chunks[chunk_index as usize].blocks[column as usize][y as usize]
        } else {
            self.air = Block {
                block_type: BlockType::Air,
                natural_background: NaturalBackground::Sky,
                light: 0,
                water: 0,
            };
            &mut self.air
        }
    }

    /// Writes `block` to the cell at column `x` and row `y`, and marks
    /// nothing. Outside the loaded cells the write is dropped.
    pub fn put(&mut self, x: isize, y: isize, block: Block)
        requires
            old(self).wf(),
        ensures
            final(self).wf(),
            final(self)@ == old(self)@.with_block(x as int, y as int, block),
    {
        let cell = self.index_mut((x, y));
        *cell = block;
        proof {
            lemma_same_but_cell(self@, old(self)@, x as int, y as int);
        }
    }

    /// Marks the cell at `position` and its loaded neighbours as to be drawn
    /// again, and hands the cell out to be changed in place. Outside the
    /// loaded cells nothing is marked, and what is handed out is a spare
    /// block of dark, dry air.
    pub fn index_mut_and_render(&mut self, position: (isize, isize)) -> (block: &mut Block)
        requires
            old(self).wf(),
        ensures
            final(self).wf(),
            *block == old(self)@.block_at(position.0 as int, position.1 as int),
            final(self)@.same_but_cell(
                old(self)@.invalidated(position.0 as int, position.1 as int),
                position.0 as int,
                position.1 as int,
            ),
            old(self)@.loaded(position.0 as int, position.1 as int) ==> final(self)@.block_at(
                position.0 as int,
                position.1 as int,
            ) == *final(block),
    {
        let (x, y) = position;
        if self.is_loaded(x, y) {
            self.block_to_render.push((x, y));
            if self.is_loaded(x, y - 1) {
                self.block_to_render.push((x, y - 1));
            }
            if self.is_loaded(x, y + 1) {
                self.block_to_render.push((x, y + 1));
            }
            if self.is_loaded(x - 1, y) {
                self.block_to_render.push((x - 1, y));
            }
            if self.is_loaded(x + 1, y) {
                self.block_to_render.push((x + 1, y));
            }
        }
        assert(self@ =~= old(self)@.invalidated(x as int, y as int));
        self.index_mut(position)
    }

    /// Writes `block` to the cell at column `x` and row `y`, and marks the
    /// cell and its loaded neighbours as to be drawn again. Outside the
    /// loaded cells the write is dropped and nothing is marked.
    pub fn set(&mut self, x: isize, y: isize, block: Block)
        requires
            old(self).wf(),
        ensures
            final(self).wf(),
            final(self)@ == old(self)@.invalidated(x as int, y as int).with_block(
                x as int,
                y as int,
                block,
            ),
    {
        let cell = self.index_mut_and_render((x, y));
        *cell = block;
        proof {
            lemma_same_but_cell(
                self@,
                old(self)@.invalidated(x as int, y as int),
                x as int,
                y as int,
            );
        }
    }
}

} // verus!
