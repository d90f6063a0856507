//! The life of the window of loaded chunks: a fresh world around column 0,
//! and the sliding that keeps the player well inside the window.

use crate::blocks::{Block, BlockType, NaturalBackground};
use crate::chunks::{clamp, generated_block, walk, Chunk, UNIT, WORLD_HEIGHT};
use crate::coords::{biome_at, chunk_of, column_of, x_to_chunk};
use crate::map::{SimulationError, World, WorldMap, CHUNK_LIMIT};
use crate::water::lemma_woken_cells;
use vstd::pervasive::unreached;
use vstd::prelude::*;

verus! {

/// How many chunks stay loaded to the left of the chunk that holds the
/// player.
pub const TRAILING_CHUNKS: isize = 4;

/// How many lights are handed out to be drawn at a time.
pub const LIGHTS_PER_FRAME: usize = 50;

/// With more lights than this waiting to be drawn, the drawing falls behind.
pub const RENDER_BACKLOG: usize = 3000;

/// A height and a slope as a chunk stores them.
pub open spec fn as_config(state: (int, int)) -> (i64, i64) {
    (state.0 as i64, state.1 as i64)
}

/// Height and slope at the left edge of chunk `i` of a fresh world, counted
/// from its leftmost chunk: the terrain starts at height 20 with a slope of
/// a fifth of a row, and each chunk goes on where the one before it ended.
pub open spec fn fresh_config(i: nat) -> (int, int)
    decreases i,
{
    if i == 0 {
        (20 * UNIT, 200_000)
    } else {
        let before = fresh_config((i - 1) as nat);
        let origin = (i - 1 - 5) * 32;
        walk(biome_at(origin), before.0, before.1, origin, true, 32)
    }
}

/// What is to be drawn after the window has followed the player.
pub struct RenderWork {
    /// The cells whose light is to be drawn now, oldest first.
    pub lights: Vec<(isize, isize)>,
    /// How many lights were waiting to be drawn.
    pub waiting: usize,
    /// Whether more lights than [`RENDER_BACKLOG`] were waiting.
    pub falling_behind: bool,
}

impl World {
    /// The terrain of a fresh world: ten chunks, five to each side of
    /// column 0, generated from left to right; dark, dry, and with nothing
    /// listed.
    pub open spec fn fresh() -> World {
        World {
            first_chunk: -5,
            chunk_count: 10,
            cells: Map::new(
                |p: (int, int)| -160 <= p.0 < 160 && 0 <= p.1 < WORLD_HEIGHT,
                |p: (int, int)|
                    {
                        let chunk = chunk_of(p.0);
                        let config = fresh_config((chunk + 5) as nat);
                        generated_block(config.0, config.1, chunk * 32, true, column_of(p.0), p.1)
                    },
            ),
            configs: Seq::new(
                10,
                |i: int| (as_config(fresh_config(i as nat)), as_config(fresh_config((i + 1) as nat))),
            ),
            first_block: 0,
            light_update: Seq::empty(),
            water_update: Seq::empty(),
            light_to_render: Seq::empty(),
            block_to_render: Seq::empty(),
        }
    }

    /// The world after the cells that hold water were listed in each of the
    /// first `chunks` loaded chunks, from the left.
    pub open spec fn all_woken(self, chunks: nat) -> World
        decreases chunks,
    {
        if chunks == 0 {
            self
        } else {
            self.all_woken((chunks - 1) as nat).woken(chunks - 1, 65536)
        }
    }

    /// The world as it is created: fresh terrain, its water listed and its
    /// lights set up, and nothing waiting to be drawn.
    pub open spec fn created() -> World {
        World {
            light_to_render: Seq::empty(),
            block_to_render: Seq::empty(),
            ..World::fresh().all_woken(10).lights_initialized()
        }
    }

    /// The window moved one chunk to the left: the rightmost chunk is gone,
    /// and a new leftmost chunk is generated from right to left, going on
    /// from the left config of the chunk that was the leftmost.
    pub open spec fn shifted_left(self) -> World {
        let config = self.configs[0].0;
        let origin = self.left_edge() - 1;
        let end = walk(biome_at(origin), config.0 as int, config.1 as int, origin, false, 32);
        World {
            first_chunk: self.first_chunk - 1,
            cells: Map::new(
                |p: (int, int)|
                    self.left_edge() - 32 <= p.0 < self.right_edge() - 32 && 0 <= p.1
                        < WORLD_HEIGHT,
                |p: (int, int)|
                    if p.0 < self.left_edge() {
                        generated_block(
                            config.0 as int,
                            config.1 as int,
                            origin,
                            false,
                            column_of(p.0),
                            p.1,
                        )
                    } else {
                        self.cells[p]
                    },
            ),
            configs: seq![(as_config(end), config)] + self.configs.drop_last(),
            ..self
        }
    }

    /// The window moved one chunk to the right: the leftmost chunk is gone,
    /// and a new rightmost chunk is generated from left to right, going on
    /// from the right config of the chunk that was the rightmost.
    pub open spec fn shifted_right(self) -> World {
        let config = self.configs.last().1;
        let origin = self.right_edge();
        let end = walk(biome_at(origin), config.0 as int, config.1 as int, origin, true, 32);
        World {
            first_chunk: self.first_chunk + 1,
            cells: Map::new(
                |p: (int, int)|
                    self.left_edge() + 32 <= p.0 < self.right_edge() + 32 && 0 <= p.1
                        < WORLD_HEIGHT,
                |p: (int, int)|
                    if p.0 >= self.right_edge() {
                        generated_block(
                            config.0 as int,
                            config.1 as int,
                            origin,
                            true,
                            column_of(p.0),
                            p.1,
                        )
                    } else {
                        self.cells[p]
                    },
            ),
            configs: self.configs.skip(1).push((config, as_config(end))),
            ..self
        }
    }

    /// The world after the window was moved by one chunk and made ready
    /// before its lights are set up again: the chunk next to the new one has
    /// its water listed.
    pub open spec fn shifted(self, left: bool) -> World {
        if left {
            self.shifted_left().woken(1, 65536)
        } else {
            self.shifted_right().woken(self.chunk_count - 2, 65536)
        }
    }

    /// Whether the lights come to rest when they are set up after the window
    /// has moved by one chunk.
    pub open spec fn slide_converges(self, left: bool) -> bool {
        self.shifted(left).lights_initialized().light_update.len() == 0
    }

    /// The world after one slide of the window, to the left or to the right:
    /// the window is moved and the lights are set up again, and the cells
    /// that were listed for a light update before are listed as before.
    pub open spec fn slid(self, left: bool) -> World {
        World { light_update: self.light_update, ..self.shifted(left).lights_initialized() }
    }

    /// The world after up to `slides` slides of the window. A slide after
    /// which the lights do not come to rest is the last.
    pub open spec fn slid_by(self, left: bool, slides: nat) -> World
        decreases slides,
    {
        if slides == 0 {
            self
        } else if self.slide_converges(left) {
            self.slid(left).slid_by(left, (slides - 1) as nat)
        } else {
            self.slid(left)
        }
    }

    /// Whether the lights come to rest after each of `slides` slides.
    pub open spec fn slides_converge(self, left: bool, slides: nat) -> bool
        decreases slides,
    {
        if slides == 0 {
            true
        } else {
            self.slide_converges(left) && self.slid(left).slides_converge(left, (slides - 1) as nat)
        }
    }

    /// The world after the window has slid until `first` is its leftmost
    /// chunk, or until the lights did not come to rest.
    pub open spec fn followed(self, first: int) -> World {
        if first < self.first_chunk {
            self.slid_by(true, (self.first_chunk - first) as nat)
        } else {
            self.slid_by(false, (first - self.first_chunk) as nat)
        }
    }

    /// Whether the lights come to rest after every slide on the way to
    /// `first` as the leftmost chunk.
    pub open spec fn follows(self, first: int) -> bool {
        if first < self.first_chunk {
            self.slides_converge(true, (self.first_chunk - first) as nat)
        } else {
            self.slides_converge(false, (first - self.first_chunk) as nat)
        }
    }

    /// The chunk that the window begins at once it has followed a player in
    /// the column `player_x`: the chunk that leaves [`TRAILING_CHUNKS`] chunks
    /// to the left of the player's; and where the window would then reach
    /// beyond [`CHUNK_LIMIT`], the nearest chunk from which it does not.
    pub open spec fn window_start(self, player_x: int) -> int {
        clamp(
            chunk_of(player_x) - TRAILING_CHUNKS,
            -CHUNK_LIMIT as int,
            CHUNK_LIMIT - self.chunk_count,
        )
    }

    /// How many lights are handed out to be drawn next.
    pub open spec fn lights_due(self) -> int {
        if self.light_to_render.len() < LIGHTS_PER_FRAME {
            self.light_to_render.len() as int
        } else {
            LIGHTS_PER_FRAME as int
        }
    }

    /// The world after the lights that are due were handed out.
    pub open spec fn lights_handed_out(self) -> World {
        World {
            light_to_render: self.light_to_render.skip(self.lights_due()),
            ..self
        }
    }
}

impl WorldMap {
    /// The terrain of a fresh world: see [`World::fresh`].
    fn fresh() -> (map: WorldMap)
        ensures
            map.wf(),
            map@ == World::fresh(),
    {
        let mut chunks: Vec<Chunk> = Vec::new();
        let mut height: i64 = 20 * UNIT;
        let mut slope: i64 = 200_000;
        let mut i: isize = -5;
        while i < 5
            invariant
                -5 <= i <= 5,
                chunks.len() == i + 5,
                (height as int, slope as int) == fresh_config((i + 5) as nat),
                forall|k: int|
                    0 <= k < chunks.len() ==> {
                        &&& (#[trigger] chunks[k]).wf()
                        &&& chunks[k].left_config == as_config(fresh_config(k as nat))
                        &&& chunks[k].right_config == as_config(fresh_config((k + 1) as nat))
                    },
                forall|k: int, column: int, y: int|
                    0 <= k < chunks.len() && 0 <= column < 32 && 0 <= y < WORLD_HEIGHT ==> (
                    #[trigger] chunks[k].block(column, y)) == generated_block(
                        fresh_config(k as nat).0,
                        fresh_config(k as nat).1,
                        (k - 5) * 32,
                        true,
                        column,
                        y,
                    ),
            decreases 5 - i,
        {
            let chunk = Chunk::generate(&mut height, &mut slope, true, i * 32);
            chunks.push(chunk);
            i += 1;
        }
        let map = WorldMap {
            chunks,
            first_chunk_number: -5,
            first_block: 0,
            air: Block {
                block_type: BlockType::Air,
                natural_background: NaturalBackground::Sky,
                light: 0,
                water: 0,
            },
            light_update: Vec::new(),
            water_update: Vec::new(),
            light_to_render: Vec::new(),
            block_to_render: Vec::new(),
        };
        proof {
            let fresh = World::fresh();
            assert forall|p: (int, int)| fresh.cells.dom().contains(p) implies #[trigger] map@.cells[p]
                == fresh.cells[p] by {
                let k = chunk_of(p.0) + 5;
                assert(map.chunks[k].block(column_of(p.0), p.1) == fresh.cells[p]);
            }
            assert(map@.cells =~= fresh.cells);
            assert(map@.configs =~= fresh.configs);
        }
        map
    }

    /// A world of ten chunks, five to each side of column 0, with its water
    /// listed and its lights set up. Nothing in it waits to be drawn: all of
    /// it is to be drawn once. The lights of the fresh world must come to
    /// rest: [`WorldMap::try_new`] says whether they do.
    pub fn new() -> (map: WorldMap)
        requires
            World::created().light_update.len() == 0,
        ensures
            map.wf(),
            map@ == World::created(),
    {
        match WorldMap::try_new() {
            Ok(map) => map,
            Err(_) => unreached(),
        }
    }

    /// A world as [`WorldMap::new`] makes it, where its lights come to rest.
    /// Where they do not, there is no world but the error.
    pub fn try_new() -> (result: Result<WorldMap, SimulationError>)
        ensures
            match result {
                Ok(map) => {
                    &&& map.wf()
                    &&& map@ == World::created()
                    &&& World::created().light_update.len() == 0
                },
                Err(error) => {
                    &&& error == SimulationError::LightDiverged
                    &&& World::created().light_update.len() != 0
                },
            },
    {
        let mut map = WorldMap::fresh();
        let mut chunk_index: usize = 0;
        while chunk_index < 10
            invariant
                chunk_index <= 10,
                map.wf(),
                map@.chunk_count == 10,
                map@ == World::fresh().all_woken(chunk_index as nat),
            decreases 10 - chunk_index,
        {
            proof {
                lemma_woken_cells(map@, chunk_index as int, 65536);
            }
            map.init_water(chunk_index);
            chunk_index += 1;
        }
        let result = map.try_init_lights();
        let ghost lit = map@;
        map.light_to_render.clear();
        map.block_to_render.clear();
        assert(map@ =~= World {
            light_to_render: Seq::empty(),
            block_to_render: Seq::empty(),
            ..lit
        });
        match result {
            Ok(()) => Ok(map),
            Err(error) => Err(error),
        }
    }

    /// Moves the window one chunk to the left.
    fn shift_left(&mut self)
        requires
            old(self).wf(),
            -CHUNK_LIMIT < old(self)@.first_chunk,
        ensures
            final(self).wf(),
            final(self)@ == old(self)@.shifted_left(),
    {
        let last = self.chunks.len() - 1;
        self.chunks.remove(last);
        let config = self.chunks[0].left_config;
        let mut height = config.0;
        let mut slope = config.1;
        self.first_chunk_number -= 1;
        let origin: isize = self.first_chunk_number * 32 + 31;
        let chunk = Chunk::generate(&mut height, &mut slope, false, origin);
        self.chunks.insert(0, chunk);
        proof {
            let after = self@;
            let shifted = old(self)@.shifted_left();
            assert forall|p: (int, int)| shifted.cells.dom().contains(p) implies #[trigger] after.cells[p]
                == shifted.cells[p] by {
                if p.0 < old(self)@.left_edge() {
                    assert(chunk_of(p.0) == self.first_chunk_number);
                    assert(self.chunks[0].block(column_of(p.0), p.1) == generated_block(
                        config.0 as int,
                        config.1 as int,
                        origin as int,
                        false,
                        column_of(p.0),
                        p.1,
                    ));
                } else {
                    let i = chunk_of(p.0) - old(self).first_chunk_number;
                    assert(self.chunks[i + 1] == old(self).chunks[i]);
                }
            }
            assert(after.cells =~= shifted.cells);
            assert(after.configs =~= shifted.configs);
        }
    }

    /// Moves the window one chunk to the right.
    fn shift_right(&mut self)
        requires
            old(self).wf(),
            old(self)@.first_chunk + old(self)@.chunk_count < CHUNK_LIMIT,
        ensures
            final(self).wf(),
            final(self)@ == old(self)@.shifted_right(),
    {
        self.chunks.remove(0);
        let config = self.chunks[self.chunks.len() - 1].right_config;
        let mut height = config.0;
        let mut slope = config.1;
        self.first_chunk_number += 1;
        let origin: isize = (self.first_chunk_number + self.chunks.len() as isize) * 32;
        let chunk = Chunk::generate(&mut height, &mut slope, true, origin);
        self.chunks.push(chunk);
        proof {
            let after = self@;
            let shifted = old(self)@.shifted_right();
            let last = self.chunks.len() - 1;
            assert forall|p: (int, int)| shifted.cells.dom().contains(p) implies #[trigger] after.cells[p]
                == shifted.cells[p] by {
                if p.0 >= old(self)@.right_edge() {
                    assert(chunk_of(p.0) - self.first_chunk_number == last);
                    assert(self.chunks[last].block(column_of(p.0), p.1) == generated_block(
                        config.0 as int,
                        config.1 as int,
                        origin as int,
                        true,
                        column_of(p.0),
                        p.1,
                    ));
                } else {
                    let i = chunk_of(p.0) - old(self).first_chunk_number;
                    assert(self.chunks[i - 1] == old(self).chunks[i]);
                }
            }
            assert(after.cells =~= shifted.cells);
            assert(after.configs =~= shifted.configs);
        }
    }

    /// Slides the window by one chunk, to the left or to the right, and sets
    /// the lights up again. The cells that were listed for a light update
    /// stay listed as they were.
    fn slide(&mut self, left: bool) -> (result: Result<(), SimulationError>)
        requires
            old(self).wf(),
            left ==> -CHUNK_LIMIT < old(self)@.first_chunk,
            !left ==> old(self)@.first_chunk + old(self)@.chunk_count < CHUNK_LIMIT,
        ensures
            final(self).wf(),
            final(self)@ == old(self)@.slid(left),
            result is Ok <==> old(self)@.slide_converges(left),
            result is Err ==> result == Err::<(), SimulationError>(SimulationError::LightDiverged),
    {
        if left {
            self.shift_left();
            self.init_water(1);
        } else {
            self.shift_right();
            let beside = self.chunks.len() - 2;
            self.init_water(beside);
        }
        let ghost shifted = self@;
        let mut saved: Vec<(isize, isize, bool)> = Vec::new();
        std::mem::swap(&mut saved, &mut self.light_update);
        assert(self@ =~= World { light_update: Seq::empty(), ..shifted });
        assert(self@.lights_initialized() == shifted.lights_initialized());
        let result = self.try_init_lights();
        let ghost lit = self@;
        self.light_update = saved;
        assert(self@ =~= World { light_update: saved@, ..lit });
        proof {
            lemma_woken_cells(old(self)@.shifted_left(), 1, 65536);
            lemma_woken_cells(old(self)@.shifted_right(), old(self)@.chunk_count - 2, 65536);
        }
        result
    }

    /// Hands out the lights that are to be drawn now: the oldest
    /// [`LIGHTS_PER_FRAME`] of those that wait, or all of them where they
    /// are fewer.
    pub fn render_changes(&mut self) -> (lights: Vec<(isize, isize)>)
        requires
            old(self).wf(),
        ensures
            final(self).wf(),
            lights@ == old(self)@.light_to_render.take(old(self)@.lights_due()),
            final(self)@ == old(self)@.lights_handed_out(),
    {
        let due = if self.light_to_render.len() < LIGHTS_PER_FRAME {
            self.light_to_render.len()
        } else {
            LIGHTS_PER_FRAME
        };
        let mut lights: Vec<(isize, isize)> = Vec::new();
        let mut i: usize = 0;
        assert(old(self)@.light_to_render.skip(0) =~= old(self)@.light_to_render);
        while i < due
            invariant
                i <= due,
                due == old(self)@.lights_due(),
                self.wf(),
                lights@ == old(self)@.light_to_render.take(i as int),
                self@ == (World {
                    light_to_render: old(self)@.light_to_render.skip(i as int),
                    ..old(self)@
                }),
            decreases due - i,
        {
            let ghost before = self@;
            let light = self.light_to_render.remove(0);
            lights.push(light);
            i += 1;
            assert(lights@ =~= old(self)@.light_to_render.take(i as int));
            assert(before.light_to_render.remove(0) =~= old(self)@.light_to_render.skip(i as int));
            assert(self@ =~= World {
                light_to_render: old(self)@.light_to_render.skip(i as int),
                ..old(self)@
            });
        }
        lights
    }

    /// Hands out all the cells whose block is to be drawn again, oldest
    /// first.
    pub fn take_block_renders(&mut self) -> (blocks: Vec<(isize, isize)>)
        requires
            old(self).wf(),
        ensures
            final(self).wf(),
            blocks@ == old(self)@.block_to_render,
            final(self)@ == (World { block_to_render: Seq::empty(), ..old(self)@ }),
    {
        let mut blocks: Vec<(isize, isize)> = Vec::new();
        std::mem::swap(&mut blocks, &mut self.block_to_render);
        assert(self@ =~= World { block_to_render: Seq::empty(), ..old(self)@ });
        blocks
    }

    /// Slides the window until the chunk that holds the column `player_x`
    /// has [`TRAILING_CHUNKS`] chunks to its left, one chunk at a time, and
    /// hands out the lights that are to be drawn now. The window follows as
    /// far as [`CHUNK_LIMIT`] lets it, and keeps its width. After every slide
    /// the lights must come to rest: [`WorldMap::try_update_chunks`] says
    /// whether they do.
    pub fn update_chunks(&mut self, player_x: isize) -> (work: RenderWork)
        requires
            old(self).wf(),
            old(self)@.follows(old(self)@.window_start(player_x as int)),
        ensures
            final(self).wf(),
            final(self)@.chunk_count == old(self)@.chunk_count,
            final(self)@.first_chunk == old(self)@.window_start(player_x as int),
            ({
                let slid = old(self)@.followed(old(self)@.window_start(player_x as int));
                &&& final(self)@ == slid.lights_handed_out()
                &&& work.lights@ == slid.light_to_render.take(slid.lights_due())
                &&& work.waiting == slid.light_to_render.len()
                &&& work.falling_behind == (slid.light_to_render.len() > RENDER_BACKLOG)
            }),
    {
        match self.try_update_chunks(player_x) {
            Ok(work) => work,
            Err(_) => unreached(),
        }
    }

    /// Slides the window as [`WorldMap::update_chunks`] does, and says
    /// whether the lights came to rest after every slide. Where they do not
    /// after one, the sliding ends there with the error; the caller is to
    /// give the world up.
    pub fn try_update_chunks(&mut self, player_x: isize) -> (result: Result<RenderWork, SimulationError>)
        requires
            old(self).wf(),
        ensures
            final(self).wf(),
            final(self)@.chunk_count == old(self)@.chunk_count,
            result is Ok <==> old(self)@.follows(old(self)@.window_start(player_x as int)),
            match result {
                Ok(work) => {
                    let slid = old(self)@.followed(old(self)@.window_start(player_x as int));
                    &&& final(self)@ == slid.lights_handed_out()
                    &&& final(self)@.first_chunk == old(self)@.window_start(player_x as int)
                    &&& work.lights@ == slid.light_to_render.take(slid.lights_due())
                    &&& work.waiting == slid.light_to_render.len()
                    &&& work.falling_behind == (slid.light_to_render.len() > RENDER_BACKLOG)
                },
                Err(error) => {
                    &&& error == SimulationError::LightDiverged
                    &&& final(self)@ == old(self)@.followed(
                        old(self)@.window_start(player_x as int),
                    )
                },
            },
    {
        let wanted: isize = x_to_chunk(player_x) - TRAILING_CHUNKS;
        let last_start: isize = CHUNK_LIMIT - self.chunks.len() as isize;
        let first: isize = if wanted < -CHUNK_LIMIT {
            -CHUNK_LIMIT
        } else if wanted > last_start {
            last_start
        } else {
            wanted
        };
        let left = first < self.first_chunk_number;
        let ghost slides: nat = if left {
            (self.first_chunk_number - first) as nat
        } else {
            (first - self.first_chunk_number) as nat
        };
        let ghost count = self@.chunk_count;
        while self.first_chunk_number != first
            invariant
                self.wf(),
                self@.chunk_count == count,
                count == old(self)@.chunk_count,
                first == old(self)@.window_start(player_x as int),
                -CHUNK_LIMIT <= first,
                first + count <= CHUNK_LIMIT,
                left ==> first <= self.first_chunk_number,
                !left ==> self.first_chunk_number <= first,
                old(self)@.followed(first as int) == old(self)@.slid_by(left, slides),
                old(self)@.follows(first as int) == old(self)@.slides_converge(left, slides),
                ({
                    let remaining: nat = if left {
                        (self.first_chunk_number - first) as nat
                    } else {
                        (first - self.first_chunk_number) as nat
                    };
                    &&& self@.slid_by(left, remaining) == old(self)@.slid_by(left, slides)
                    &&& self@.slides_converge(left, remaining) == old(self)@.slides_converge(
                        left,
                        slides,
                    )
                }),
            decreases
                    (if left {
                        self.first_chunk_number - first
                    } else {
                        first - self.first_chunk_number
                    }),
        {
            let ghost before = self@;
            let ghost remaining: nat = if left {
                (self.first_chunk_number - first) as nat
            } else {
                (first - self.first_chunk_number) as nat
            };
            proof {
                lemma_slid_window(before, left);
                assert(before.slid_by(left, remaining) == if before.slide_converges(left) {
                    before.slid(left).slid_by(left, (remaining - 1) as nat)
                } else {
                    before.slid(left)
                });
                assert(before.slides_converge(left, remaining) == (before.slide_converges(left)
                    && before.slid(left).slides_converge(left, (remaining - 1) as nat)));
            }
            let step = self.slide(left);
            if step.is_err() {
                return Err(SimulationError::LightDiverged);
            }
        }
        let waiting = self.light_to_render.len();
        let falling_behind = waiting > RENDER_BACKLOG;
        let lights = self.render_changes();
        Ok(RenderWork { lights, waiting, falling_behind })
    }
}

/// A slide moves the window by one chunk and keeps its width.
pub proof fn lemma_slid_window(w: World, left: bool)
    requires
        w.wf(),
        left ==> -CHUNK_LIMIT < w.first_chunk,
        !left ==> w.first_chunk + w.chunk_count < CHUNK_LIMIT,
    ensures
        w.slid(left).wf(),
        w.slid(left).chunk_count == w.chunk_count,
        w.slid(left).first_chunk == if left {
            w.first_chunk - 1
        } else {
            w.first_chunk + 1
        },
{
    let moved = if left {
        w.shifted_left()
    } else {
        w.shifted_right()
    };
    assert(moved.wf());
    let shifted = w.shifted(left);
    lemma_woken_cells(w.shifted_left(), 1, 65536);
    lemma_woken_cells(w.shifted_right(), w.chunk_count - 2, 65536);
    assert(shifted.wf());
    crate::light::lemma_lights_initialized_window(shifted);
}

impl World {
    /// Whether some cell of the chunk with the given number is loaded.
    pub open spec fn chunk_loaded(self, chunk: int) -> bool {
        exists|x: int, y: int| #[trigger] self.cells.dom().contains((x, y)) && chunk_of(x) == chunk
    }

    /// Whether the window moved by `slides` chunks to the left, or to the
    /// right, stays within the limits.
    pub open spec fn slides_fit(self, left: bool, slides: nat) -> bool {
        if left {
            -CHUNK_LIMIT <= self.first_chunk - slides
        } else {
            self.first_chunk + self.chunk_count + slides <= CHUNK_LIMIT
        }
    }
}

/// The loaded chunks of a world are those of its window: a run of chunk
/// numbers without a gap, each loaded once.
pub proof fn lemma_loaded_chunks(w: World, chunk: int)
    requires
        w.wf(),
    ensures
        w.chunk_loaded(chunk) <==> w.first_chunk <= chunk < w.first_chunk + w.chunk_count,
{
    if w.first_chunk <= chunk < w.first_chunk + w.chunk_count {
        assert(w.loaded(chunk * 32, 0));
        assert(w.cells.dom().contains((chunk * 32, 0int)));
    }
    if w.chunk_loaded(chunk) {
        let (x, y) = choose|x: int, y: int| #[trigger]
            w.cells.dom().contains((x, y)) && chunk_of(x) == chunk;
        assert(w.loaded(x, y));
    }
}

/// However often the window slides, it keeps its width, and moves by one
/// chunk with every slide: by all of them where the lights come to rest
/// after each.
pub proof fn lemma_slid_by_window(w: World, left: bool, slides: nat)
    requires
        w.wf(),
        w.slides_fit(left, slides),
    ensures
        w.slid_by(left, slides).wf(),
        w.slid_by(left, slides).chunk_count == w.chunk_count,
        left ==> w.first_chunk - slides <= w.slid_by(left, slides).first_chunk <= w.first_chunk,
        !left ==> w.first_chunk <= w.slid_by(left, slides).first_chunk <= w.first_chunk + slides,
        w.slides_converge(left, slides) ==> w.slid_by(left, slides).first_chunk == if left {
            w.first_chunk - slides
        } else {
            w.first_chunk + slides
        },
    decreases slides,
{
    if slides > 0 {
        lemma_slid_window(w, left);
        if w.slide_converges(left) {
            lemma_slid_by_window(w.slid(left), left, (slides - 1) as nat);
        }
    }
}

/// Window contiguity. After the window has followed the player, it is as
/// wide as before, and the loaded chunks are those of the window: their
/// numbers form one run, without a gap and with none twice. Where the lights
/// came to rest after every slide, the run begins at the chunk asked for.
pub proof fn lemma_window_contiguity(w: World, first: int)
    requires
        w.wf(),
        -CHUNK_LIMIT <= first,
        first + w.chunk_count <= CHUNK_LIMIT,
    ensures
        w.followed(first).wf(),
        w.followed(first).chunk_count == w.chunk_count,
        forall|chunk: int|
            #[trigger] w.followed(first).chunk_loaded(chunk) <==> w.followed(first).first_chunk
                <= chunk < w.followed(first).first_chunk + w.chunk_count,
        w.follows(first) ==> w.followed(first).first_chunk == first,
{
    if first < w.first_chunk {
        lemma_slid_by_window(w, true, (w.first_chunk - first) as nat);
    } else {
        lemma_slid_by_window(w, false, (first - w.first_chunk) as nat);
    }
    let moved = w.followed(first);
    assert forall|chunk: int| #[trigger]
        moved.chunk_loaded(chunk) <==> moved.first_chunk <= chunk < moved.first_chunk
            + w.chunk_count by {
        lemma_loaded_chunks(moved, chunk);
    }
}

/// Window contiguity, wherever the player stands. After the window has
/// followed a player in any column, it is as wide as before and within the
/// limits, and the loaded chunks are those of the window, each once and with
/// no gap. Where the lights came to rest after every slide, the window
/// begins at the chunk that [`World::window_start`] names.
pub proof fn lemma_window_follows_player(w: World, player_x: int)
    requires
        w.wf(),
    ensures
        w.followed(w.window_start(player_x)).wf(),
        w.followed(w.window_start(player_x)).chunk_count == w.chunk_count,
        forall|chunk: int|
            #[trigger] w.followed(w.window_start(player_x)).chunk_loaded(chunk) <==> w.followed(
                w.window_start(player_x),
            ).first_chunk <= chunk < w.followed(w.window_start(player_x)).first_chunk
                + w.chunk_count,
        w.follows(w.window_start(player_x)) ==> w.followed(w.window_start(player_x)).first_chunk
            == w.window_start(player_x),
{
    lemma_window_contiguity(w, w.window_start(player_x));
}

/// A slide keeps what was loaded and stays loaded, and brings in fresh
/// terrain: a cell that is loaded before and after the slide keeps its
/// material, its background and its water, and a cell of the new chunk is
/// as the generation makes it, going on from the config at the edge that
/// the window moved over.
pub proof fn lemma_slid_cells(w: World, left: bool, x: int, y: int)
    requires
        w.wf(),
        w.slides_fit(left, 1),
        w.slid(left).loaded(x, y),
    ensures
        w.loaded(x, y) ==> w.slid(left).substance(x, y) == w.substance(x, y),
        !w.loaded(x, y) ==> ({
            let config = if left {
                w.configs[0].0
            } else {
                w.configs.last().1
            };
            let origin = if left {
                w.left_edge() - 1
            } else {
                w.right_edge()
            };
            let fresh = generated_block(
                config.0 as int,
                config.1 as int,
                origin,
                !left,
                column_of(x),
                y,
            );
            w.slid(left).substance(x, y) == (fresh.block_type, fresh.natural_background, 0usize)
        }),
{
    lemma_slid_window(w, left);
    let moved = if left {
        w.shifted_left()
    } else {
        w.shifted_right()
    };
    assert(moved.wf());
    let shifted = w.shifted(left);
    lemma_woken_cells(w.shifted_left(), 1, 65536);
    lemma_woken_cells(w.shifted_right(), w.chunk_count - 2, 65536);
    assert(shifted.wf());
    assert(shifted.block_at(x, y) == moved.block_at(x, y));
    crate::light::lemma_lights_initialized_substance(shifted, x, y);
    let lit = shifted.lights_initialized();
    assert(w.slid(left).block_at(x, y) == lit.block_at(x, y));
}

/// The world as it is created has its light at rest, where the lights came
/// to rest at all.
pub proof fn lemma_created_world_is_relaxed()
    requires
        World::created().light_update.len() == 0,
    ensures
        World::created().wf(),
        World::created().relaxed(),
{
    let fresh = World::fresh();
    let woken = fresh.all_woken(10);
    lemma_all_woken_cells(fresh, 10);
    assert(woken.wf());
    assert forall|x: int, y: int| woken.loaded(x, y) implies #[trigger] woken.light(x, y) == 0 by {
        assert(fresh.loaded(x, y));
        assert(woken.block_at(x, y) == fresh.cells[(x, y)]);
    }
    crate::light::lemma_lights_initialized_window(woken);
    crate::relaxation::lemma_dark_world_lights_up(woken);
    let lit = woken.lights_initialized();
    let created = World::created();
    assert forall|x: int, y: int| created.loaded(x, y) implies #[trigger] created.settled(x, y) by {
        assert(lit.loaded(x, y));
        assert(lit.settled(x, y));
        assert(created.light(x, y) == lit.light(x, y));
        assert(created.relaxed_light(x, y) == lit.relaxed_light(x, y));
    }
}

/// Listing the cells that hold water, chunk by chunk, changes nothing but
/// the list.
pub proof fn lemma_all_woken_cells(w: World, chunks: nat)
    ensures
        w.all_woken(chunks).cells == w.cells,
        w.all_woken(chunks).first_chunk == w.first_chunk,
        w.all_woken(chunks).chunk_count == w.chunk_count,
        w.all_woken(chunks).configs == w.configs,
        w.all_woken(chunks).light_update == w.light_update,
    decreases chunks,
{
    if chunks > 0 {
        lemma_all_woken_cells(w, (chunks - 1) as nat);
        lemma_woken_cells(w.all_woken((chunks - 1) as nat), chunks - 1, 65536);
    }
}

} // verus!
