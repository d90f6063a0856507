//! Light: every block has a light level, which spreads from the lit cells of
//! the top row and loses some strength in every block it enters.
//!
//! The levels are kept up to date step by step. A work list names the cells
//! to look at again; one step takes the first of them and either grows its
//! light to what its neighbours give it, or takes its light back and goes on
//! to the cells that had their light from it.

use crate::blocks::{Block, BlockType, NaturalBackground, MAX_LIGHT};
use crate::map::{SimulationError, World, WorldMap};
use vstd::pervasive::unreached;
use vstd::prelude::*;

verus! {

/// The most steps that one spreading of the light may take.
pub const LIGHT_STEP_CAP: usize = 100_000;

/// The greater of two numbers.
pub open spec fn greater(a: int, b: int) -> int {
    if a >= b {
        a
    } else {
        b
    }
}

/// `list` with `entry` at its end where it is `wanted` and not yet listed.
pub open spec fn queued(list: Seq<(isize, isize, bool)>, wanted: bool, entry: (isize, isize, bool)) -> Seq<
    (isize, isize, bool),
> {
    if wanted && !list.contains(entry) {
        list.push(entry)
    } else {
        list
    }
}

impl World {
    /// The light at column `x` and row `y`.
    pub open spec fn light(self, x: int, y: int) -> int {
        self.block_at(x, y).light as int
    }

    /// The light that is lost on entering the block at column `x` and row
    /// `y`.
    pub open spec fn loss(self, x: int, y: int) -> int {
        self.block_at(x, y).block_type.light_loss()
    }

    /// The light of the brightest of the four neighbours of a cell.
    pub open spec fn brightest_neighbour(self, x: int, y: int) -> int {
        greater(
            greater(self.light(x - 1, y), self.light(x + 1, y)),
            greater(self.light(x, y - 1), self.light(x, y + 1)),
        )
    }

    /// The light that the neighbours of a cell give it: that of the
    /// brightest of them less the cell's own loss, and none where the loss
    /// takes it all.
    pub open spec fn relaxed_light(self, x: int, y: int) -> int {
        let brightest = self.brightest_neighbour(x, y);
        let loss = self.loss(x, y);
        if brightest > loss {
            brightest - loss
        } else {
            0
        }
    }

    /// Whether the cell at `x`, `y` is darker than a neighbour of the given
    /// `light` makes it.
    pub open spec fn darker_than_fed(self, x: int, y: int, light: int) -> bool {
        self.light(x, y) + self.loss(x, y) < light
    }

    /// Whether the cell at `x`, `y` has exactly the light that a neighbour of
    /// the given `light` gives it.
    pub open spec fn fed_by(self, x: int, y: int, light: int) -> bool {
        self.light(x, y) + self.loss(x, y) == light
    }

    /// The world with the given `light` at column `x` and row `y`.
    pub open spec fn with_light(self, x: int, y: int, light: usize) -> World {
        self.with_block(x, y, Block { light, ..self.block_at(x, y) })
    }

    /// The world after one step of the light: the first entry of the work
    /// list is taken off and worked on.
    ///
    /// An entry for a cell that is not loaded is dropped. A cell that is to
    /// grow gets the light that its neighbours give it, is marked as to be
    /// drawn where that changes it, and each neighbour that this light makes
    /// too dark is listed to grow. A cell whose light is to be taken back
    /// goes dark, and each neighbour that had exactly the light that this
    /// cell gave it is listed to lose its light too. Neighbours are listed
    /// in the order right, left, above, below, and none twice.
    pub open spec fn light_step(self) -> World
        recommends
            self.light_update.len() > 0,
    {
        let entry = self.light_update[0];
        let x = entry.0 as int;
        let y = entry.1 as int;
        let taken = World { light_update: self.light_update.remove(0), ..self };
        if !self.loaded(x, y) {
            taken
        } else if entry.2 {
            taken.light_retracted(x, y)
        } else {
            taken.light_grown(x, y)
        }
    }

    /// The world after the light of the cell at `x`, `y` was taken back: the
    /// cell is dark, and each neighbour that had exactly the light that the
    /// cell gave it is listed to lose its light too.
    pub open spec fn light_retracted(self, x: int, y: int) -> World {
        let light = self.light(x, y);
        let list = self.light_update;
        let q1 = queued(list, self.fed_by(x + 1, y, light), ((x + 1) as isize, y as isize, true));
        let q2 = queued(q1, self.fed_by(x - 1, y, light), ((x - 1) as isize, y as isize, true));
        let q3 = queued(q2, self.fed_by(x, y - 1, light), (x as isize, (y - 1) as isize, true));
        let q4 = queued(q3, self.fed_by(x, y + 1, light), (x as isize, (y + 1) as isize, true));
        World { light_update: q4, ..self.with_light(x, y, 0) }
    }

    /// The world after the light of the cell at `x`, `y` has grown to what
    /// its neighbours give it: each neighbour that this light makes too dark
    /// is listed to grow, and the cell is marked as to be drawn where its
    /// light has changed.
    pub open spec fn light_grown(self, x: int, y: int) -> World {
        let light = self.relaxed_light(x, y);
        let list = self.light_update;
        let q1 = queued(
            list,
            self.darker_than_fed(x + 1, y, light),
            ((x + 1) as isize, y as isize, false),
        );
        let q2 = queued(
            q1,
            self.darker_than_fed(x - 1, y, light),
            ((x - 1) as isize, y as isize, false),
        );
        let q3 = queued(
            q2,
            self.darker_than_fed(x, y - 1, light),
            (x as isize, (y - 1) as isize, false),
        );
        let q4 = queued(
            q3,
            self.darker_than_fed(x, y + 1, light),
            (x as isize, (y + 1) as isize, false),
        );
        World {
            light_update: q4,
            light_to_render: if light != self.light(x, y) {
                self.light_to_render.push((x as isize, y as isize))
            } else {
                self.light_to_render
            },
            ..self.with_light(x, y, light as usize)
        }
    }

    /// The world after the light has spread: steps are taken until the work
    /// list is empty, and no more than `steps` of them.
    pub open spec fn spread(self, steps: nat) -> World
        decreases steps,
    {
        if steps == 0 || self.light_update.len() == 0 {
            self
        } else {
            self.light_step().spread((steps - 1) as nat)
        }
    }

    /// The world after the top cell of column `x` was lit: where it is dark
    /// it gets the full light and is marked as to be drawn again, and the
    /// cell below it is listed to grow.
    pub open spec fn seeded_column(self, x: int) -> World {
        if self.light(x, 0) == 0 {
            let lit = self.invalidated(x, 0).with_light(x, 0, MAX_LIGHT);
            World { light_update: lit.light_update.push((x as isize, 1isize, false)), ..lit }
        } else {
            self
        }
    }

    /// The world after the top cells of the first `columns` loaded columns
    /// were lit, from the left.
    pub open spec fn seeded(self, columns: nat) -> World
        decreases columns,
    {
        if columns == 0 {
            self
        } else {
            let before = self.seeded((columns - 1) as nat);
            before.seeded_column(before.left_edge() + columns - 1)
        }
    }

    /// The world after its lights were set up: the work list is emptied, the
    /// top cell of every loaded column is lit, and the light has spread.
    pub open spec fn lights_initialized(self) -> World {
        World { light_update: Seq::empty(), ..self }.seeded((32 * self.chunk_count) as nat).spread(
            LIGHT_STEP_CAP as nat,
        )
    }
}

/// Whether `entry` is in `list`.
fn listed(list: &Vec<(isize, isize, bool)>, entry: (isize, isize, bool)) -> (found: bool)
    ensures
        found == list@.contains(entry),
{
    let mut i: usize = 0;
    while i < list.len()
        invariant
            i <= list.len(),
            forall|k: int| 0 <= k < i ==> list@[k] != entry,
        decreases list.len() - i,
    {
        let e = list[i];
        if e.0 == entry.0 && e.1 == entry.1 && e.2 == entry.2 {
            return true;
        }
        i += 1;
    }
    false
}

/// Puts `entry` at the end of `list` where it is `wanted` and not yet
/// listed.
fn enqueue(list: &mut Vec<(isize, isize, bool)>, wanted: bool, entry: (isize, isize, bool))
    ensures
        final(list)@ == queued(old(list)@, wanted, entry),
{
    if wanted && !listed(list, entry) {
        list.push(entry);
    }
}

impl WorldMap {
    /// Takes the first entry off the list of cells whose light is to be
    /// updated.
    fn take_light_update(&mut self) -> (entry: (isize, isize, bool))
        requires
            old(self).wf(),
            old(self)@.light_update.len() > 0,
        ensures
            final(self).wf(),
            entry == old(self)@.light_update[0],
            final(self)@ == (World {
                light_update: old(self)@.light_update.remove(0),
                ..old(self)@
            }),
    {
        let entry = self.light_update.remove(0);
        assert(self@ =~= World { light_update: old(self)@.light_update.remove(0), ..old(self)@ });
        entry
    }

    /// Lists `entry` among the cells whose light is to be updated, where it
    /// is `wanted` and not yet listed.
    fn queue_light_update(&mut self, wanted: bool, entry: (isize, isize, bool))
        requires
            old(self).wf(),
        ensures
            final(self).wf(),
            final(self)@ == (World {
                light_update: queued(old(self)@.light_update, wanted, entry),
                ..old(self)@
            }),
    {
        enqueue(&mut self.light_update, wanted, entry);
        assert(self@ =~= World {
            light_update: queued(old(self)@.light_update, wanted, entry),
            ..old(self)@
        });
    }

    /// Marks the light of the cell at `x`, `y` as to be drawn again.
    fn mark_light(&mut self, x: isize, y: isize)
        requires
            old(self).wf(),
        ensures
            final(self).wf(),
            final(self)@ == (World {
                light_to_render: old(self)@.light_to_render.push((x, y)),
                ..old(self)@
            }),
    {
        self.light_to_render.push((x, y));
        assert(self@ =~= World {
            light_to_render: old(self)@.light_to_render.push((x, y)),
            ..old(self)@
        });
    }

    /// Takes the light of the loaded cell at `x`, `y` back, and lists the
    /// neighbours that had their light from it.
    fn retract_light(&mut self, x: isize, y: isize)
        requires
            old(self).wf(),
            old(self)@.loaded(x as int, y as int),
        ensures
            final(self).wf(),
            final(self)@ == old(self)@.light_retracted(x as int, y as int),
    {
        let block = self.get(x, y);
        let light = block.light;
        let right = self.feeds(x + 1, y, light);
        let left = self.feeds(x - 1, y, light);
        let top = self.feeds(x, y - 1, light);
        let bottom = self.feeds(x, y + 1, light);
        self.put(
            x,
            y,
            Block {
                block_type: block.block_type,
                natural_background: block.natural_background,
                light: 0,
                water: block.water,
            },
        );
        self.queue_light_update(right, (x + 1, y, true));
        self.queue_light_update(left, (x - 1, y, true));
        self.queue_light_update(top, (x, y - 1, true));
        self.queue_light_update(bottom, (x, y + 1, true));
    }

    /// Whether the cell at `x`, `y` has exactly the light that a neighbour
    /// of the given `light` gives it.
    fn feeds(&self, x: isize, y: isize, light: usize) -> (fed: bool)
        requires
            self.wf(),
        ensures
            fed == self@.fed_by(x as int, y as int, light as int),
    {
        let block = self.get(x, y);
        let loss = block.block_type.get_light_loss();
        light >= loss && block.light == light - loss
    }

    /// Whether the cell at `x`, `y` is darker than a neighbour of the given
    /// `light` makes it.
    fn starves(&self, x: isize, y: isize, light: usize) -> (dark: bool)
        requires
            self.wf(),
        ensures
            dark == self@.darker_than_fed(x as int, y as int, light as int),
    {
        let block = self.get(x, y);
        let loss = block.block_type.get_light_loss();
        light > loss && block.light < light - loss
    }

    /// The light that the neighbours of the cell at `x`, `y` give it.
    fn light_from_neighbours(&self, x: isize, y: isize) -> (light: usize)
        requires
            self.wf(),
            self@.loaded(x as int, y as int),
        ensures
            light == self@.relaxed_light(x as int, y as int),
    {
        let block = self.get(x, y);
        let right = self.get(x + 1, y).light;
        let left = self.get(x - 1, y).light;
        let top = self.get(x, y - 1).light;
        let bottom = self.get(x, y + 1).light;
        let across = if left >= right {
            left
        } else {
            right
        };
        let along = if top >= bottom {
            top
        } else {
            bottom
        };
        let brightest = if across >= along {
            across
        } else {
            along
        };
        let loss = block.block_type.get_light_loss();
        if brightest > loss {
            brightest - loss
        } else {
            0
        }
    }

    /// Grows the light of the loaded cell at `x`, `y` to what its neighbours
    /// give it, and lists the neighbours that this makes too dark.
    fn grow_light(&mut self, x: isize, y: isize)
        requires
            old(self).wf(),
            old(self)@.loaded(x as int, y as int),
        ensures
            final(self).wf(),
            final(self)@ == old(self)@.light_grown(x as int, y as int),
    {
        let block = self.get(x, y);
        let light = self.light_from_neighbours(x, y);
        let right = self.starves(x + 1, y, light);
        let left = self.starves(x - 1, y, light);
        let top = self.starves(x, y - 1, light);
        let bottom = self.starves(x, y + 1, light);
        self.queue_light_update(right, (x + 1, y, false));
        self.queue_light_update(left, (x - 1, y, false));
        self.queue_light_update(top, (x, y - 1, false));
        self.queue_light_update(bottom, (x, y + 1, false));
        if block.light != light {
            self.put(
                x,
                y,
                Block {
                    block_type: block.block_type,
                    natural_background: block.natural_background,
                    light,
                    water: block.water,
                },
            );
            self.mark_light(x, y);
        } else {
            assert(old(self)@.with_light(x as int, y as int, light).cells =~= old(self)@.cells);
        }
    }

    /// Takes one step of the light, if the work list holds an entry.
    pub fn update_light(&mut self)
        requires
            old(self).wf(),
        ensures
            final(self).wf(),
            final(self)@ == if old(self)@.light_update.len() == 0 {
                old(self)@
            } else {
                old(self)@.light_step()
            },
    {
        if self.light_update.len() == 0 {
            return ;
        }
        let (x, y, cancellation) = self.take_light_update();
        if !self.is_loaded(x, y) {
            return ;
        }
        if cancellation {
            self.retract_light(x, y);
        } else {
            self.grow_light(x, y);
        }
    }

    /// Lets the light spread: takes steps until the work list is empty.
    ///
    /// The light must come to rest within [`LIGHT_STEP_CAP`] steps. Light
    /// that does not has run away, and there is no going on from there:
    /// [`WorldMap::try_spread_lights`] tells the two apart.
    pub fn spread_lights(&mut self)
        requires
            old(self).wf(),
            old(self)@.spread(LIGHT_STEP_CAP as nat).light_update.len() == 0,
        ensures
            final(self).wf(),
            final(self)@ == old(self)@.spread(LIGHT_STEP_CAP as nat),
            final(self)@.light_update.len() == 0,
    {
        match self.try_spread_lights() {
            Ok(()) => {},
            Err(_) => unreached(),
        }
    }

    /// Lets the light spread, and says whether it came to rest: takes steps
    /// until the work list is empty, but no more than [`LIGHT_STEP_CAP`] of
    /// them. With work left after that many steps the light has run away,
    /// and the error says so; the caller is to give the world up.
    pub fn try_spread_lights(&mut self) -> (result: Result<(), SimulationError>)
        requires
            old(self).wf(),
        ensures
            final(self).wf(),
            final(self)@ == old(self)@.spread(LIGHT_STEP_CAP as nat),
            result is Ok <==> final(self)@.light_update.len() == 0,
            result is Err ==> result == Err::<(), SimulationError>(SimulationError::LightDiverged),
    {
        let mut n: usize = 0;
        while self.light_update.len() != 0 && n < LIGHT_STEP_CAP
            invariant
                self.wf(),
                n <= LIGHT_STEP_CAP,
                self@.spread((LIGHT_STEP_CAP - n) as nat) == old(self)@.spread(LIGHT_STEP_CAP as nat),
            decreases LIGHT_STEP_CAP - n,
        {
            self.update_light();
            n += 1;
        }
        if self.light_update.len() == 0 {
            Ok(())
        } else {
            Err(SimulationError::LightDiverged)
        }
    }

    /// Empties the list of cells whose light is to be updated.
    fn clear_light_updates(&mut self)
        requires
            old(self).wf(),
        ensures
            final(self).wf(),
            final(self)@ == (World { light_update: Seq::empty(), ..old(self)@ }),
    {
        self.light_update.clear();
        assert(self@ =~= World { light_update: Seq::empty(), ..old(self)@ });
    }

    /// Lights the top cell of column `x` where it is dark, and lists the
    /// cell below it to grow.
    fn seed_column(&mut self, x: isize)
        requires
            old(self).wf(),
        ensures
            final(self).wf(),
            final(self)@ == old(self)@.seeded_column(x as int),
    {
        let block = self.get(x, 0);
        if block.light == 0 {
            self.set(
                x,
                0,
                Block {
                    block_type: block.block_type,
                    natural_background: block.natural_background,
                    light: MAX_LIGHT,
                    water: block.water,
                },
            );
            self.push_light_update((x, 1, false));
        }
    }

    /// Puts `entry` at the end of the list of cells whose light is to be
    /// updated, whether it is listed already or not.
    pub fn push_light_update(&mut self, entry: (isize, isize, bool))
        requires
            old(self).wf(),
        ensures
            final(self).wf(),
            final(self)@ == (World {
                light_update: old(self)@.light_update.push(entry),
                ..old(self)@
            }),
    {
        self.light_update.push(entry);
        assert(self@ =~= World {
            light_update: old(self)@.light_update.push(entry),
            ..old(self)@
        });
    }

    /// Sets the lights up: empties the work list, lights the top cell of
    /// every loaded column that is dark, and lets the light spread from the
    /// cells below them. The light must come to rest within
    /// [`LIGHT_STEP_CAP`] steps: see [`WorldMap::spread_lights`].
    pub fn init_lights(&mut self)
        requires
            old(self).wf(),
            old(self)@.lights_initialized().light_update.len() == 0,
        ensures
            final(self).wf(),
            final(self)@ == old(self)@.lights_initialized(),
            final(self)@.light_update.len() == 0,
    {
        match self.try_init_lights() {
            Ok(()) => {},
            Err(_) => unreached(),
        }
    }

    /// Sets the lights up, and says whether the light came to rest: see
    /// [`WorldMap::try_spread_lights`].
    pub fn try_init_lights(&mut self) -> (result: Result<(), SimulationError>)
        requires
            old(self).wf(),
        ensures
            final(self).wf(),
            final(self)@ == old(self)@.lights_initialized(),
            result is Ok <==> final(self)@.light_update.len() == 0,
            result is Err ==> result == Err::<(), SimulationError>(SimulationError::LightDiverged),
    {
        self.clear_light_updates();
        let ghost start = self@;
        let left_edge: isize = self.first_chunk_number * 32;
        let right_edge: isize = (self.first_chunk_number + self.chunks.len() as isize) * 32;
        let mut x: isize = left_edge;
        while x < right_edge
            invariant
                self.wf(),
                start.wf(),
                left_edge == start.left_edge(),
                right_edge == start.right_edge(),
                left_edge <= x <= right_edge,
                self@ == start.seeded((x - left_edge) as nat),
            decreases right_edge - x,
        {
            proof {
                lemma_seeded_window(start, (x - left_edge) as nat);
            }
            self.seed_column(x);
            x += 1;
        }
        assert(x - left_edge == 32 * start.chunk_count);
        self.try_spread_lights()
    }
}

impl World {
    /// All of the block at `x`, `y` but its light: its material, what shows
    /// behind it, and its water.
    pub open spec fn substance(self, x: int, y: int) -> (BlockType, NaturalBackground, usize) {
        let block = self.block_at(x, y);
        (block.block_type, block.natural_background, block.water)
    }
}

/// Giving a cell a light changes the substance of no cell.
pub proof fn lemma_with_light_substance(w: World, x: int, y: int, light: usize, x2: int, y2: int)
    requires
        w.wf(),
    ensures
        w.with_light(x, y, light).substance(x2, y2) == w.substance(x2, y2),
{
}

/// A step of the light changes the substance of no cell.
pub proof fn lemma_light_step_substance(w: World, x: int, y: int)
    requires
        w.wf(),
        w.light_update.len() > 0,
    ensures
        w.light_step().substance(x, y) == w.substance(x, y),
{
    let entry = w.light_update[0];
    let taken = World { light_update: w.light_update.remove(0), ..w };
    lemma_with_light_substance(taken, entry.0 as int, entry.1 as int, 0, x, y);
    lemma_with_light_substance(
        taken,
        entry.0 as int,
        entry.1 as int,
        taken.relaxed_light(entry.0 as int, entry.1 as int) as usize,
        x,
        y,
    );
}

/// Spreading the light changes the substance of no cell.
pub proof fn lemma_spread_substance(w: World, steps: nat, x: int, y: int)
    requires
        w.wf(),
    ensures
        w.spread(steps).substance(x, y) == w.substance(x, y),
    decreases steps,
{
    if steps > 0 && w.light_update.len() > 0 {
        lemma_light_step_window(w);
        lemma_light_step_substance(w, x, y);
        lemma_spread_substance(w.light_step(), (steps - 1) as nat, x, y);
    }
}

/// Lighting top cells changes the substance of no cell.
pub proof fn lemma_seeded_substance(w: World, columns: nat, x: int, y: int)
    requires
        w.wf(),
    ensures
        w.seeded(columns).substance(x, y) == w.substance(x, y),
    decreases columns,
{
    if columns > 0 {
        let before = w.seeded((columns - 1) as nat);
        lemma_seeded_substance(w, (columns - 1) as nat, x, y);
        lemma_seeded_window(w, (columns - 1) as nat);
        let x0 = before.left_edge() + columns - 1;
        lemma_with_light_substance(before.invalidated(x0, 0), x0, 0, MAX_LIGHT, x, y);
    }
}

/// Setting the lights up changes the substance of no cell: light is all
/// that it touches.
pub proof fn lemma_lights_initialized_substance(w: World, x: int, y: int)
    requires
        w.wf(),
    ensures
        w.lights_initialized().substance(x, y) == w.substance(x, y),
{
    let cleared = World { light_update: Seq::empty(), ..w };
    let columns = (32 * w.chunk_count) as nat;
    lemma_seeded_substance(cleared, columns, x, y);
    lemma_seeded_window(cleared, columns);
    lemma_spread_substance(cleared.seeded(columns), LIGHT_STEP_CAP as nat, x, y);
}

/// A step of the light leaves the window as it is.
pub proof fn lemma_light_step_window(w: World)
    requires
        w.wf(),
        w.light_update.len() > 0,
    ensures
        w.light_step().wf(),
        w.light_step().first_chunk == w.first_chunk,
        w.light_step().chunk_count == w.chunk_count,
        w.light_step().configs == w.configs,
{
}

/// Spreading the light leaves the window as it is.
pub proof fn lemma_spread_window(w: World, steps: nat)
    requires
        w.wf(),
    ensures
        w.spread(steps).wf(),
        w.spread(steps).first_chunk == w.first_chunk,
        w.spread(steps).chunk_count == w.chunk_count,
        w.spread(steps).configs == w.configs,
    decreases steps,
{
    if steps > 0 && w.light_update.len() > 0 {
        lemma_light_step_window(w);
        lemma_spread_window(w.light_step(), (steps - 1) as nat);
    }
}

/// Setting the lights up leaves the window as it is.
pub proof fn lemma_lights_initialized_window(w: World)
    requires
        w.wf(),
    ensures
        w.lights_initialized().wf(),
        w.lights_initialized().first_chunk == w.first_chunk,
        w.lights_initialized().chunk_count == w.chunk_count,
        w.lights_initialized().configs == w.configs,
{
    let cleared = World { light_update: Seq::empty(), ..w };
    lemma_seeded_window(cleared, (32 * w.chunk_count) as nat);
    lemma_spread_window(cleared.seeded((32 * w.chunk_count) as nat), LIGHT_STEP_CAP as nat);
}

/// Lighting top cells leaves the window as it is.
pub proof fn lemma_seeded_window(w: World, columns: nat)
    requires
        w.wf(),
    ensures
        w.seeded(columns).wf(),
        w.seeded(columns).first_chunk == w.first_chunk,
        w.seeded(columns).chunk_count == w.chunk_count,
        w.seeded(columns).configs == w.configs,
    decreases columns,
{
    if columns > 0 {
        lemma_seeded_window(w, (columns - 1) as nat);
    }
}

} // verus!
