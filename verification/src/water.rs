//! Water: an amount in every cell of air, which falls into the air below
//! and levels out with the air to its sides.
//!
//! Amounts are whole parts, of which [`WATER_UNIT`] make one unit. A work
//! list names the cells that may hold moving water. One pass works through
//! the list as it stands when the pass begins.

use crate::blocks::{Block, BlockType};
use crate::map::{SimulationError, World, WorldMap};
use vstd::prelude::*;

verus! {

/// The number of parts in one unit of water.
pub const WATER_UNIT: usize = 1_000_000;

/// A cell with no more water than this counts as dry.
pub const DRY_THRESHOLD: usize = 100_000;

/// The most cells that one pass may work on.
pub const WATER_STEP_CAP: usize = 100_000;

/// The smaller of two numbers.
pub open spec fn lesser(a: int, b: int) -> int {
    if a <= b {
        a
    } else {
        b
    }
}

/// The pressure under a cell that holds `water`, which is the ceiling for
/// the cell below it: the amount rounded up to whole units, but no less than
/// 16 units, the ceiling at rest, and no more than 21.
pub open spec fn pressure(water: int) -> int {
    if water <= 16 * WATER_UNIT {
        16 * WATER_UNIT
    } else if water <= 17 * WATER_UNIT {
        17 * WATER_UNIT
    } else if water <= 18 * WATER_UNIT {
        18 * WATER_UNIT
    } else if water <= 19 * WATER_UNIT {
        19 * WATER_UNIT
    } else if water <= 20 * WATER_UNIT {
        20 * WATER_UNIT
    } else {
        21 * WATER_UNIT
    }
}

/// `list` without any entry equal to `position`, the others in their order.
pub open spec fn removed(list: Seq<(isize, isize)>, position: (isize, isize)) -> Seq<(isize, isize)>
    decreases list.len(),
{
    if list.len() == 0 {
        list
    } else if list.last() == position {
        removed(list.drop_last(), position)
    } else {
        removed(list.drop_last(), position).push(list.last())
    }
}

impl World {
    /// The water at column `x` and row `y`.
    pub open spec fn water(self, x: int, y: int) -> int {
        self.block_at(x, y).water as int
    }

    /// Whether the block at column `x` and row `y` is air, which lets water
    /// in. Every cell that is not loaded is air.
    pub open spec fn is_air(self, x: int, y: int) -> bool {
        self.block_at(x, y).block_type == BlockType::Air
    }

    /// The world with the given `water` at column `x` and row `y`.
    pub open spec fn with_water(self, x: int, y: int, water: usize) -> World {
        self.with_block(x, y, Block { water, ..self.block_at(x, y) })
    }

    /// The world with the cell at `x`, `y` on the list of cells whose water
    /// is to flow, where that is `wanted` and it is not yet there.
    pub open spec fn activated(self, wanted: bool, x: int, y: int) -> World {
        let position = (x as isize, y as isize);
        if wanted && !self.water_update.contains(position) {
            World { water_update: self.water_update.push(position), ..self }
        } else {
            self
        }
    }

    /// The room in the cell below `x`, `y`: what brings it up to its
    /// ceiling, the pressure of the cell at `x`, `y`; none where it stands at
    /// the ceiling or above it.
    pub open spec fn room_below(self, x: int, y: int) -> int {
        let room = pressure(self.water(x, y)) - self.water(x, y + 1);
        if room > 0 {
            room
        } else {
            0
        }
    }

    /// Whether the fall of water from the cell at `x`, `y` is held back: there
    /// is less room below than the water that would fall.
    pub open spec fn fall_capped(self, x: int, y: int) -> bool {
        lesser(self.water(x, y), WATER_UNIT as int) > self.room_below(x, y)
    }

    /// How much water falls from the cell at `x`, `y` into the cell below:
    /// one unit, or all there is where that is less, and no more than there
    /// is room for below, so that the cell below does not pass its ceiling.
    pub open spec fn falling(self, x: int, y: int) -> int {
        lesser(lesser(self.water(x, y), WATER_UNIT as int), self.room_below(x, y))
    }

    /// The world after water has fallen from the cell at `x`, `y` into the
    /// cell below, which is listed to flow where any water has moved.
    pub open spec fn fallen(self, x: int, y: int) -> World {
        let quantity = self.falling(x, y);
        self.with_water(x, y + 1, (self.water(x, y + 1) + quantity) as usize).with_water(
            x,
            y,
            (self.water(x, y) - quantity) as usize,
        ).activated(quantity != 0, x, y + 1)
    }

    /// The level that the cell at `x`, `y` and the cells of air to its left
    /// and right come to: the mean of their water, rounded down.
    pub open spec fn shared_level(self, x: int, y: int) -> int {
        let own = self.water(x, y);
        if self.is_air(x - 1, y) && self.is_air(x + 1, y) {
            (own + self.water(x - 1, y) + self.water(x + 1, y)) / 3
        } else if self.is_air(x - 1, y) {
            (own + self.water(x - 1, y)) / 2
        } else if self.is_air(x + 1, y) {
            (own + self.water(x + 1, y)) / 2
        } else {
            own
        }
    }

    /// The world after the cell at `x`, `y`, beside a cell that levels out,
    /// has taken the `level`: where it is air it gets the level, and is
    /// listed to flow where that changes its water.
    pub open spec fn side_levelled(self, x: int, y: int, level: int) -> World {
        if self.is_air(x, y) {
            self.with_water(x, y, level as usize).activated(self.water(x, y) != level, x, y)
        } else {
            self
        }
    }

    /// The world after the water of the cell at `x`, `y` has levelled out
    /// with the air to its left and right. With no air on either side
    /// nothing moves.
    pub open spec fn levelled(self, x: int, y: int) -> World {
        let level = self.shared_level(x, y);
        self.with_water(x, y, level as usize).side_levelled(x - 1, y, level).side_levelled(
            x + 1,
            y,
            level,
        )
    }

    /// The world after the cell at `x`, `y` was found dry: it holds no water
    /// and is off the list.
    pub open spec fn dried(self, x: int, y: int) -> World {
        World {
            water_update: removed(self.water_update, (x as isize, y as isize)),
            ..self.with_water(x, y, 0)
        }
    }

    /// The world after the water of the cell at `x`, `y` has flowed once.
    ///
    /// A cell that holds no more than [`DRY_THRESHOLD`] is dried. Else its
    /// water falls where there is air below, as far as the ceiling of the
    /// cell below allows; and where there is no air below, or the fall was
    /// held back, it levels out with the air to its sides.
    pub open spec fn water_step(self, x: int, y: int) -> World {
        if self.water(x, y) <= DRY_THRESHOLD {
            self.dried(x, y)
        } else if self.is_air(x, y + 1) {
            if self.fall_capped(x, y) {
                self.fallen(x, y).levelled(x, y)
            } else {
                self.fallen(x, y)
            }
        } else {
            self.levelled(x, y)
        }
    }

    /// The world after the water of each of the `cells` has flowed once, in
    /// their order.
    pub open spec fn flowed(self, cells: Seq<(isize, isize)>) -> World
        decreases cells.len(),
    {
        if cells.len() == 0 {
            self
        } else {
            let last = cells.last();
            self.flowed(cells.drop_last()).water_step(last.0 as int, last.1 as int)
        }
    }

    /// The world after one pass of the water: every cell that is listed
    /// when the pass begins has flowed once.
    pub open spec fn water_pass(self) -> World {
        self.flowed(self.water_update)
    }

    /// The world after the first `cells` cells of the loaded chunk at place
    /// `chunk` were looked at, column by column from the top, and every one
    /// that holds water was put on the list of cells whose water is to flow.
    pub open spec fn woken(self, chunk: int, cells: nat) -> World
        decreases cells,
    {
        if cells == 0 {
            self
        } else {
            let before = self.woken(chunk, (cells - 1) as nat);
            let x = (self.first_chunk + chunk) * 32 + (cells - 1) / 2048;
            let y = (cells - 1) % 2048;
            if self.water(x, y) > 0 {
                World {
                    water_update: before.water_update.push((x as isize, y as isize)),
                    ..before
                }
            } else {
                before
            }
        }
    }
}

/// Listing the cells that hold water changes nothing but the list.
pub proof fn lemma_woken_cells(w: World, chunk: int, cells: nat)
    ensures
        w.woken(chunk, cells).cells == w.cells,
        w.woken(chunk, cells).first_chunk == w.first_chunk,
        w.woken(chunk, cells).chunk_count == w.chunk_count,
        w.woken(chunk, cells).configs == w.configs,
        w.woken(chunk, cells).first_block == w.first_block,
        w.woken(chunk, cells).light_update == w.light_update,
        w.woken(chunk, cells).light_to_render == w.light_to_render,
        w.woken(chunk, cells).block_to_render == w.block_to_render,
    decreases cells,
{
    if cells > 0 {
        lemma_woken_cells(w, chunk, (cells - 1) as nat);
    }
}

/// Whether `position` is in `list`.
fn listed(list: &Vec<(isize, isize)>, position: (isize, isize)) -> (found: bool)
    ensures
        found == list@.contains(position),
{
    let mut i: usize = 0;
    while i < list.len()
        invariant
            i <= list.len(),
            forall|k: int| 0 <= k < i ==> list@[k] != position,
        decreases list.len() - i,
    {
        let e = list[i];
        if e.0 == position.0 && e.1 == position.1 {
            return true;
        }
        i += 1;
    }
    false
}

/// A copy of `list`.
fn copied(list: &Vec<(isize, isize)>) -> (copy: Vec<(isize, isize)>)
    ensures
        copy@ == list@,
{
    let mut copy: Vec<(isize, isize)> = Vec::new();
    let mut i: usize = 0;
    while i < list.len()
        invariant
            i <= list.len(),
            copy@ == list@.take(i as int),
        decreases list.len() - i,
    {
        copy.push(list[i]);
        assert(list@.take(i + 1) =~= list@.take(i as int).push(list@[i as int]));
        i += 1;
    }
    assert(list@.take(list.len() as int) =~= list@);
    copy
}

/// `list` without any entry equal to `position`.
fn without(list: &Vec<(isize, isize)>, position: (isize, isize)) -> (rest: Vec<(isize, isize)>)
    ensures
        rest@ == removed(list@, position),
{
    let mut rest: Vec<(isize, isize)> = Vec::new();
    let mut i: usize = 0;
    while i < list.len()
        invariant
            i <= list.len(),
            rest@ == removed(list@.take(i as int), position),
        decreases list.len() - i,
    {
        let e = list[i];
        assert(list@.take(i + 1).drop_last() =~= list@.take(i as int));
        if !(e.0 == position.0 && e.1 == position.1) {
            rest.push(e);
        }
        i += 1;
    }
    assert(list@.take(list.len() as int) =~= list@);
    rest
}

impl WorldMap {
    /// Sets the water of the cell at `x`, `y`. Outside the loaded cells the
    /// water is lost.
    fn set_water(&mut self, x: isize, y: isize, water: usize)
        requires
            old(self).wf(),
        ensures
            final(self).wf(),
            final(self)@ == old(self)@.with_water(x as int, y as int, water),
    {
        let block = self.get(x, y);
        self.put(
            x,
            y,
            Block {
                block_type: block.block_type,
                natural_background: block.natural_background,
                light: block.light,
                water,
            },
        );
    }

    /// Lists the cell at `x`, `y` as one whose water is to flow, where that
    /// is `wanted` and it is not yet listed.
    fn activate(&mut self, wanted: bool, x: isize, y: isize)
        requires
            old(self).wf(),
        ensures
            final(self).wf(),
            final(self)@ == old(self)@.activated(wanted, x as int, y as int),
    {
        if wanted && !listed(&self.water_update, (x, y)) {
            self.water_update.push((x, y));
        }
        assert(self@ =~= old(self)@.activated(wanted, x as int, y as int));
    }

    /// Whether the block at `x`, `y` is air.
    fn air_at(&self, x: isize, y: isize) -> (air: bool)
        requires
            self.wf(),
        ensures
            air == self@.is_air(x as int, y as int),
    {
        match self.get(x, y).block_type {
            BlockType::Air => true,
            _ => false,
        }
    }

    /// How much water falls from the loaded cell at `x`, `y`, and whether
    /// its fall is held back.
    fn fall_of(&self, x: isize, y: isize) -> (fall: (usize, bool))
        requires
            self.wf(),
            self@.loaded(x as int, y as int),
        ensures
            fall.0 == self@.falling(x as int, y as int),
            fall.1 == self@.fall_capped(x as int, y as int),
            fall.0 <= self@.water(x as int, y as int),
            self@.water(x as int, y + 1) + fall.0 <= usize::MAX,
    {
        let own = self.get(x, y).water;
        let below = self.get(x, y + 1).water;
        let offered = if own > WATER_UNIT {
            WATER_UNIT
        } else {
            own
        };
        let ceiling: usize = if own <= 16 * WATER_UNIT {
            16 * WATER_UNIT
        } else if own <= 17 * WATER_UNIT {
            17 * WATER_UNIT
        } else if own <= 18 * WATER_UNIT {
            18 * WATER_UNIT
        } else if own <= 19 * WATER_UNIT {
            19 * WATER_UNIT
        } else if own <= 20 * WATER_UNIT {
            20 * WATER_UNIT
        } else {
            21 * WATER_UNIT
        };
        let room = if below >= ceiling {
            0
        } else {
            ceiling - below
        };
        if offered > room {
            (room, true)
        } else {
            (offered, false)
        }
    }

    /// Lets water fall from the loaded cell at `x`, `y` into the cell below,
    /// and says whether the fall was held back.
    fn fall(&mut self, x: isize, y: isize) -> (capped: bool)
        requires
            old(self).wf(),
            old(self)@.loaded(x as int, y as int),
        ensures
            final(self).wf(),
            final(self)@ == old(self)@.fallen(x as int, y as int),
            capped == old(self)@.fall_capped(x as int, y as int),
    {
        let own = self.get(x, y).water;
        let below = self.get(x, y + 1).water;
        let (quantity, capped) = self.fall_of(x, y);
        self.set_water(x, y + 1, below + quantity);
        self.set_water(x, y, own - quantity);
        self.activate(quantity != 0, x, y + 1);
        capped
    }

    /// The level that the loaded cell at `x`, `y` and the air to its sides
    /// come to.
    fn level_of(&self, x: isize, y: isize) -> (level: usize)
        requires
            self.wf(),
            self@.loaded(x as int, y as int),
        ensures
            level == self@.shared_level(x as int, y as int),
    {
        let own = self.get(x, y).water as u128;
        let left = self.get(x - 1, y).water as u128;
        let right = self.get(x + 1, y).water as u128;
        let left_open = self.air_at(x - 1, y);
        let right_open = self.air_at(x + 1, y);
        let level: u128 = if left_open && right_open {
            (own + left + right) / 3
        } else if left_open {
            (own + left) / 2
        } else if right_open {
            (own + right) / 2
        } else {
            own
        };
        level as usize
    }

    /// Gives the cell at `x`, `y` the `level`, where it is air.
    fn level_side(&mut self, x: isize, y: isize, level: usize)
        requires
            old(self).wf(),
        ensures
            final(self).wf(),
            final(self)@ == old(self)@.side_levelled(x as int, y as int, level as int),
    {
        if self.air_at(x, y) {
            let water = self.get(x, y).water;
            self.set_water(x, y, level);
            self.activate(water != level, x, y);
        }
    }

    /// Levels the water of the loaded cell at `x`, `y` out with the air to
    /// its sides.
    fn level(&mut self, x: isize, y: isize)
        requires
            old(self).wf(),
            old(self)@.loaded(x as int, y as int),
        ensures
            final(self).wf(),
            final(self)@ == old(self)@.levelled(x as int, y as int),
    {
        let level = self.level_of(x, y);
        self.set_water(x, y, level);
        self.level_side(x - 1, y, level);
        self.level_side(x + 1, y, level);
    }

    /// Dries the cell at `x`, `y` and takes it off the list.
    fn dry(&mut self, x: isize, y: isize)
        requires
            old(self).wf(),
        ensures
            final(self).wf(),
            final(self)@ == old(self)@.dried(x as int, y as int),
    {
        self.set_water(x, y, 0);
        let rest = without(&self.water_update, (x, y));
        self.water_update = rest;
        assert(self@ =~= old(self)@.dried(x as int, y as int));
    }

    /// Looks through the loaded chunk at place `chunk_index`, column by
    /// column from the top, and lists every cell that holds water as one
    /// whose water is to flow.
    pub fn init_water(&mut self, chunk_index: usize)
        requires
            old(self).wf(),
            chunk_index < old(self)@.chunk_count,
        ensures
            final(self).wf(),
            final(self)@ == old(self)@.woken(chunk_index as int, 65536),
    {
        let left: isize = (self.first_chunk_number + chunk_index as isize) * 32;
        let mut column: usize = 0;
        while column < 32
            invariant
                self.wf(),
                chunk_index < old(self)@.chunk_count,
                column <= 32,
                left == (old(self)@.first_chunk + chunk_index) * 32,
                self@ == old(self)@.woken(chunk_index as int, (column * 2048) as nat),
            decreases 32 - column,
        {
            let mut y: usize = 0;
            while y < 2048
                invariant
                    self.wf(),
                    chunk_index < old(self)@.chunk_count,
                    column < 32,
                    y <= 2048,
                    left == (old(self)@.first_chunk + chunk_index) * 32,
                    self@ == old(self)@.woken(chunk_index as int, (column * 2048 + y) as nat),
                decreases 2048 - y,
            {
                let x: isize = left + column as isize;
                let ghost cells = (column * 2048 + y + 1) as nat;
                assert((cells - 1) / 2048 == column && (cells - 1) % 2048 == y);
                assert(self@.water(x as int, y as int) == old(self)@.water(x as int, y as int)) by {
                    lemma_woken_cells(old(self)@, chunk_index as int, (cells - 1) as nat);
                }
                let ghost before = self@;
                if self.get(x, y as isize).water > 0 {
                    self.water_update.push((x, y as isize));
                    assert(self@ =~= World {
                        water_update: before.water_update.push((x, y as isize)),
                        ..before
                    });
                }
                y += 1;
                assert(self@ == old(self)@.woken(chunk_index as int, cells));
            }
            column += 1;
        }
    }

    /// Lets the water of the cell at `x`, `y` flow once.
    pub fn flow_cell(&mut self, x: isize, y: isize)
        requires
            old(self).wf(),
        ensures
            final(self).wf(),
            final(self)@ == old(self)@.water_step(x as int, y as int),
    {
        if self.get(x, y).water <= DRY_THRESHOLD {
            self.dry(x, y);
        } else if self.air_at(x, y + 1) {
            let capped = self.fall(x, y);
            if capped {
                self.level(x, y);
            }
        } else {
            self.level(x, y);
        }
    }

    /// One pass of the water: every cell that is listed when the pass
    /// begins flows once, in the order of the list. A list of more than
    /// [`WATER_STEP_CAP`] cells is not worked on at all: the water is then
    /// held to have run away, and the error says so.
    pub fn flow_water(&mut self) -> (result: Result<(), SimulationError>)
        requires
            old(self).wf(),
        ensures
            final(self).wf(),
            result is Err <==> old(self)@.water_update.len() > WATER_STEP_CAP,
            result is Err ==> result == Err::<(), SimulationError>(SimulationError::WaterDiverged)
                && final(self)@ == old(self)@,
            result is Ok ==> final(self)@ == old(self)@.water_pass(),
    {
        if self.water_update.len() > WATER_STEP_CAP {
            return Err(SimulationError::WaterDiverged);
        }
        let cells = copied(&self.water_update);
        let mut i: usize = 0;
        while i < cells.len()
            invariant
                self.wf(),
                i <= cells.len(),
                self@ == old(self)@.flowed(cells@.take(i as int)),
            decreases cells.len() - i,
        {
            let (x, y) = cells[i];
            assert(cells@.take(i + 1).drop_last() =~= cells@.take(i as int));
            self.flow_cell(x, y);
            i += 1;
        }
        assert(cells@.take(cells.len() as int) =~= cells@);
        Ok(())
    }
}

} // verus!
