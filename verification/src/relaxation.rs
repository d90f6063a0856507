//! What the spreading of the light comes to: once the work list is empty,
//! every cell has the light that its neighbours give it.

use crate::blocks::MAX_LIGHT;
use crate::light::{lemma_seeded_window, queued, LIGHT_STEP_CAP};
use crate::map::{lemma_with_block, World};
use vstd::prelude::*;

verus! {

impl World {
    /// Whether the cell at `x`, `y` is a source of light: a cell of the top
    /// row at full light.
    pub open spec fn is_source(self, x: int, y: int) -> bool {
        y == 0 && self.light(x, y) == MAX_LIGHT
    }

    /// Whether the cell at `x`, `y` is at rest: it is a source, or has
    /// exactly the light that its neighbours give it.
    pub open spec fn settled(self, x: int, y: int) -> bool {
        self.is_source(x, y) || self.light(x, y) == self.relaxed_light(x, y)
    }

    /// Whether the cell at `x`, `y` has no more light than it can have: it
    /// is a source, or has no more than its neighbours give it.
    pub open spec fn not_overlit(self, x: int, y: int) -> bool {
        self.is_source(x, y) || self.light(x, y) <= self.relaxed_light(x, y)
    }

    /// Whether the cell at `x`, `y` is listed to grow.
    pub open spec fn awaits_growth(self, x: int, y: int) -> bool {
        self.light_update.contains((x as isize, y as isize, false))
    }

    /// Whether every entry of the work list asks for growth, and none for
    /// the growth of a source.
    pub open spec fn grows_only(self) -> bool {
        forall|i: int|
            0 <= i < self.light_update.len() ==> {
                let entry = #[trigger] self.light_update[i];
                &&& !entry.2
                &&& !(self.loaded(entry.0 as int, entry.1 as int) && self.is_source(
                    entry.0 as int,
                    entry.1 as int,
                ))
            }
    }

    /// Whether the cell at `x`, `y`, where it is loaded, has no more than
    /// full light and no more light than it can have.
    pub open spec fn cell_bounded(self, x: int, y: int) -> bool {
        self.loaded(x, y) ==> self.light(x, y) <= MAX_LIGHT && self.not_overlit(x, y)
    }

    /// Whether the cell at `x`, `y`, where it is loaded, is at rest or
    /// listed to grow.
    pub open spec fn cell_tended(self, x: int, y: int) -> bool {
        self.loaded(x, y) ==> self.settled(x, y) || self.awaits_growth(x, y)
    }

    /// Whether the light is on its way to rest: the work list asks for
    /// growth only and never for a source, no loaded cell has more than full
    /// light or more than it can have, and every loaded cell that is not at
    /// rest is listed to grow.
    pub open spec fn relaxing(self) -> bool {
        &&& self.wf()
        &&& self.grows_only()
        &&& forall|x: int, y: int| #[trigger] self.cell_bounded(x, y)
        &&& forall|x: int, y: int| #[trigger] self.cell_tended(x, y)
    }

    /// Whether the light stays within bounds as it grows: the work list asks
    /// for growth only and never for a source, and no loaded cell has more
    /// than full light or more than it can have.
    pub open spec fn bounded(self) -> bool {
        &&& self.wf()
        &&& self.grows_only()
        &&& forall|x: int, y: int| #[trigger] self.cell_bounded(x, y)
    }

    /// Whether the cell at `x`, `y` is listed to lose its light.
    pub open spec fn awaits_retraction(self, x: int, y: int) -> bool {
        self.light_update.contains((x as isize, y as isize, true))
    }

    /// Whether every entry of the work list asks for light to be taken back.
    pub open spec fn retracts_only(self) -> bool {
        forall|i: int| 0 <= i < self.light_update.len() ==> (#[trigger] self.light_update[i]).2
    }

    /// Whether the cell at `x`, `y`, where it is loaded, is dark, at rest, or
    /// listed to lose its light.
    pub open spec fn cell_fading(self, x: int, y: int) -> bool {
        self.loaded(x, y) ==> self.light(x, y) == 0 || self.settled(x, y)
            || self.awaits_retraction(x, y)
    }

    /// Whether light is being taken back in good order: the work list asks
    /// for nothing else, and every loaded cell that is lit and not at rest
    /// is listed to lose its light.
    pub open spec fn retracting(self) -> bool {
        &&& self.wf()
        &&& self.retracts_only()
        &&& forall|x: int, y: int| #[trigger] self.cell_fading(x, y)
    }

    /// Whether every loaded cell is dark or at rest.
    pub open spec fn dark_or_relaxed(self) -> bool {
        forall|x: int, y: int|
            self.loaded(x, y) ==> self.light(x, y) == 0 || #[trigger] self.settled(x, y)
    }

    /// Whether the light is at rest: every loaded cell is a source or has
    /// exactly the light that its neighbours give it.
    pub open spec fn relaxed(self) -> bool {
        forall|x: int, y: int| self.loaded(x, y) ==> #[trigger] self.settled(x, y)
    }

    /// Whether every loaded cell is dark.
    pub open spec fn dark(self) -> bool {
        forall|x: int, y: int| self.loaded(x, y) ==> #[trigger] self.light(x, y) == 0
    }
}

/// What `queued` lists: what was listed, and the entry where it was wanted.
pub proof fn lemma_queued(list: Seq<(isize, isize, bool)>, wanted: bool, entry: (isize, isize, bool))
    ensures
        forall|e: (isize, isize, bool)|
            #[trigger] queued(list, wanted, entry).contains(e) <==> list.contains(e) || (wanted && e
                == entry),
{
    let after = queued(list, wanted, entry);
    assert forall|e: (isize, isize, bool)| #[trigger]
        after.contains(e) <==> list.contains(e) || (wanted && e == entry) by {
        if wanted && !list.contains(entry) {
            if list.contains(e) {
                let i = choose|i: int| 0 <= i < list.len() && list[i] == e;
                assert(after[i] == e);
            }
            if e == entry {
                assert(after[list.len() as int] == e);
            }
            if after.contains(e) {
                let i = choose|i: int| 0 <= i < after.len() && after[i] == e;
                if i < list.len() {
                    assert(list[i] == e);
                }
            }
        }
    }
}

/// The light of a cell after some cell was given a light: the new light in
/// that cell, the old one in every other. The loss of no cell changes.
pub proof fn lemma_with_light(w: World, x: int, y: int, light: usize, x2: int, y2: int)
    requires
        w.wf(),
    ensures
        w.with_light(x, y, light).wf(),
        w.with_light(x, y, light).loaded(x2, y2) == w.loaded(x2, y2),
        w.with_light(x, y, light).loss(x2, y2) == w.loss(x2, y2),
        w.with_light(x, y, light).light(x2, y2) == if x2 == x && y2 == y && w.loaded(x, y) {
            light as int
        } else {
            w.light(x2, y2)
        },
{
    lemma_with_block(w, x, y, crate::blocks::Block { light, ..w.block_at(x, y) }, x2, y2);
}

/// What a step of growth does to one cell. `grown` is the world `w` after
/// the cell at `x`, `y` has grown to the `light` that its neighbours give
/// it; `listed` and `listed_after` say whether the cell at `x2`, `y2` is
/// listed to grow before and after.
proof fn lemma_growth_cell(
    w: World,
    grown: World,
    x: int,
    y: int,
    light: int,
    x2: int,
    y2: int,
    listed: bool,
    listed_after: bool,
)
    requires
        light == w.relaxed_light(x, y),
        w.light(x, y) <= light <= MAX_LIGHT,
        w.loaded(x, y),
        w.loaded(x2, y2),
        grown.loaded(x2, y2),
        grown.loss(x2, y2) == w.loss(x2, y2),
        grown.light(x2, y2) == if x2 == x && y2 == y {
            light
        } else {
            w.light(x2, y2)
        },
        grown.light(x2 - 1, y2) == if x2 - 1 == x && y2 == y {
            light
        } else {
            w.light(x2 - 1, y2)
        },
        grown.light(x2 + 1, y2) == if x2 + 1 == x && y2 == y {
            light
        } else {
            w.light(x2 + 1, y2)
        },
        grown.light(x2, y2 - 1) == if x2 == x && y2 - 1 == y {
            light
        } else {
            w.light(x2, y2 - 1)
        },
        grown.light(x2, y2 + 1) == if x2 == x && y2 + 1 == y {
            light
        } else {
            w.light(x2, y2 + 1)
        },
        w.light(x2, y2) <= MAX_LIGHT,
        w.not_overlit(x2, y2),
        listed ==> listed_after,
        ((x2 == x + 1 && y2 == y) || (x2 == x - 1 && y2 == y) || (x2 == x && y2 == y - 1) || (x2
            == x && y2 == y + 1)) && w.darker_than_fed(x2, y2, light) ==> listed_after,
    ensures
        grown.light(x2, y2) <= MAX_LIGHT,
        grown.not_overlit(x2, y2),
        w.settled(x2, y2) || listed || (x2 == x && y2 == y) ==> grown.settled(x2, y2)
            || listed_after,
{
}

/// A step of growth keeps the light within bounds.
pub proof fn lemma_growth_bounded(w: World, x: int, y: int)
    requires
        w.wf(),
        w.loaded(x, y),
        !w.is_source(x, y),
        w.grows_only(),
        forall|x2: int, y2: int| #[trigger] w.cell_bounded(x2, y2),
    ensures
        w.light_grown(x, y).bounded(),
        w.light(x, y) <= w.relaxed_light(x, y) < MAX_LIGHT,
{
    let light = w.relaxed_light(x, y);
    let list = w.light_update;
    let right = ((x + 1) as isize, y as isize, false);
    let left = ((x - 1) as isize, y as isize, false);
    let above = (x as isize, (y - 1) as isize, false);
    let below = (x as isize, (y + 1) as isize, false);
    let q1 = queued(list, w.darker_than_fed(x + 1, y, light), right);
    let q2 = queued(q1, w.darker_than_fed(x - 1, y, light), left);
    let q3 = queued(q2, w.darker_than_fed(x, y - 1, light), above);
    let q4 = queued(q3, w.darker_than_fed(x, y + 1, light), below);
    lemma_queued(list, w.darker_than_fed(x + 1, y, light), right);
    lemma_queued(q1, w.darker_than_fed(x - 1, y, light), left);
    lemma_queued(q2, w.darker_than_fed(x, y - 1, light), above);
    lemma_queued(q3, w.darker_than_fed(x, y + 1, light), below);
    let grown = w.light_grown(x, y);
    assert(grown.light_update == q4);
    assert(grown.cells == w.with_light(x, y, light as usize).cells);
    assert(w.loss(x, y) >= 1);
    assert(w.light(x, y) <= light < MAX_LIGHT) by {
        assert(w.cell_bounded(x, y));
        assert(w.cell_bounded(x - 1, y));
        assert(w.cell_bounded(x + 1, y));
        assert(w.cell_bounded(x, y - 1));
        assert(w.cell_bounded(x, y + 1));
    }
    assert(grown.wf()) by {
        lemma_with_light(w, x, y, light as usize, x, y);
    }
    assert(grown.grows_only()) by {
        assert forall|i: int| 0 <= i < grown.light_update.len() implies {
            let entry = #[trigger] grown.light_update[i];
            &&& !entry.2
            &&& !(grown.loaded(entry.0 as int, entry.1 as int) && grown.is_source(
                entry.0 as int,
                entry.1 as int,
            ))
        } by {
            let entry = q4[i];
            assert(q4.contains(entry));
            lemma_with_light(w, x, y, light as usize, entry.0 as int, entry.1 as int);
            if list.contains(entry) {
                let k = choose|k: int| 0 <= k < list.len() && list[k] == entry;
                assert(list[k] == entry);
            }
        }
    }
    assert forall|x2: int, y2: int| #[trigger] grown.cell_bounded(x2, y2) by {
        lemma_with_light(w, x, y, light as usize, x2, y2);
        lemma_with_light(w, x, y, light as usize, x2 - 1, y2);
        lemma_with_light(w, x, y, light as usize, x2 + 1, y2);
        lemma_with_light(w, x, y, light as usize, x2, y2 - 1);
        lemma_with_light(w, x, y, light as usize, x2, y2 + 1);
        if w.loaded(x2, y2) {
            assert(w.cell_bounded(x2, y2));
            lemma_growth_cell(w, grown, x, y, light, x2, y2, true, true);
        }
    }
}

/// A step of growth keeps the light on its way to rest.
pub proof fn lemma_growth_relaxing(w: World, x: int, y: int)
    requires
        w.wf(),
        w.loaded(x, y),
        !w.is_source(x, y),
        w.grows_only(),
        forall|x2: int, y2: int| #[trigger] w.cell_bounded(x2, y2),
        forall|x2: int, y2: int| !(x2 == x && y2 == y) ==> #[trigger] w.cell_tended(x2, y2),
    ensures
        w.light_grown(x, y).relaxing(),
{
    lemma_growth_bounded(w, x, y);
    let light = w.relaxed_light(x, y);
    let list = w.light_update;
    let right = ((x + 1) as isize, y as isize, false);
    let left = ((x - 1) as isize, y as isize, false);
    let above = (x as isize, (y - 1) as isize, false);
    let below = (x as isize, (y + 1) as isize, false);
    let q1 = queued(list, w.darker_than_fed(x + 1, y, light), right);
    let q2 = queued(q1, w.darker_than_fed(x - 1, y, light), left);
    let q3 = queued(q2, w.darker_than_fed(x, y - 1, light), above);
    let q4 = queued(q3, w.darker_than_fed(x, y + 1, light), below);
    lemma_queued(list, w.darker_than_fed(x + 1, y, light), right);
    lemma_queued(q1, w.darker_than_fed(x - 1, y, light), left);
    lemma_queued(q2, w.darker_than_fed(x, y - 1, light), above);
    lemma_queued(q3, w.darker_than_fed(x, y + 1, light), below);
    let grown = w.light_grown(x, y);
    assert(grown.light_update == q4);
    assert(grown.cells == w.with_light(x, y, light as usize).cells);
    assert forall|x2: int, y2: int| #[trigger] grown.cell_tended(x2, y2) by {
        lemma_with_light(w, x, y, light as usize, x2, y2);
        lemma_with_light(w, x, y, light as usize, x2 - 1, y2);
        lemma_with_light(w, x, y, light as usize, x2 + 1, y2);
        lemma_with_light(w, x, y, light as usize, x2, y2 - 1);
        lemma_with_light(w, x, y, light as usize, x2, y2 + 1);
        if w.loaded(x2, y2) {
            assert(w.cell_bounded(x2, y2));
            if !(x2 == x && y2 == y) {
                assert(w.cell_tended(x2, y2));
            }
            let wanted = (x2 as isize, y2 as isize, false);
            lemma_growth_cell(
                w,
                grown,
                x,
                y,
                light,
                x2,
                y2,
                list.contains(wanted),
                q4.contains(wanted),
            );
        }
    }
}

/// A step of the light keeps the light on its way to rest.
pub proof fn lemma_light_step_relaxing(w: World)
    requires
        w.relaxing(),
        w.light_update.len() > 0,
    ensures
        w.light_step().relaxing(),
{
    let entry = w.light_update[0];
    let x = entry.0 as int;
    let y = entry.1 as int;
    let rest = w.light_update.remove(0);
    let taken = World { light_update: rest, ..w };
    assert(!entry.2);
    assert(taken.grows_only()) by {
        assert forall|i: int| 0 <= i < rest.len() implies {
            let e = #[trigger] rest[i];
            &&& !e.2
            &&& !(taken.loaded(e.0 as int, e.1 as int) && taken.is_source(e.0 as int, e.1 as int))
        } by {
            assert(rest[i] == w.light_update[i + 1]);
        }
    }
    assert forall|x2: int, y2: int| #[trigger] taken.cell_bounded(x2, y2) by {
        assert(w.cell_bounded(x2, y2));
    }
    assert forall|x2: int, y2: int| !(w.loaded(x, y) && x2 == x && y2 == y) implies #[trigger] taken.cell_tended(
        x2,
        y2,
    ) by {
        assert(w.cell_tended(x2, y2));
        if w.loaded(x2, y2) && !w.settled(x2, y2) {
            let wanted = (x2 as isize, y2 as isize, false);
            let k = choose|k: int| 0 <= k < w.light_update.len() && w.light_update[k] == wanted;
            assert(k > 0);
            assert(rest[k - 1] == wanted);
        }
    }
    if w.loaded(x, y) {
        lemma_growth_relaxing(taken, x, y);
    }
}

/// A step of the light keeps the light within bounds.
pub proof fn lemma_light_step_bounded(w: World)
    requires
        w.bounded(),
        w.light_update.len() > 0,
    ensures
        w.light_step().bounded(),
{
    let entry = w.light_update[0];
    let x = entry.0 as int;
    let y = entry.1 as int;
    let rest = w.light_update.remove(0);
    let taken = World { light_update: rest, ..w };
    assert(!entry.2);
    assert(taken.grows_only()) by {
        assert forall|i: int| 0 <= i < rest.len() implies {
            let e = #[trigger] rest[i];
            &&& !e.2
            &&& !(taken.loaded(e.0 as int, e.1 as int) && taken.is_source(e.0 as int, e.1 as int))
        } by {
            assert(rest[i] == w.light_update[i + 1]);
        }
    }
    assert forall|x2: int, y2: int| #[trigger] taken.cell_bounded(x2, y2) by {
        assert(w.cell_bounded(x2, y2));
    }
    if w.loaded(x, y) {
        lemma_growth_bounded(taken, x, y);
    }
}

/// Growing light stays within bounds: however far the light spreads from a
/// world that is within bounds, no loaded cell comes to hold more than full
/// light, or more light than its neighbours can give it.
pub proof fn lemma_spread_bounded(w: World, steps: nat)
    requires
        w.bounded(),
    ensures
        w.spread(steps).bounded(),
        forall|x: int, y: int|
            w.spread(steps).loaded(x, y) ==> #[trigger] w.spread(steps).not_overlit(x, y),
    decreases steps,
{
    if steps > 0 && w.light_update.len() > 0 {
        lemma_light_step_bounded(w);
        lemma_spread_bounded(w.light_step(), (steps - 1) as nat);
    }
    let spread = w.spread(steps);
    assert forall|x: int, y: int| spread.loaded(x, y) implies #[trigger] spread.not_overlit(
        x,
        y,
    ) by {
        assert(spread.cell_bounded(x, y));
    }
}

/// What taking light back does to one cell. `faded` is the world `w` after
/// the light of the cell at `x`, `y` was taken back; `listed` and
/// `listed_after` say whether the cell at `x2`, `y2` is listed to lose its
/// light before and after.
proof fn lemma_retraction_cell(
    w: World,
    faded: World,
    x: int,
    y: int,
    x2: int,
    y2: int,
    listed: bool,
    listed_after: bool,
)
    requires
        w.loaded(x, y),
        w.loaded(x2, y2),
        faded.loaded(x2, y2),
        faded.loss(x2, y2) == w.loss(x2, y2),
        faded.light(x2, y2) == if x2 == x && y2 == y {
            0
        } else {
            w.light(x2, y2)
        },
        faded.light(x2 - 1, y2) == if x2 - 1 == x && y2 == y {
            0
        } else {
            w.light(x2 - 1, y2)
        },
        faded.light(x2 + 1, y2) == if x2 + 1 == x && y2 == y {
            0
        } else {
            w.light(x2 + 1, y2)
        },
        faded.light(x2, y2 - 1) == if x2 == x && y2 - 1 == y {
            0
        } else {
            w.light(x2, y2 - 1)
        },
        faded.light(x2, y2 + 1) == if x2 == x && y2 + 1 == y {
            0
        } else {
            w.light(x2, y2 + 1)
        },
        w.light(x2, y2) == 0 || w.settled(x2, y2) || listed || (x2 == x && y2 == y),
        listed && !(x2 == x && y2 == y) ==> listed_after,
        ((x2 == x + 1 && y2 == y) || (x2 == x - 1 && y2 == y) || (x2 == x && y2 == y - 1) || (x2
            == x && y2 == y + 1)) && w.fed_by(x2, y2, w.light(x, y)) ==> listed_after,
    ensures
        faded.light(x2, y2) == 0 || faded.settled(x2, y2) || listed_after,
{
}

/// Taking the light of a cell back keeps the taking back in good order.
pub proof fn lemma_retraction_retracting(w: World, x: int, y: int)
    requires
        w.wf(),
        w.loaded(x, y),
        w.retracts_only(),
        forall|x2: int, y2: int| !(x2 == x && y2 == y) ==> #[trigger] w.cell_fading(x2, y2),
    ensures
        w.light_retracted(x, y).retracting(),
{
    let light = w.light(x, y);
    let list = w.light_update;
    let right = ((x + 1) as isize, y as isize, true);
    let left = ((x - 1) as isize, y as isize, true);
    let above = (x as isize, (y - 1) as isize, true);
    let below = (x as isize, (y + 1) as isize, true);
    let q1 = queued(list, w.fed_by(x + 1, y, light), right);
    let q2 = queued(q1, w.fed_by(x - 1, y, light), left);
    let q3 = queued(q2, w.fed_by(x, y - 1, light), above);
    let q4 = queued(q3, w.fed_by(x, y + 1, light), below);
    lemma_queued(list, w.fed_by(x + 1, y, light), right);
    lemma_queued(q1, w.fed_by(x - 1, y, light), left);
    lemma_queued(q2, w.fed_by(x, y - 1, light), above);
    lemma_queued(q3, w.fed_by(x, y + 1, light), below);
    let faded = w.light_retracted(x, y);
    assert(faded.light_update == q4);
    assert(faded.cells == w.with_light(x, y, 0).cells);
    assert(faded.wf()) by {
        lemma_with_light(w, x, y, 0, x, y);
    }
    assert(faded.retracts_only()) by {
        assert forall|i: int| 0 <= i < faded.light_update.len() implies (
        #[trigger] faded.light_update[i]).2 by {
            let entry = q4[i];
            assert(q4.contains(entry));
            if list.contains(entry) {
                let k = choose|k: int| 0 <= k < list.len() && list[k] == entry;
                assert(list[k] == entry);
            }
        }
    }
    assert forall|x2: int, y2: int| #[trigger] faded.cell_fading(x2, y2) by {
        lemma_with_light(w, x, y, 0, x2, y2);
        lemma_with_light(w, x, y, 0, x2 - 1, y2);
        lemma_with_light(w, x, y, 0, x2 + 1, y2);
        lemma_with_light(w, x, y, 0, x2, y2 - 1);
        lemma_with_light(w, x, y, 0, x2, y2 + 1);
        if w.loaded(x2, y2) {
            if !(x2 == x && y2 == y) {
                assert(w.cell_fading(x2, y2));
            }
            let wanted = (x2 as isize, y2 as isize, true);
            lemma_retraction_cell(
                w,
                faded,
                x,
                y,
                x2,
                y2,
                list.contains(wanted),
                q4.contains(wanted),
            );
        }
    }
}

/// A step of the light keeps the taking back of light in good order.
pub proof fn lemma_light_step_retracting(w: World)
    requires
        w.retracting(),
        w.light_update.len() > 0,
    ensures
        w.light_step().retracting(),
{
    let entry = w.light_update[0];
    let x = entry.0 as int;
    let y = entry.1 as int;
    let rest = w.light_update.remove(0);
    let taken = World { light_update: rest, ..w };
    assert(entry.2);
    assert(taken.retracts_only()) by {
        assert forall|i: int| 0 <= i < rest.len() implies (#[trigger] rest[i]).2 by {
            assert(rest[i] == w.light_update[i + 1]);
        }
    }
    assert forall|x2: int, y2: int| !(w.loaded(x, y) && x2 == x && y2 == y) implies #[trigger] taken.cell_fading(
        x2,
        y2,
    ) by {
        assert(w.cell_fading(x2, y2));
        if w.loaded(x2, y2) && w.light(x2, y2) != 0 && !w.settled(x2, y2) {
            let wanted = (x2 as isize, y2 as isize, true);
            let k = choose|k: int| 0 <= k < w.light_update.len() && w.light_update[k] == wanted;
            assert(k > 0);
            assert(rest[k - 1] == wanted);
        }
    }
    if w.loaded(x, y) {
        lemma_retraction_retracting(taken, x, y);
    }
}

/// Light that is taken back leaves nothing hanging. Where light was being
/// taken back in good order and the work list has run empty, every loaded
/// cell is dark or at rest: no cell keeps light that its neighbours do not
/// give it.
pub proof fn lemma_retracted_light_is_dark_or_relaxed(w: World, steps: nat)
    requires
        w.retracting(),
        w.spread(steps).light_update.len() == 0,
    ensures
        w.spread(steps).wf(),
        w.spread(steps).dark_or_relaxed(),
        forall|x: int, y: int|
            w.spread(steps).loaded(x, y) ==> #[trigger] w.spread(steps).not_overlit(x, y),
    decreases steps,
{
    if steps > 0 && w.light_update.len() > 0 {
        lemma_light_step_retracting(w);
        lemma_retracted_light_is_dark_or_relaxed(w.light_step(), (steps - 1) as nat);
    } else {
        assert forall|x: int, y: int| w.loaded(x, y) implies w.light(x, y) == 0
            || #[trigger] w.settled(x, y) by {
            assert(w.cell_fading(x, y));
            if w.awaits_retraction(x, y) {
                let wanted = (x as isize, y as isize, true);
                let k = choose|k: int| 0 <= k < w.light_update.len() && w.light_update[k] == wanted;
            }
        }
        assert forall|x: int, y: int| w.loaded(x, y) implies #[trigger] w.not_overlit(x, y) by {
            assert(w.light(x, y) == 0 || w.settled(x, y));
        }
    }
}

/// A world at rest, in which one cell is listed to lose its light, is in
/// good order for the light to be taken back.
pub proof fn lemma_relaxed_can_retract(w: World, x: isize, y: isize)
    requires
        w.wf(),
        w.dark_or_relaxed(),
        w.light_update == seq![(x, y, true)],
    ensures
        w.retracting(),
{
    assert forall|x2: int, y2: int| #[trigger] w.cell_fading(x2, y2) by {
        if w.loaded(x2, y2) {
            assert(w.light(x2, y2) == 0 || w.settled(x2, y2));
        }
    }
}

/// A world in which every loaded cell is dark or at rest and holds no more
/// than full light, and in which one cell that is no source is listed to
/// grow, is within bounds for its light to grow.
pub proof fn lemma_dark_or_relaxed_can_grow(w: World, x: isize, y: isize)
    requires
        w.wf(),
        w.dark_or_relaxed(),
        forall|x2: int, y2: int| w.loaded(x2, y2) ==> #[trigger] w.light(x2, y2) <= MAX_LIGHT,
        w.light_update == seq![(x, y, false)],
        !w.is_source(x as int, y as int),
    ensures
        w.bounded(),
{
    assert forall|x2: int, y2: int| #[trigger] w.cell_bounded(x2, y2) by {
        if w.loaded(x2, y2) {
            assert(w.light(x2, y2) <= MAX_LIGHT);
            assert(w.light(x2, y2) == 0 || w.settled(x2, y2));
        }
    }
}

/// Spreading the light keeps it on its way to rest.
pub proof fn lemma_spread_relaxing(w: World, steps: nat)
    requires
        w.relaxing(),
    ensures
        w.spread(steps).relaxing(),
    decreases steps,
{
    if steps > 0 && w.light_update.len() > 0 {
        lemma_light_step_relaxing(w);
        lemma_spread_relaxing(w.light_step(), (steps - 1) as nat);
    }
}

/// Light relaxation. Where the light was on its way to rest and the work
/// list has run empty, the light is at rest: every loaded cell has the light
/// of its brightest neighbour less its own loss, and none where the loss
/// takes it all, or is a source at full light. No cell has more light than
/// its neighbours can give it.
pub proof fn lemma_converged_light_is_relaxed(w: World, steps: nat)
    requires
        w.relaxing(),
        w.spread(steps).light_update.len() == 0,
    ensures
        w.spread(steps).relaxed(),
        forall|x: int, y: int|
            w.spread(steps).loaded(x, y) ==> #[trigger] w.spread(steps).not_overlit(x, y),
{
    lemma_spread_relaxing(w, steps);
    let rested = w.spread(steps);
    assert forall|x: int, y: int| rested.loaded(x, y) implies #[trigger] rested.settled(x, y) by {
        assert(rested.cell_tended(x, y));
        if rested.awaits_growth(x, y) {
            let wanted = (x as isize, y as isize, false);
            let k = choose|k: int|
                0 <= k < rested.light_update.len() && rested.light_update[k] == wanted;
        }
    }
    assert forall|x: int, y: int| rested.loaded(x, y) implies #[trigger] rested.not_overlit(
        x,
        y,
    ) by {
        assert(rested.cell_bounded(x, y));
    }
}

/// A dark world, with nothing listed, after the top cells of its first
/// `columns` columns were lit: those cells have the full light, every other
/// cell is dark, and the cells below them are listed to grow.
pub proof fn lemma_seeded_dark(w: World, columns: nat)
    requires
        w.wf(),
        w.dark(),
        w.light_update.len() == 0,
        columns <= 32 * w.chunk_count,
    ensures
        ({
            let lit = w.seeded(columns);
            &&& lit.wf()
            &&& lit.first_chunk == w.first_chunk
            &&& lit.chunk_count == w.chunk_count
            &&& lit.light_update == Seq::new(
                columns,
                |i: int| ((w.left_edge() + i) as isize, 1isize, false),
            )
            &&& forall|x: int, y: int|
                #![trigger lit.light(x, y)]
                #![trigger lit.loss(x, y)]
                lit.loss(x, y) == w.loss(x, y) && lit.light(x, y) == if y == 0 && w.left_edge() <= x
                    < w.left_edge() + columns {
                    MAX_LIGHT as int
                } else {
                    0
                }
        }),
    decreases columns,
{
    lemma_seeded_window(w, columns);
    let lit = w.seeded(columns);
    if columns == 0 {
        assert(lit.light_update =~= Seq::new(
            columns,
            |i: int| ((w.left_edge() + i) as isize, 1isize, false),
        ));
        assert forall|x: int, y: int|
            #![trigger lit.light(x, y)]
            #![trigger lit.loss(x, y)]
            lit.light(x, y) == 0 by {
            assert(w.loaded(x, y) ==> w.light(x, y) == 0);
        }
    } else {
        let before = w.seeded((columns - 1) as nat);
        lemma_seeded_dark(w, (columns - 1) as nat);
        lemma_seeded_window(w, (columns - 1) as nat);
        let x0 = w.left_edge() + columns - 1;
        assert(before.loaded(x0, 0));
        assert(before.light(x0, 0) == 0);
        let marked = before.invalidated(x0, 0);
        assert(marked.wf());
        assert(marked.cells == before.cells);
        assert(lit.cells == marked.with_light(x0, 0, MAX_LIGHT).cells);
        assert(lit.light_update =~= Seq::new(
            columns,
            |i: int| ((w.left_edge() + i) as isize, 1isize, false),
        ));
        assert forall|x: int, y: int|
            #![trigger lit.light(x, y)]
            #![trigger lit.loss(x, y)]
            lit.loss(x, y) == w.loss(x, y) && lit.light(x, y) == if y == 0 && w.left_edge() <= x
                < w.left_edge() + columns {
                MAX_LIGHT as int
            } else {
                0
            } by {
            lemma_with_light(marked, x0, 0, MAX_LIGHT, x, y);
            assert(marked.light(x, y) == before.light(x, y));
            assert(marked.loss(x, y) == before.loss(x, y));
        }
    }
}

/// Lighting the top cells of a dark world sets the light on its way to
/// rest.
pub proof fn lemma_seeded_dark_relaxing(w: World)
    requires
        w.wf(),
        w.dark(),
        w.light_update.len() == 0,
    ensures
        w.seeded((32 * w.chunk_count) as nat).relaxing(),
{
    let columns = (32 * w.chunk_count) as nat;
    let lit = w.seeded(columns);
    lemma_seeded_dark(w, columns);
    assert(lit.grows_only()) by {
        assert forall|i: int| 0 <= i < lit.light_update.len() implies {
            let entry = #[trigger] lit.light_update[i];
            &&& !entry.2
            &&& !(lit.loaded(entry.0 as int, entry.1 as int) && lit.is_source(
                entry.0 as int,
                entry.1 as int,
            ))
        } by {}
    }
    assert forall|x: int, y: int| #[trigger] lit.cell_bounded(x, y) && lit.cell_tended(x, y) by {
        if lit.loaded(x, y) {
            if y == 1 {
                let i = x - w.left_edge();
                assert(lit.light_update[i] == (x as isize, 1isize, false));
            } else if y > 1 {
                assert(lit.light(x - 1, y) == 0);
                assert(lit.light(x + 1, y) == 0);
                assert(lit.light(x, y - 1) == 0);
                assert(lit.light(x, y + 1) == 0);
            }
        }
    }
    assert forall|x: int, y: int| #[trigger] lit.cell_tended(x, y) by {
        assert(lit.cell_bounded(x, y));
    }
}

/// Setting the lights up in a dark world brings the light to rest, where
/// the spreading ends within its cap of steps.
pub proof fn lemma_dark_world_lights_up(w: World)
    requires
        w.wf(),
        w.dark(),
        w.lights_initialized().light_update.len() == 0,
    ensures
        w.lights_initialized().relaxed(),
{
    let cleared = World { light_update: Seq::empty(), ..w };
    assert forall|x: int, y: int| cleared.loaded(x, y) implies #[trigger] cleared.light(x, y)
        == 0 by {
        assert(w.light(x, y) == 0);
    }
    lemma_seeded_dark_relaxing(cleared);
    lemma_converged_light_is_relaxed(
        cleared.seeded((32 * w.chunk_count) as nat),
        LIGHT_STEP_CAP as nat,
    );
}

} // verus!
