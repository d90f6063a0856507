//! What the flow of water keeps: water is never made, is lost only over the
//! edges of the loaded world, in drying and in rounding, and a dry cell
//! stays off the work list until water reaches it.

use crate::map::{lemma_with_block, World};
use crate::water::{lesser, pressure, removed, DRY_THRESHOLD, WATER_UNIT};
use vstd::prelude::*;

verus! {

impl World {
    /// The water in the first `rows` rows of column `x`.
    pub open spec fn column_water(self, x: int, rows: nat) -> int
        decreases rows,
    {
        if rows == 0 {
            0
        } else {
            self.column_water(x, (rows - 1) as nat) + self.water(x, rows - 1)
        }
    }

    /// The water in the first `columns` loaded columns.
    pub open spec fn water_in_columns(self, columns: nat) -> int
        decreases columns,
    {
        if columns == 0 {
            0
        } else {
            self.water_in_columns((columns - 1) as nat) + self.column_water(
                self.left_edge() + columns - 1,
                2048,
            )
        }
    }

    /// All the water in the loaded cells.
    pub open spec fn total_water(self) -> int {
        self.water_in_columns((32 * self.chunk_count) as nat)
    }

    /// Whether the cells below, left and right of the cell at `x`, `y` are
    /// loaded, so that no water of the cell can leave the loaded world.
    pub open spec fn enclosed(self, x: int, y: int) -> bool {
        self.loaded(x, y + 1) && self.loaded(x - 1, y) && self.loaded(x + 1, y)
    }

    /// Whether the cell at `x`, `y` is damp: it holds water, but no more
    /// than a dry cell may.
    pub open spec fn damp(self, x: int, y: int) -> bool {
        0 < self.water(x, y) <= DRY_THRESHOLD
    }

    /// Whether, as the water of each of the `cells` flows in turn, no water
    /// can leave the loaded world and no damp cell is dried: every cell is
    /// enclosed and not damp when its turn comes.
    pub open spec fn tight_pass(self, cells: Seq<(isize, isize)>) -> bool
        decreases cells.len(),
    {
        if cells.len() == 0 {
            true
        } else {
            let before = self.flowed(cells.drop_last());
            let last = cells.last();
            &&& self.tight_pass(cells.drop_last())
            &&& before.enclosed(last.0 as int, last.1 as int)
            &&& !before.damp(last.0 as int, last.1 as int)
        }
    }

    /// Whether this world has the window of `other` and, but for the cell at
    /// `x`, `y`, its water.
    pub open spec fn same_water_but(self, other: World, x: int, y: int) -> bool {
        &&& self.first_chunk == other.first_chunk
        &&& self.chunk_count == other.chunk_count
        &&& forall|x2: int, y2: int|
            !(x2 == x && y2 == y) ==> #[trigger] self.water(x2, y2) == other.water(x2, y2)
    }
}

/// Two worlds with the same water in a column, but for one row, differ in
/// the water of the column by what they differ in that row.
pub proof fn lemma_column_water_frame(a: World, b: World, x: int, rows: nat, cx: int, cy: int)
    requires
        b.same_water_but(a, cx, cy),
    ensures
        b.column_water(x, rows) - a.column_water(x, rows) == if x == cx && 0 <= cy < rows {
            b.water(cx, cy) - a.water(cx, cy)
        } else {
            0
        },
    decreases rows,
{
    if rows > 0 {
        lemma_column_water_frame(a, b, x, (rows - 1) as nat, cx, cy);
        if !(x == cx && rows - 1 == cy) {
            assert(b.water(x, rows - 1) == a.water(x, rows - 1));
        }
    }
}

/// Two worlds with the same water, but for one cell, differ in the water of
/// their columns by what they differ in that cell.
pub proof fn lemma_columns_frame(a: World, b: World, columns: nat, cx: int, cy: int)
    requires
        b.same_water_but(a, cx, cy),
    ensures
        b.water_in_columns(columns) - a.water_in_columns(columns) == if a.left_edge() <= cx
            < a.left_edge() + columns && 0 <= cy < 2048 {
            b.water(cx, cy) - a.water(cx, cy)
        } else {
            0
        },
    decreases columns,
{
    if columns > 0 {
        lemma_columns_frame(a, b, (columns - 1) as nat, cx, cy);
        lemma_column_water_frame(a, b, a.left_edge() + columns - 1, 2048, cx, cy);
    }
}

/// Worlds with the same window and the same water hold the same total.
pub proof fn lemma_same_water(a: World, b: World)
    requires
        a.first_chunk == b.first_chunk,
        a.chunk_count == b.chunk_count,
        forall|x: int, y: int| #[trigger] b.water(x, y) == a.water(x, y),
    ensures
        a.total_water() == b.total_water(),
{
    lemma_columns_frame(a, b, (32 * a.chunk_count) as nat, 0, -1);
}

/// Writing water to a cell changes the total by what it changes in the
/// cell, and by nothing where the cell is not loaded.
pub proof fn lemma_with_water_total(w: World, x: int, y: int, water: usize)
    requires
        w.wf(),
    ensures
        w.with_water(x, y, water).wf(),
        w.with_water(x, y, water).total_water() == w.total_water() + if w.loaded(x, y) {
            water - w.water(x, y)
        } else {
            0
        },
        forall|x2: int, y2: int|
            #![trigger w.with_water(x, y, water).water(x2, y2)]
            #![trigger w.with_water(x, y, water).is_air(x2, y2)]
            w.with_water(x, y, water).is_air(x2, y2) == w.is_air(x2, y2) && w.with_water(
                x,
                y,
                water,
            ).water(x2, y2) == if x2 == x && y2 == y && w.loaded(x, y) {
                water as int
            } else {
                w.water(x2, y2)
            },
{
    let after = w.with_water(x, y, water);
    let block = crate::blocks::Block { water, ..w.block_at(x, y) };
    assert forall|x2: int, y2: int|
        #![trigger after.water(x2, y2)]
        #![trigger after.is_air(x2, y2)]
        after.is_air(x2, y2) == w.is_air(x2, y2) && after.water(x2, y2) == if x2 == x && y2 == y
            && w.loaded(x, y) {
            water as int
        } else {
            w.water(x2, y2)
        } by {
        lemma_with_block(w, x, y, block, x2, y2);
    }
    lemma_with_block(w, x, y, block, x, y);
    lemma_columns_frame(w, after, (32 * w.chunk_count) as nat, x, y);
}

/// How much falls from a cell: no more than a unit, no more than the cell
/// holds, and no more than brings the cell below up to its ceiling, the
/// pressure of the cell above it. A cell below that stood at its ceiling or
/// lower does not pass it.
pub proof fn lemma_falling(w: World, x: int, y: int)
    ensures
        0 <= w.falling(x, y) <= w.water(x, y),
        w.falling(x, y) <= WATER_UNIT,
        w.falling(x, y) == lesser(
            lesser(w.water(x, y), WATER_UNIT as int),
            w.room_below(x, y),
        ),
        w.water(x, y + 1) <= pressure(w.water(x, y)) ==> w.water(x, y + 1) + w.falling(x, y)
            <= pressure(w.water(x, y)),
        w.water(x, y + 1) > pressure(w.water(x, y)) ==> w.falling(x, y) == 0,
        w.water(x, y + 1) + w.falling(x, y) <= usize::MAX,
{
}

/// Water that falls is lost where the cell below is not loaded, and
/// nowhere else.
pub proof fn lemma_fallen_total(w: World, x: int, y: int)
    requires
        w.wf(),
        w.loaded(x, y),
    ensures
        w.fallen(x, y).wf(),
        w.fallen(x, y).loaded(x, y),
        w.fallen(x, y).first_chunk == w.first_chunk,
        w.fallen(x, y).chunk_count == w.chunk_count,
        w.fallen(x, y).total_water() == w.total_water() - if w.loaded(x, y + 1) {
            0
        } else {
            w.falling(x, y)
        },
{
    let quantity = w.falling(x, y);
    lemma_falling(w, x, y);
    let below = (w.water(x, y + 1) + quantity) as usize;
    let own = (w.water(x, y) - quantity) as usize;
    let w1 = w.with_water(x, y + 1, below);
    lemma_with_water_total(w, x, y + 1, below);
    let w2 = w1.with_water(x, y, own);
    lemma_with_water_total(w1, x, y, own);
    assert(w1.water(x, y) == w.water(x, y));
    let w3 = w2.activated(quantity != 0, x, y + 1);
    assert(w3.cells == w2.cells);
    lemma_same_water(w2, w3);
}

/// Giving a side cell the level changes the total by what it changes in the
/// cell, where the cell is loaded air.
pub proof fn lemma_side_levelled_total(w: World, x: int, y: int, level: int)
    requires
        w.wf(),
        0 <= level <= usize::MAX,
    ensures
        w.side_levelled(x, y, level).wf(),
        w.side_levelled(x, y, level).first_chunk == w.first_chunk,
        w.side_levelled(x, y, level).chunk_count == w.chunk_count,
        w.side_levelled(x, y, level).total_water() == w.total_water() + if w.is_air(x, y)
            && w.loaded(x, y) {
            level - w.water(x, y)
        } else {
            0
        },
        forall|x2: int, y2: int|
            #![trigger w.side_levelled(x, y, level).water(x2, y2)]
            #![trigger w.side_levelled(x, y, level).is_air(x2, y2)]
            !(x2 == x && y2 == y) ==> w.side_levelled(x, y, level).is_air(x2, y2) == w.is_air(
                x2,
                y2,
            ) && w.side_levelled(x, y, level).water(x2, y2) == w.water(x2, y2),
{
    if w.is_air(x, y) {
        let w1 = w.with_water(x, y, level as usize);
        lemma_with_water_total(w, x, y, level as usize);
        let w2 = w1.activated(w.water(x, y) != level, x, y);
        assert(w2.cells == w1.cells);
        lemma_same_water(w1, w2);
        assert(w.side_levelled(x, y, level) == w1.activated(w.water(x, y) != level, x, y));
    }
}

/// Levelling makes no water, and loses no more than two parts to rounding
/// where the cells to both sides are loaded.
pub proof fn lemma_levelled_total(w: World, x: int, y: int)
    requires
        w.wf(),
        w.loaded(x, y),
    ensures
        w.levelled(x, y).wf(),
        w.levelled(x, y).total_water() <= w.total_water(),
        w.loaded(x - 1, y) && w.loaded(x + 1, y) ==> w.total_water() - w.levelled(
            x,
            y,
        ).total_water() <= 2,
{
    let level = w.shared_level(x, y);
    assert(0 <= level <= usize::MAX);
    let w1 = w.with_water(x, y, level as usize);
    lemma_with_water_total(w, x, y, level as usize);
    assert(w1.water(x - 1, y) == w.water(x - 1, y));
    assert(w1.is_air(x - 1, y) == w.is_air(x - 1, y));
    let w2 = w1.side_levelled(x - 1, y, level);
    lemma_side_levelled_total(w1, x - 1, y, level);
    assert(w2.water(x + 1, y) == w.water(x + 1, y)) by {
        assert(w2.water(x + 1, y) == w1.water(x + 1, y));
    }
    assert(w2.is_air(x + 1, y) == w.is_air(x + 1, y)) by {
        assert(w2.is_air(x + 1, y) == w1.is_air(x + 1, y));
    }
    lemma_side_levelled_total(w2, x + 1, y, level);
}

/// Drying a cell loses the water that it held.
pub proof fn lemma_dried_total(w: World, x: int, y: int)
    requires
        w.wf(),
    ensures
        w.dried(x, y).wf(),
        w.dried(x, y).total_water() == w.total_water() - if w.loaded(x, y) {
            w.water(x, y)
        } else {
            0
        },
{
    let w1 = w.with_water(x, y, 0);
    lemma_with_water_total(w, x, y, 0);
    let w2 = w.dried(x, y);
    assert(w2.cells == w1.cells);
    lemma_same_water(w1, w2);
}

/// Water conservation, for one cell. When the water of a cell flows, the
/// total never grows. Where the cells below and beside the cell are loaded,
/// so that nothing leaves the loaded world, and the cell is not a damp one
/// that is dried, the total falls by two parts at most: what the mean loses
/// in rounding.
pub proof fn lemma_water_step_total(w: World, x: int, y: int)
    requires
        w.wf(),
    ensures
        w.water_step(x, y).wf(),
        w.water_step(x, y).first_chunk == w.first_chunk,
        w.water_step(x, y).chunk_count == w.chunk_count,
        w.water_step(x, y).total_water() <= w.total_water(),
        w.enclosed(x, y) && !w.damp(x, y) ==> w.total_water() - w.water_step(x, y).total_water()
            <= 2,
{
    if w.water(x, y) <= DRY_THRESHOLD {
        lemma_dried_total(w, x, y);
    } else {
        assert(w.loaded(x, y));
        if w.is_air(x, y + 1) {
            lemma_falling(w, x, y);
            lemma_fallen_total(w, x, y);
            if w.fall_capped(x, y) {
                let fallen = w.fallen(x, y);
                lemma_levelled_total(fallen, x, y);
            }
        } else {
            lemma_levelled_total(w, x, y);
        }
    }
}

/// Water conservation, for a pass. The total never grows when the water of
/// any cells flows, one after the other.
pub proof fn lemma_flowed_total(w: World, cells: Seq<(isize, isize)>)
    requires
        w.wf(),
    ensures
        w.flowed(cells).wf(),
        w.flowed(cells).first_chunk == w.first_chunk,
        w.flowed(cells).chunk_count == w.chunk_count,
        w.flowed(cells).total_water() <= w.total_water(),
    decreases cells.len(),
{
    if cells.len() > 0 {
        lemma_flowed_total(w, cells.drop_last());
        lemma_water_step_total(
            w.flowed(cells.drop_last()),
            cells.last().0 as int,
            cells.last().1 as int,
        );
    }
}

/// Water conservation, for a tight pass. Where no water can leave the
/// loaded world and no damp cell is dried, the total falls by no more than
/// two parts for each cell whose water flows: what the means lose in
/// rounding.
pub proof fn lemma_tight_pass_total(w: World, cells: Seq<(isize, isize)>)
    requires
        w.wf(),
        w.tight_pass(cells),
    ensures
        w.total_water() - w.flowed(cells).total_water() <= 2 * cells.len(),
    decreases cells.len(),
{
    if cells.len() > 0 {
        lemma_tight_pass_total(w, cells.drop_last());
        lemma_flowed_total(w, cells.drop_last());
        lemma_water_step_total(
            w.flowed(cells.drop_last()),
            cells.last().0 as int,
            cells.last().1 as int,
        );
    }
}

/// Water conservation: one pass of the water makes no water.
pub proof fn lemma_water_pass_total(w: World)
    requires
        w.wf(),
    ensures
        w.water_pass().wf(),
        w.water_pass().total_water() <= w.total_water(),
{
    lemma_flowed_total(w, w.water_update);
}

/// What is left of a list when a position is removed: all that was listed,
/// but the position.
pub proof fn lemma_removed(list: Seq<(isize, isize)>, position: (isize, isize))
    ensures
        forall|p: (isize, isize)|
            #[trigger] removed(list, position).contains(p) <==> list.contains(p) && p != position,
    decreases list.len(),
{
    let rest = removed(list, position);
    if list.len() > 0 {
        let front = list.drop_last();
        lemma_removed(front, position);
        let inner = removed(front, position);
        assert forall|p: (isize, isize)| #[trigger]
            rest.contains(p) <==> list.contains(p) && p != position by {
            if rest.contains(p) {
                let i = choose|i: int| 0 <= i < rest.len() && rest[i] == p;
                if i < inner.len() {
                    assert(inner[i] == p);
                    assert(inner.contains(p));
                    let k = choose|k: int| 0 <= k < front.len() && front[k] == p;
                    assert(list[k] == p);
                } else {
                    assert(list[list.len() - 1] == p);
                }
            }
            if list.contains(p) && p != position {
                let k = choose|k: int| 0 <= k < list.len() && list[k] == p;
                if k < front.len() {
                    assert(front[k] == p);
                    assert(inner.contains(p));
                    let i = choose|i: int| 0 <= i < inner.len() && inner[i] == p;
                    assert(rest[i] == p);
                } else {
                    assert(rest[rest.len() - 1] == p);
                }
            }
        }
    }
}

/// What `activated` lists: what was listed, and the cell where it was
/// wanted.
pub proof fn lemma_activated(w: World, wanted: bool, x: int, y: int)
    ensures
        forall|p: (isize, isize)|
            #[trigger] w.activated(wanted, x, y).water_update.contains(p)
                <==> w.water_update.contains(p) || (wanted && p == (x as isize, y as isize)),
{
    let list = w.water_update;
    let after = w.activated(wanted, x, y).water_update;
    let position = (x as isize, y as isize);
    assert forall|p: (isize, isize)| #[trigger]
        after.contains(p) <==> list.contains(p) || (wanted && p == position) by {
        if wanted && !list.contains(position) {
            if list.contains(p) {
                let i = choose|i: int| 0 <= i < list.len() && list[i] == p;
                assert(after[i] == p);
            }
            if p == position {
                assert(after[list.len() as int] == p);
            }
            if after.contains(p) {
                let i = choose|i: int| 0 <= i < after.len() && after[i] == p;
                if i < list.len() {
                    assert(list[i] == p);
                }
            }
        }
    }
}

/// A dry cell, once it has flowed, holds no water and is off the work list.
pub proof fn lemma_dry_cell_leaves(w: World, x: isize, y: isize)
    requires
        w.wf(),
        w.water(x as int, y as int) <= DRY_THRESHOLD,
    ensures
        w.water_step(x as int, y as int).water(x as int, y as int) == 0,
        !w.water_step(x as int, y as int).water_update.contains((x, y)),
{
    lemma_removed(w.water_update, (x, y));
    lemma_with_water_total(w, x as int, y as int, 0);
    let dried = w.dried(x as int, y as int);
    assert(dried.cells == w.with_water(x as int, y as int, 0).cells);
    assert(dried.water(x as int, y as int) == w.with_water(x as int, y as int, 0).water(
        x as int,
        y as int,
    ));
}

/// A cell that holds no water and is off the work list stays as it is when
/// it flows again: nothing in the world changes.
pub proof fn lemma_dry_cell_is_still(w: World, x: isize, y: isize)
    requires
        w.wf(),
        w.water(x as int, y as int) == 0,
        !w.water_update.contains((x, y)),
    ensures
        w.water_step(x as int, y as int) == w,
{
    let step = w.water_step(x as int, y as int);
    assert(removed(w.water_update, (x, y)) =~= w.water_update) by {
        lemma_removed_absent(w.water_update, (x, y));
    }
    assert(step.cells =~= w.cells);
}

/// Removing a position that is not listed leaves the list as it is.
pub proof fn lemma_removed_absent(list: Seq<(isize, isize)>, position: (isize, isize))
    requires
        !list.contains(position),
    ensures
        removed(list, position) == list,
    decreases list.len(),
{
    if list.len() > 0 {
        let front = list.drop_last();
        assert(list[list.len() - 1] != position);
        assert forall|i: int| 0 <= i < front.len() implies front[i] != position by {
            assert(list[i] == front[i]);
        }
        lemma_removed_absent(front, position);
        assert(front.push(list.last()) =~= list);
    }
}

/// Idempotence of dry cells. A cell that is off the work list comes onto it,
/// when the water of the cell at `x`, `y` flows, only as the cell below, left
/// or right of that cell, and only where that cell holds more water than a
/// dry one: only the flow of a neighbour brings a cell back.
pub proof fn lemma_listed_by_neighbour(w: World, x: isize, y: isize, p: (isize, isize))
    requires
        w.wf(),
        !w.water_update.contains(p),
        w.water_step(x as int, y as int).water_update.contains(p),
    ensures
        w.water(x as int, y as int) > DRY_THRESHOLD,
        p == (x, (y + 1) as isize) || p == ((x - 1) as isize, y) || p == ((x + 1) as isize, y),
{
    let xi = x as int;
    let yi = y as int;
    if w.water(xi, yi) <= DRY_THRESHOLD {
        lemma_removed(w.water_update, (x, y));
    } else {
        let quantity = w.falling(xi, yi);
        let f1 = w.with_water(xi, yi + 1, (w.water(xi, yi + 1) + quantity) as usize);
        let f2 = f1.with_water(xi, yi, (w.water(xi, yi) - quantity) as usize);
        lemma_activated(f2, quantity != 0, xi, yi + 1);
        let fallen = w.fallen(xi, yi);
        if w.is_air(xi, yi + 1) {
            if w.fall_capped(xi, yi) {
                lemma_levelled_lists(fallen, xi, yi, p);
            }
        } else {
            lemma_levelled_lists(w, xi, yi, p);
        }
    }
}

/// Levelling lists no cell but those to the left and right.
pub proof fn lemma_levelled_lists(w: World, x: int, y: int, p: (isize, isize))
    requires
        w.levelled(x, y).water_update.contains(p),
    ensures
        w.water_update.contains(p) || p == ((x - 1) as isize, y as isize) || p == (
            (x + 1) as isize,
            y as isize,
        ),
{
    let level = w.shared_level(x, y);
    let w1 = w.with_water(x, y, level as usize);
    let w2 = w1.side_levelled(x - 1, y, level);
    if w1.is_air(x - 1, y) {
        let a = w1.with_water(x - 1, y, level as usize);
        lemma_activated(a, w1.water(x - 1, y) != level, x - 1, y);
    }
    if w2.is_air(x + 1, y) {
        let b = w2.with_water(x + 1, y, level as usize);
        lemma_activated(b, w2.water(x + 1, y) != level, x + 1, y);
    }
}

} // verus!
