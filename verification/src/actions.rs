//! What a player does to the world: breaking a block and placing one.

use crate::blocks::{Block, BlockType};
use crate::items::{pushed, Inventory, Item};
use crate::map::{World, WorldMap};
use vstd::prelude::*;

verus! {

/// The slots after each of the `items` was added in turn: see [`pushed`].
/// An item that finds no place is lost.
pub open spec fn collected(slots: Seq<Option<(Item, usize)>>, items: Seq<Item>) -> Seq<
    Option<(Item, usize)>,
>
    decreases items.len(),
{
    if items.len() == 0 {
        slots
    } else {
        pushed(collected(slots, items.drop_last()), items.last())
    }
}

/// What is left of a stack when one item is taken from it: the stack with
/// one less, and nothing when it held but one.
pub open spec fn stack_after_use(stack: (Item, usize)) -> Option<(Item, usize)> {
    if stack.1 <= 1 {
        None
    } else {
        Some((stack.0, (stack.1 - 1) as usize))
    }
}

/// The material that the stack in a slot can place, if any: the slot holds
/// at least one item, and the item can be placed.
pub open spec fn placeable(slot: Option<(Item, usize)>) -> Option<BlockType> {
    match slot {
        Some(stack) => if stack.1 > 0 {
            stack.0.placed()
        } else {
            None
        },
        None => None,
    }
}

impl World {
    /// The world with the block at `x`, `y` made of `material`.
    pub open spec fn with_material(self, x: int, y: int, material: BlockType) -> World {
        self.with_block(x, y, Block { block_type: material, ..self.block_at(x, y) })
    }

    /// The world after the block at `x`, `y` was broken: the cell is air, and
    /// is listed last for its light to grow.
    pub open spec fn broken(self, x: int, y: int) -> World {
        World {
            light_update: self.light_update.push((x as isize, y as isize, false)),
            ..self.with_material(x, y, BlockType::Air)
        }
    }

    /// The world after a block of `material` was placed at `x`, `y`: the cell
    /// is of that material, and is listed last for its light to be taken
    /// back.
    pub open spec fn built(self, x: int, y: int, material: BlockType) -> World {
        World {
            light_update: self.light_update.push((x as isize, y as isize, true)),
            ..self.with_material(x, y, material)
        }
    }
}

/// Breaks the block at `x`, `y`: the items that it breaks into go to the
/// inventory, in their order, the cell becomes air, and it is listed for its
/// light to grow. The light is left to be spread.
pub fn break_block(map: &mut WorldMap, inventory: &mut Inventory, x: isize, y: isize)
    requires
        old(map).wf(),
    ensures
        final(map).wf(),
        final(map)@ == old(map)@.broken(x as int, y as int),
        final(inventory)@ == collected(
            old(inventory)@,
            old(map)@.block_at(x as int, y as int).block_type.drops(),
        ),
{
    let block = map.get(x, y);
    let items = block.as_item();
    let mut i: usize = 0;
    while i < items.len()
        invariant
            i <= items.len(),
            inventory@ == collected(old(inventory)@, items@.take(i as int)),
        decreases items.len() - i,
    {
        assert(items@.take(i + 1).drop_last() =~= items@.take(i as int));
        inventory.push(items[i]);
        i += 1;
    }
    assert(items@.take(items.len() as int) =~= items@);
    map.put(
        x,
        y,
        Block {
            block_type: BlockType::Air,
            natural_background: block.natural_background,
            light: block.light,
            water: block.water,
        },
    );
    map.push_light_update((x, y, false));
}

/// Places a block from the stack in slot `slot` at `x`, `y`, and says whether
/// it did. It does where the cell is air and the slot holds an item that can
/// be placed: the stack then loses one item, the cell gets the material, and
/// it is listed for its light to be taken back. Else nothing changes. The
/// light is left to be spread.
pub fn place_block(
    map: &mut WorldMap,
    inventory: &mut Inventory,
    slot: usize,
    x: isize,
    y: isize,
) -> (placed: bool)
    requires
        old(map).wf(),
        slot < old(inventory)@.len(),
    ensures
        final(map).wf(),
        placed <==> old(map)@.is_air(x as int, y as int) && placeable(
            old(inventory)@[slot as int],
        ) is Some,
        !placed ==> final(map)@ == old(map)@ && final(inventory)@ == old(inventory)@,
        placed ==> final(map)@ == old(map)@.built(
            x as int,
            y as int,
            placeable(old(inventory)@[slot as int]).unwrap(),
        ) && final(inventory)@ == old(inventory)@.update(
            slot as int,
            stack_after_use(old(inventory)@[slot as int].unwrap()),
        ),
{
    let block = map.get(x, y);
    let is_air = match block.block_type {
        BlockType::Air => true,
        _ => false,
    };
    if !is_air {
        return false;
    }
    let held = *inventory.index(slot);
    match held {
        Some((item, quantity)) => {
            if quantity == 0 {
                return false;
            }
            match item.as_block() {
                Some(material) => {
                    let left = if quantity == 1 {
                        None
                    } else {
                        Some((item, quantity - 1))
                    };
                    let stack = inventory.index_mut(slot);
                    *stack = left;
                    map.put(
                        x,
                        y,
                        Block {
                            block_type: material,
                            natural_background: block.natural_background,
                            light: block.light,
                            water: block.water,
                        },
                    );
                    map.push_light_update((x, y, true));
                    true
                },
                None => false,
            }
        },
        None => false,
    }
}

} // verus!
