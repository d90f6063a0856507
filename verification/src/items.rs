//! Items and the inventory that holds them.

use crate::blocks::BlockType;
use vstd::prelude::*;

verus! {

/// What a player can carry.
#[derive(Debug, Clone, Copy, PartialEq, Eq, Structural)]
pub enum Item {
    Dirt,
    Log,
    WoodStick,
    Foliage,
}

impl Item {
    /// The material that placing this item puts into the world, if any.
    pub open spec fn placed(self) -> Option<BlockType> {
        if self == Item::Dirt {
            Some(BlockType::Dirt)
        } else {
            None
        }
    }

    /// The material that placing this item puts into the world: only dirt
    /// can be placed.
    pub fn as_block(&self) -> (block: Option<BlockType>)
        ensures
            block == self.placed(),
    {
        match self {
            Item::Dirt => Some(BlockType::Dirt),
            _ => None,
        }
    }
}

/// A fixed number of slots, each empty or holding a stack of one item.
pub struct Inventory {
    slots: Vec<Option<(Item, usize)>>,
}

/// The first slot of `slots` that holds a stack of `item`, or `slots.len()`.
pub open spec fn first_stack(slots: Seq<Option<(Item, usize)>>, item: Item) -> int
    decreases slots.len(),
{
    if slots.len() == 0 {
        0
    } else if slots[0] matches Some(stack) && stack.0 == item {
        0
    } else {
        1 + first_stack(slots.skip(1), item)
    }
}

/// The first empty slot of `slots`, or `slots.len()`.
pub open spec fn first_empty(slots: Seq<Option<(Item, usize)>>) -> int
    decreases slots.len(),
{
    if slots.len() == 0 {
        0
    } else if slots[0] is None {
        0
    } else {
        1 + first_empty(slots.skip(1))
    }
}

/// The slots after one `item` has been added: it goes on the first stack of
/// its kind, else into the first empty slot, else nowhere. A stack that is
/// already as large as the machine can count stays as it is.
pub open spec fn pushed(slots: Seq<Option<(Item, usize)>>, item: Item) -> Seq<Option<(Item, usize)>> {
    let s = first_stack(slots, item);
    let e = first_empty(slots);
    if s < slots.len() {
        let n = slots[s].unwrap().1;
        if n < usize::MAX {
            slots.update(s, Some((item, (n + 1) as usize)))
        } else {
            slots
        }
    } else if e < slots.len() {
        slots.update(e, Some((item, 1usize)))
    } else {
        slots
    }
}

/// Whether one more `item` finds a place in `slots`.
pub open spec fn accepts(slots: Seq<Option<(Item, usize)>>, item: Item) -> bool {
    let s = first_stack(slots, item);
    if s < slots.len() {
        slots[s].unwrap().1 < usize::MAX
    } else {
        first_empty(slots) < slots.len()
    }
}

pub proof fn lemma_first_stack(slots: Seq<Option<(Item, usize)>>, item: Item)
    ensures
        0 <= first_stack(slots, item) <= slots.len(),
        first_stack(slots, item) < slots.len() ==> (slots[first_stack(slots, item)] matches Some(
            stack,
        ) && stack.0 == item),
        forall|i: int|
            0 <= i < first_stack(slots, item) ==> !(#[trigger] slots[i] matches Some(stack)
                && stack.0 == item),
    decreases slots.len(),
{
    if slots.len() != 0 && !(slots[0] matches Some(stack) && stack.0 == item) {
        let rest = slots.skip(1);
        lemma_first_stack(rest, item);
        assert forall|i: int| 0 <= i < first_stack(slots, item) implies !(#[trigger] slots[i] matches Some(
            stack,
        ) && stack.0 == item) by {
            if i > 0 {
                assert(slots[i] == rest[i - 1]);
            }
        }
    }
}

pub proof fn lemma_first_empty(slots: Seq<Option<(Item, usize)>>)
    ensures
        0 <= first_empty(slots) <= slots.len(),
        first_empty(slots) < slots.len() ==> slots[first_empty(slots)] is None,
        forall|i: int| 0 <= i < first_empty(slots) ==> (#[trigger] slots[i]) is Some,
    decreases slots.len(),
{
    if slots.len() != 0 && slots[0] is Some {
        let rest = slots.skip(1);
        lemma_first_empty(rest);
        assert forall|i: int| 0 <= i < first_empty(slots) implies (#[trigger] slots[i]) is Some by {
            if i > 0 {
                assert(slots[i] == rest[i - 1]);
            }
        }
    }
}

/// The first index with a property is the only index that has it and has
/// none before it.
proof fn lemma_first_stack_is(slots: Seq<Option<(Item, usize)>>, item: Item, k: int)
    requires
        0 <= k <= slots.len(),
        k < slots.len() ==> (slots[k] matches Some(stack) && stack.0 == item),
        forall|i: int| 0 <= i < k ==> !(#[trigger] slots[i] matches Some(stack) && stack.0 == item),
    ensures
        first_stack(slots, item) == k,
{
    lemma_first_stack(slots, item);
    let f = first_stack(slots, item);
    if f < k {
        assert(!(slots[f] matches Some(stack) && stack.0 == item));
    }
}

proof fn lemma_first_empty_is(slots: Seq<Option<(Item, usize)>>, k: int)
    requires
        0 <= k <= slots.len(),
        k < slots.len() ==> slots[k] is None,
        forall|i: int| 0 <= i < k ==> (#[trigger] slots[i]) is Some,
    ensures
        first_empty(slots) == k,
{
    lemma_first_empty(slots);
    let f = first_empty(slots);
    if f < k {
        assert(slots[f] is Some);
    }
}

impl View for Inventory {
    type V = Seq<Option<(Item, usize)>>;

    closed spec fn view(&self) -> Seq<Option<(Item, usize)>> {
        self.slots@
    }
}

impl Inventory {
    /// An inventory of `slots_number` empty slots.
    pub fn new(slots_number: usize) -> (inventory: Inventory)
        ensures
            inventory@.len() == slots_number,
            forall|i: int| 0 <= i < slots_number ==> inventory@[i] is None,
    {
        let mut slots: Vec<Option<(Item, usize)>> = Vec::new();
        let mut n: usize = 0;
        while n < slots_number
            invariant
                n <= slots_number,
                slots@.len() == n,
                forall|i: int| 0 <= i < n ==> slots@[i] is None,
            decreases slots_number - n,
        {
            slots.push(None);
            n += 1;
        }
        Inventory { slots }
    }

    /// Adds one `item`: to the first stack of its kind, else to the first
    /// empty slot. Returns whether it found a place.
    pub fn push(&mut self, item: Item) -> (stored: bool)
        ensures
            stored == accepts(old(self)@, item),
            final(self)@ == pushed(old(self)@, item),
    {
        let len = self.slots.len();
        let mut i: usize = 0;
        while i < len
            invariant
                len == self.slots@.len(),
                i <= len,
                self.slots@ == old(self).slots@,
                forall|j: int| 0 <= j < i ==> !(#[trigger] self.slots@[j] matches Some(stack) && stack.0 == item),
            decreases len - i,
        {
            if let Some((slot_item, quantity)) = self.slots[i] {
                if slot_item == item {
                    proof {
                        lemma_first_stack_is(self.slots@, item, i as int);
                    }
                    if quantity < usize::MAX {
                        self.slots[i] = Some((item, quantity + 1));
                        return true;
                    }
                    return false;
                }
            }
            i += 1;
        }
        proof {
            lemma_first_stack_is(self.slots@, item, len as int);
        }
        let mut k: usize = 0;
        while k < len
            invariant
                len == self.slots@.len(),
                k <= len,
                self.slots@ == old(self).slots@,
                first_stack(self.slots@, item) == len,
                forall|j: int| 0 <= j < k ==> (#[trigger] self.slots@[j]) is Some,
            decreases len - k,
        {
            if self.slots[k].is_none() {
                proof {
                    lemma_first_empty_is(self.slots@, k as int);
                }
                self.slots[k] = Some((item, 1));
                return true;
            }
            k += 1;
        }
        proof {
            lemma_first_empty_is(self.slots@, len as int);
        }
        false
    }

    /// The number of slots.
    pub fn len(&self) -> (n: usize)
        ensures
            n == self@.len(),
    {
        self.slots.len()
    }

    /// The content of slot `idx`.
    pub fn index(&self, idx: usize) -> (slot: &Option<(Item, usize)>)
        requires
            idx < self@.len(),
        ensures
            *slot == self@[idx as int],
    {
        &self.slots[idx]
    }

    /// The slot `idx`, to be changed in place.
    pub fn index_mut(&mut self, idx: usize) -> (slot: &mut Option<(Item, usize)>)
        requires
            idx < old(self)@.len(),
        ensures
            *slot == old(self)@[idx as int],
            final(self)@ == old(self)@.update(idx as int, *final(slot)),
    {
        &mut self.slots[idx]
    }
}

} // verus!
