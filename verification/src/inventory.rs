//! Player inventory: a hotbar of block stacks and the active slot.

use vstd::prelude::*;

use crate::blocks::BlockType;

verus! {

/// Number of hotbar slots.
pub const HOTBAR_SLOTS: usize = 5;

/// One slot in the hotbar: holds a specific block type and a stack count.
#[derive(Clone, Copy, Debug)]
pub struct Slot {
    pub block: BlockType,
    pub count: u32,
}

/// Hotbar and selection state.
#[derive(Clone, Copy, Debug)]
pub struct Inventory {
    pub slots: [Slot; HOTBAR_SLOTS],
    pub selected: usize,
}

/// `c + 1`, saturating at `u32::MAX`.
pub open spec fn saturating_inc(c: u32) -> u32 {
    if c == u32::MAX {
        c
    } else {
        (c + 1) as u32
    }
}

/// What the active slot would place: its block, or `None` if it is empty.
pub open spec fn peek_spec(inv: Inventory) -> Option<BlockType> {
    let slot = inv.slots[inv.selected as int];
    if slot.count > 0 {
        Some(slot.block)
    } else {
        None
    }
}

/// The slots after taking one unit from slot `sel` (unchanged when that
/// slot is empty).
pub open spec fn take_slots(slots: Seq<Slot>, sel: int) -> Seq<Slot> {
    let slot = slots[sel];
    if slot.count == 0 {
        slots
    } else {
        slots.update(sel, Slot { block: slot.block, count: (slot.count - 1) as u32 })
    }
}

/// Index of the first slot at or after `i` that holds `block`, or -1.
pub open spec fn first_slot_from(slots: Seq<Slot>, block: BlockType, i: int) -> int
    decreases slots.len() - i,
{
    if i < 0 || i >= slots.len() {
        -1
    } else if slots[i].block == block {
        i
    } else {
        first_slot_from(slots, block, i + 1)
    }
}

/// Index of the first slot that holds `block`, or -1 if none does.
pub open spec fn first_slot(slots: Seq<Slot>, block: BlockType) -> int {
    first_slot_from(slots, block, 0)
}

/// The slots after depositing one unit of `block` into the first slot that
/// holds it (the count saturates); unchanged when no slot holds it.
pub open spec fn deposit_slots(slots: Seq<Slot>, block: BlockType) -> Seq<Slot> {
    let i = first_slot(slots, block);
    if i < 0 {
        slots
    } else {
        slots.update(i, Slot { block, count: saturating_inc(slots[i].count) })
    }
}

/// `first_slot_from` finds the first match at or after `i`.
proof fn lemma_first_slot_from(slots: Seq<Slot>, block: BlockType, i: int)
    requires
        0 <= i,
    ensures
        ({
            let r = first_slot_from(slots, block, i);
            &&& r == -1 || (i <= r < slots.len() && slots[r].block == block)
            &&& forall|j: int| i <= j < slots.len() && (r == -1 || j < r) ==> slots[j].block != block
        }),
    decreases slots.len() - i,
{
    if i < slots.len() && slots[i].block != block {
        lemma_first_slot_from(slots, block, i + 1);
    }
}

impl Default for Inventory {
    /// Stone, Sand and Dirt stacks of 32, Coral and Kelp stacks of 16, with
    /// the first slot active.
    fn default() -> (inv: Self)
        ensures
            inv.slots@ == seq![
                Slot { block: BlockType::Stone, count: 32 },
                Slot { block: BlockType::Sand, count: 32 },
                Slot { block: BlockType::Dirt, count: 32 },
                Slot { block: BlockType::Coral, count: 16 },
                Slot { block: BlockType::Kelp, count: 16 },
            ],
            inv.selected == 0,
    {
        let inv = Inventory {
            slots: [
                Slot { block: BlockType::Stone, count: 32 },
                Slot { block: BlockType::Sand, count: 32 },
                Slot { block: BlockType::Dirt, count: 32 },
                Slot { block: BlockType::Coral, count: 16 },
                Slot { block: BlockType::Kelp, count: 16 },
            ],
            selected: 0,
        };
        assert(inv.slots@ =~= seq![
            Slot { block: BlockType::Stone, count: 32 },
            Slot { block: BlockType::Sand, count: 32 },
            Slot { block: BlockType::Dirt, count: 32 },
            Slot { block: BlockType::Coral, count: 16 },
            Slot { block: BlockType::Kelp, count: 16 },
        ]);
        inv
    }
}

/// The index of the last pressed key among `pressed`, or `current` when
/// none is pressed.
pub open spec fn last_pressed(pressed: Seq<bool>, current: int) -> int
    decreases pressed.len(),
{
    if pressed.len() == 0 {
        current
    } else if pressed.last() {
        pressed.len() - 1
    } else {
        last_pressed(pressed.drop_last(), current)
    }
}

/// Select the hotbar slot whose number key was just pressed; when several
/// were, the highest-numbered one wins, and with none the selection stays.
pub fn select_slot_with_keys(inventory: &mut Inventory, just_pressed: [bool; HOTBAR_SLOTS])
    ensures
        final(inventory).slots == old(inventory).slots,
        final(inventory).selected == last_pressed(just_pressed@, old(inventory).selected as int),
{
    let mut i: usize = 0;
    while i < HOTBAR_SLOTS
        invariant
            i <= HOTBAR_SLOTS,
            inventory.slots == old(inventory).slots,
            inventory.selected == last_pressed(just_pressed@.take(i as int), old(inventory).selected as int),
        decreases HOTBAR_SLOTS - i,
    {
        proof {
            assert(just_pressed@.take(i + 1).drop_last() =~= just_pressed@.take(i as int));
        }
        if just_pressed[i] {
            inventory.selected = i;
        }
        i = i + 1;
    }
    assert(just_pressed@.take(HOTBAR_SLOTS as int) =~= just_pressed@);
}

impl Inventory {
    /// The block type the active slot would place, or `None` if empty.
    ///
    /// Does not modify the slot; use [`Self::take_selected`] to consume one
    /// unit once the placement is confirmed.
    pub fn peek_selected(&self) -> (r: Option<BlockType>)
        requires
            self.selected < HOTBAR_SLOTS,
        ensures
            r == peek_spec(*self),
    {
        let slot = self.slots[self.selected];
        if slot.count > 0 {
            Some(slot.block)
        } else {
            None
        }
    }

    /// Take one unit from the active slot. Returns the block type taken, or
    /// `None` (changing nothing) if the slot is empty.
    pub fn take_selected(&mut self) -> (r: Option<BlockType>)
        requires
            old(self).selected < HOTBAR_SLOTS,
        ensures
            r == peek_spec(*old(self)),
            final(self).slots@ == take_slots(old(self).slots@, old(self).selected as int),
            final(self).selected == old(self).selected,
    {
        let i = self.selected;
        let slot = self.slots[i];
        if slot.count == 0 {
            return None;
        }
        self.slots[i] = Slot { block: slot.block, count: slot.count - 1 };
        assert(self.slots@ =~= take_slots(old(self).slots@, i as int));
        Some(slot.block)
    }

    /// Put one unit of `block` into the first slot holding that block type
    /// (saturating). If no slot holds it the pickup is dropped: existing
    /// slots are never lost or retyped.
    pub fn deposit(&mut self, block: BlockType)
        ensures
            final(self).slots@ == deposit_slots(old(self).slots@, block),
            final(self).selected == old(self).selected,
    {
        let mut i: usize = 0;
        while i < HOTBAR_SLOTS
            invariant
                i <= HOTBAR_SLOTS,
                *self == *old(self),
                forall|j: int| 0 <= j < i ==> self.slots@[j].block != block,
            decreases HOTBAR_SLOTS - i,
        {
            let slot = self.slots[i];
            if slot.block == block {
                let count = if slot.count == u32::MAX { slot.count } else { slot.count + 1 };
                self.slots[i] = Slot { block: slot.block, count };
                proof {
                    lemma_first_slot_from(old(self).slots@, block, 0);
                    assert(first_slot(old(self).slots@, block) == i);
                    assert(self.slots@ =~= deposit_slots(old(self).slots@, block));
                }
                return;
            }
            i = i + 1;
        }
        proof {
            lemma_first_slot_from(old(self).slots@, block, 0);
        }
        assert(first_slot(old(self).slots@, block) == -1);
    }
}

/// Taking a unit changes at most the active slot's count: every other slot,
/// and every slot's block type, stay as they were, and no count wraps.
pub proof fn lemma_take_touches_only_selected(slots: Seq<Slot>, sel: int)
    requires
        0 <= sel < slots.len(),
    ensures
        take_slots(slots, sel).len() == slots.len(),
        forall|j: int| 0 <= j < slots.len() && j != sel ==> #[trigger] take_slots(slots, sel)[j] == slots[j],
        take_slots(slots, sel)[sel].block == slots[sel].block,
        take_slots(slots, sel)[sel].count == if slots[sel].count == 0 {
            0
        } else {
            slots[sel].count - 1
        },
{
}

/// A deposit never loses or retypes a slot: block types stay put, and only
/// the first slot holding the deposited type gains (at most) one unit.
pub proof fn lemma_deposit_keeps_slots(slots: Seq<Slot>, block: BlockType)
    ensures
        deposit_slots(slots, block).len() == slots.len(),
        forall|j: int| 0 <= j < slots.len() ==> (#[trigger] deposit_slots(slots, block)[j]).block == slots[j].block,
        forall|j: int|
            0 <= j < slots.len() && j != first_slot(slots, block) ==> #[trigger] deposit_slots(slots, block)[j] == slots[j],
        forall|j: int|
            0 <= j < slots.len() ==> slots[j].count <= (#[trigger] deposit_slots(slots, block)[j]).count <= slots[j].count + 1,
{
    lemma_first_slot_from(slots, block, 0);
}

/// Taking a unit and then depositing the same block back restores the
/// inventory, provided the active slot held that block and is the first
/// slot holding its type (deposits land in the first matching slot).
pub proof fn lemma_take_then_deposit_restores(slots: Seq<Slot>, sel: int, block: BlockType)
    requires
        slots.len() == HOTBAR_SLOTS,
        0 <= sel < HOTBAR_SLOTS,
        slots[sel].count > 0,
        slots[sel].block == block,
        first_slot(slots, block) == sel,
    ensures
        deposit_slots(take_slots(slots, sel), block) == slots,
{
    let taken = take_slots(slots, sel);
    lemma_first_slot_from(slots, block, 0);
    lemma_first_slot_from(taken, block, 0);
    assert forall|j: int| 0 <= j < slots.len() implies taken[j].block == slots[j].block by {}
    if first_slot(taken, block) != sel {
        let r = first_slot(taken, block);
        if r != -1 && r < sel {
            assert(slots[r].block == block);
        }
    }
    assert(deposit_slots(taken, block) =~= slots);
}

/// The active slot yields its block exactly when it holds at least one unit:
/// peeking (and taking, which returns what a peek would) gives
/// `Some(block)` for any count of 1 or more and `None` only at count 0.
pub proof fn lemma_peek_follows_count(inv: Inventory)
    requires
        inv.selected < HOTBAR_SLOTS,
    ensures
        inv.slots[inv.selected as int].count >= 1 ==> peek_spec(inv) == Some(inv.slots[inv.selected as int].block),
        inv.slots[inv.selected as int].count == 0 ==> peek_spec(inv) is None,
{
}

} // verus!
