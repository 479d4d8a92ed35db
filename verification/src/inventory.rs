//! The nine-slot inventory and its insertion policy.

use vstd::prelude::*;
use crate::item::{network_stack, Item, ItemStack, NetworkItemStack};

verus! {

/// The slots of an inventory, in order.
pub type Slots = [Option<ItemStack>; 9];

/// Whether every stack of the inventory holds at least one item.
pub open spec fn slots_wf(inv: Seq<Option<ItemStack>>) -> bool {
    forall|i: int| 0 <= i < inv.len() ==> (#[trigger] inv[i] matches Some(s) ==> s.wf())
}

/// Number of items in one slot.
pub open spec fn slot_count(slot: Option<ItemStack>) -> nat {
    match slot {
        Some(s) => s.count as nat,
        None => 0,
    }
}

/// Number of items in the whole inventory.
pub open spec fn total_count(inv: Seq<Option<ItemStack>>) -> nat
    decreases inv.len(),
{
    if inv.len() == 0 {
        0
    } else {
        total_count(inv.drop_last()) + slot_count(inv.last())
    }
}

/// How many of `left` items a stack of `count` items still takes.
pub open spec fn accepted(count: u8, left: nat) -> nat {
    let room = (255 - count) as nat;
    if left <= room {
        left
    } else {
        room
    }
}

/// Merging phase of an insertion: `left` items of kind `item` are poured
/// into the stacks of that kind, slot by slot from `from` on, each stack
/// taking what it has room for. Gives the slots afterwards and the number of
/// items that found no room.
pub open spec fn merge_into(
    inv: Seq<Option<ItemStack>>,
    item: Item,
    left: nat,
    from: int,
) -> (Seq<Option<ItemStack>>, nat)
    decreases inv.len() - from,
{
    if from < 0 || from >= inv.len() {
        (inv, left)
    } else {
        match inv[from] {
            Some(s) if s.item == item => {
                let moved = accepted(s.count, left);
                merge_into(
                    inv.update(from, Some(ItemStack { item, count: (s.count + moved) as u8 })),
                    item,
                    (left - moved) as nat,
                    from + 1,
                )
            },
            _ => merge_into(inv, item, left, from + 1),
        }
    }
}

/// Index of the first empty slot at or after `from`, if there is one.
pub open spec fn first_empty(inv: Seq<Option<ItemStack>>, from: int) -> Option<int>
    decreases inv.len() - from,
{
    if from < 0 || from >= inv.len() {
        None
    } else if inv[from] is None {
        Some(from)
    } else {
        first_empty(inv, from + 1)
    }
}

/// The insertion policy: merge into the stacks of the same kind from left to
/// right; what is left goes as one new stack into the first empty slot; what
/// then remains is handed back. Gives the slots afterwards and the leftover.
pub open spec fn insert_into(inv: Seq<Option<ItemStack>>, stack: ItemStack) -> (
    Seq<Option<ItemStack>>,
    nat,
) {
    let (merged, left) = merge_into(inv, stack.item, stack.count as nat, 0);
    if left == 0 {
        (merged, 0)
    } else {
        match first_empty(merged, 0) {
            Some(i) => (
                merged.update(i, Some(ItemStack { item: stack.item, count: left as u8 })),
                0,
            ),
            None => (merged, left),
        }
    }
}

/// The slots after one item was taken from slot `i`.
pub open spec fn consume_at(inv: Seq<Option<ItemStack>>, i: int) -> Seq<Option<ItemStack>> {
    match inv[i] {
        Some(s) => if s.count > 1 {
            inv.update(i, Some(ItemStack { item: s.item, count: (s.count - 1) as u8 }))
        } else {
            inv.update(i, None)
        },
        None => inv,
    }
}

/// The wire form of an inventory.
pub open spec fn network_slots(inv: Seq<Option<ItemStack>>) -> Seq<Option<NetworkItemStack>> {
    Seq::new(
        inv.len(),
        |i: int|
            match inv[i] {
                Some(s) => Some(network_stack(s)),
                None => None,
            },
    )
}

/// Replacing one slot changes the total by the difference of the two slots.
pub proof fn lemma_total_count_update(
    inv: Seq<Option<ItemStack>>,
    i: int,
    slot: Option<ItemStack>,
)
    requires
        0 <= i < inv.len(),
    ensures
        total_count(inv.update(i, slot)) + slot_count(inv[i]) == total_count(inv) + slot_count(
            slot,
        ),
    decreases inv.len(),
{
    let upd = inv.update(i, slot);
    if i == inv.len() - 1 {
        assert(upd.drop_last() =~= inv.drop_last());
    } else {
        assert(upd.drop_last() =~= inv.drop_last().update(i, slot));
        lemma_total_count_update(inv.drop_last(), i, slot);
    }
}

/// Merging keeps the number of slots, keeps the stacks well formed, and
/// loses no item: what is in the slots afterwards plus what found no room is
/// what was there before plus what was poured in.
pub proof fn lemma_merge_conserves(inv: Seq<Option<ItemStack>>, item: Item, left: nat, from: int)
    requires
        slots_wf(inv),
    ensures
        merge_into(inv, item, left, from).0.len() == inv.len(),
        slots_wf(merge_into(inv, item, left, from).0),
        merge_into(inv, item, left, from).1 <= left,
        total_count(merge_into(inv, item, left, from).0) + merge_into(inv, item, left, from).1
            == total_count(inv) + left,
    decreases inv.len() - from,
{
    if from < 0 || from >= inv.len() {
    } else {
        match inv[from] {
            Some(s) if s.item == item => {
                let moved = accepted(s.count, left);
                let grown = Some(ItemStack { item, count: (s.count + moved) as u8 });
                let next = inv.update(from, grown);
                lemma_total_count_update(inv, from, grown);
                assert(slots_wf(next)) by {
                    assert forall|i: int| 0 <= i < next.len() implies (#[trigger] next[i] matches Some(
                        t,
                    ) ==> t.wf()) by {
                        if i != from {
                            assert(next[i] == inv[i]);
                        }
                    }
                }
                lemma_merge_conserves(next, item, (left - moved) as nat, from + 1);
            },
            _ => {
                lemma_merge_conserves(inv, item, left, from + 1);
            },
        }
    }
}

/// The first empty slot, where there is one, is a slot and is empty.
pub proof fn lemma_first_empty_is_empty(inv: Seq<Option<ItemStack>>, from: int)
    requires
        0 <= from,
    ensures
        first_empty(inv, from) matches Some(i) ==> from <= i < inv.len() && inv[i] is None,
        first_empty(inv, from) is None ==> forall|i: int|
            from <= i < inv.len() ==> (#[trigger] inv[i]) is Some,
    decreases inv.len() - from,
{
    if from < inv.len() && inv[from] is Some {
        lemma_first_empty_is_empty(inv, from + 1);
    }
}

/// Inserting a stack loses no item: the items in the inventory afterwards
/// plus the leftover handed back are the items that were in it plus the
/// items of the inserted stack.
pub proof fn lemma_insert_conserves(inv: Seq<Option<ItemStack>>, stack: ItemStack)
    requires
        slots_wf(inv),
        stack.wf(),
    ensures
        insert_into(inv, stack).0.len() == inv.len(),
        slots_wf(insert_into(inv, stack).0),
        insert_into(inv, stack).1 <= stack.count,
        total_count(insert_into(inv, stack).0) + insert_into(inv, stack).1 == total_count(inv)
            + stack.count,
{
    lemma_merge_conserves(inv, stack.item, stack.count as nat, 0);
    let (merged, left) = merge_into(inv, stack.item, stack.count as nat, 0);
    if left != 0 {
        lemma_first_empty_is_empty(merged, 0);
        match first_empty(merged, 0) {
            Some(i) => {
                let placed = Some(ItemStack { item: stack.item, count: left as u8 });
                lemma_total_count_update(merged, i, placed);
                let after = merged.update(i, placed);
                assert(slots_wf(after)) by {
                    assert forall|k: int| 0 <= k < after.len() implies (#[trigger] after[k] matches Some(
                        t,
                    ) ==> t.wf()) by {
                        if k != i {
                            assert(after[k] == merged[k]);
                        }
                    }
                }
            },
            None => {},
        }
    }
}

/// Inserts `stack` into `slots` by the insertion policy and hands back the
/// number of items that did not fit.
pub fn insert_stack(slots: &mut Slots, stack: ItemStack) -> (leftover: u8)
    requires
        slots_wf(old(slots)@),
        stack.wf(),
    ensures
        final(slots)@ == insert_into(old(slots)@, stack).0,
        leftover == insert_into(old(slots)@, stack).1,
        slots_wf(final(slots)@),
        total_count(final(slots)@) + leftover == total_count(old(slots)@) + stack.count,
{
    let mut left: u8 = stack.count;
    let mut i: usize = 0;
    while i < 9
        invariant
            0 <= i <= 9,
            slots@.len() == 9,
            merge_into(old(slots)@, stack.item, stack.count as nat, 0) == merge_into(
                slots@,
                stack.item,
                left as nat,
                i as int,
            ),
        decreases 9 - i,
    {
        match slots[i] {
            Some(s) => {
                if s.item == stack.item {
                    let room: u8 = 255 - s.count;
                    let moved: u8 = if left <= room {
                        left
                    } else {
                        room
                    };
                    slots[i] = Some(ItemStack { item: stack.item, count: s.count + moved });
                    left = left - moved;
                }
            },
            None => {},
        }
        i = i + 1;
    }
    assert(merge_into(slots@, stack.item, left as nat, 9) == (slots@, left as nat));
    proof {
        lemma_insert_conserves(old(slots)@, stack);
    }
    if left == 0 {
        return 0;
    }
    let ghost merged = slots@;
    let mut j: usize = 0;
    while j < 9
        invariant
            0 <= j <= 9,
            left > 0,
            slots_wf(old(slots)@),
            stack.wf(),
            slots@ == merged,
            slots@.len() == 9,
            merge_into(old(slots)@, stack.item, stack.count as nat, 0) == (merged, left as nat),
            first_empty(merged, 0) == first_empty(merged, j as int),
        decreases 9 - j,
    {
        if slots[j].is_none() {
            slots[j] = Some(ItemStack { item: stack.item, count: left });
            proof {
                lemma_insert_conserves(old(slots)@, stack);
            }
            return 0;
        }
        j = j + 1;
    }
    proof {
        lemma_insert_conserves(old(slots)@, stack);
    }
    left
}

/// Takes one item from slot `i`; a stack that runs out leaves the slot empty.
pub fn consume_slot(slots: &mut Slots, i: usize)
    requires
        i < 9,
        slots_wf(old(slots)@),
    ensures
        final(slots)@ == consume_at(old(slots)@, i as int),
        slots_wf(final(slots)@),
{
    match slots[i] {
        Some(s) => {
            if s.count > 1 {
                slots[i] = Some(ItemStack { item: s.item, count: s.count - 1 });
            } else {
                slots[i] = None;
            }
            assert(slots_wf(slots@)) by {
                assert forall|k: int| 0 <= k < slots@.len() implies (#[trigger] slots@[k] matches Some(
                    t,
                ) ==> t.wf()) by {
                    if k != i {
                        assert(slots@[k] == old(slots)@[k]);
                    }
                }
            }
        },
        None => {},
    }
}

/// The wire form of an inventory.
pub fn slots_to_network(slots: &Slots) -> (wire: [Option<NetworkItemStack>; 9])
    ensures
        wire@ == network_slots(slots@),
{
    let mut wire: [Option<NetworkItemStack>; 9] = [None;9];
    let mut i: usize = 0;
    while i < 9
        invariant
            0 <= i <= 9,
            wire@.len() == 9,
            slots@.len() == 9,
            forall|k: int| 0 <= k < i ==> wire@[k] == network_slots(slots@)[k],
        decreases 9 - i,
    {
        wire[i] = match slots[i] {
            Some(s) => Some(NetworkItemStack { item: s.item.id(), count: s.count }),
            None => None,
        };
        i = i + 1;
    }
    assert(wire@ =~= network_slots(slots@));
    wire
}

} // verus!
