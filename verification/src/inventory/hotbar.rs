use vstd::prelude::*;
use crate::inventory::inventory::{Inventory, HOTBAR_SLOTS, INVENTORY_SLOTS};
use crate::inventory::item_stack::ItemStack;
use crate::world::block::BlockKind;

verus! {

/// The slots after the number keys were read: hotbar slot `k` holds a full
/// stack of 64 stone when key `k + 1` was just pressed, every other slot is
/// unchanged.
pub open spec fn slots_after_keys(old_slots: Seq<Option<ItemStack>>, pressed: Seq<bool>) -> Seq<Option<ItemStack>> {
    Seq::new(
        old_slots.len(),
        |i: int|
            if 0 <= i < HOTBAR_SLOTS && pressed[i] {
                Some(ItemStack { item: BlockKind::Stone, count: 64 })
            } else {
                old_slots[i]
            },
    )
}

/// React to the number keys 1–9: `just_pressed[k]` says whether key `k + 1`
/// was pressed this frame; each such key fills its hotbar slot with a stack
/// of 64 stone.
pub fn hotbar_input(just_pressed: &[bool; 9], inventory: &mut Inventory)
    ensures
        final(inventory).slots@ == slots_after_keys(old(inventory).slots@, just_pressed@),
{
    let ghost start = inventory.slots@;
    let mut key: usize = 1;
    while key <= 9
        invariant
            1 <= key <= 10,
            inventory.slots@.len() == INVENTORY_SLOTS,
            start.len() == INVENTORY_SLOTS,
            forall|i: int|
                0 <= i < INVENTORY_SLOTS ==> #[trigger] inventory.slots@[i] == if i < key - 1 && just_pressed@[i] {
                    Some(ItemStack { item: BlockKind::Stone, count: 64 })
                } else {
                    start[i]
                },
        decreases 10 - key,
    {
        if just_pressed[key - 1] {
            let slot: usize = key - 1;
            let ghost before = inventory.slots@;
            let bar = inventory.hotbar_mut();
            bar[slot] = Some(ItemStack::new(BlockKind::Stone, 64));
            assert(inventory.slots@ =~= before.update(slot as int, Some(ItemStack { item: BlockKind::Stone, count: 64 })));
        }
        key = key + 1;
    }
    assert(inventory.slots@ =~= slots_after_keys(start, just_pressed@));
}

} // verus!
