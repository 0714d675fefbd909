use vstd::prelude::*;
use crate::inventory::item_stack::ItemStack;

verus! {

/// Number of inventory slots, hotbar included.
pub const INVENTORY_SLOTS: usize = 36;

/// Number of hotbar slots: the first slots of the inventory.
pub const HOTBAR_SLOTS: usize = 9;

/// The player's inventory: one optional stack per slot.
pub struct Inventory {
    pub slots: [Option<ItemStack>; 36],
}

impl Default for Inventory {
    /// An inventory with every slot empty.
    fn default() -> (r: Self)
        ensures
            forall|i: int| 0 <= i < INVENTORY_SLOTS ==> #[trigger] r.slots@[i] is None,
    {
        Self { slots: [None; 36] }
    }
}

impl Inventory {
    /// The hotbar: the first `HOTBAR_SLOTS` slots.
    pub fn hotbar(&self) -> (r: &[Option<ItemStack>])
        ensures
            r@ == self.slots@.subrange(0, HOTBAR_SLOTS as int),
    {
        let all: &[Option<ItemStack>] = self.slots.as_slice();
        let (front, _) = all.split_at(HOTBAR_SLOTS);
        front
    }

    /// The hotbar, for changing: writes through the returned slice land in
    /// the first `HOTBAR_SLOTS` slots, the other slots stay as they are.
    pub fn hotbar_mut(&mut self) -> (r: &mut [Option<ItemStack>])
        ensures
            r@ == old(self).slots@.subrange(0, HOTBAR_SLOTS as int),
            final(self).slots@ == final(r)@ + old(self).slots@.subrange(
                HOTBAR_SLOTS as int,
                INVENTORY_SLOTS as int,
            ),
    {
        let all: &mut [Option<ItemStack>] = &mut self.slots;
        let (front, _) = all.split_at_mut(HOTBAR_SLOTS);
        front
    }
}

} // verus!
