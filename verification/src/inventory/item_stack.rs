use vstd::prelude::*;
use crate::world::block::BlockKind;

verus! {

/// A stack of identical items in one inventory slot.
#[derive(Debug, Copy, Clone)]
pub struct ItemStack {
    pub item: BlockKind,
    pub count: u8,
}

impl ItemStack {
    /// A stack of `count` items of kind `item`.
    pub fn new(item: BlockKind, count: u8) -> (r: Self)
        ensures
            r.item == item,
            r.count == count,
    {
        Self { item, count }
    }
}

} // verus!
