pub mod item_stack;
pub mod inventory;
pub mod hotbar;
