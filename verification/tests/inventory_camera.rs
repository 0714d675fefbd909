use voxelverse::inventory::hotbar::hotbar_input;
use voxelverse::inventory::inventory::{Inventory, HOTBAR_SLOTS, INVENTORY_SLOTS};
use voxelverse::inventory::item_stack::ItemStack;
use voxelverse::player::camera::{cycle_camera_view, CameraMode};
use voxelverse::world::block::BlockKind;

#[test]
fn item_stack_new() {
    let s = ItemStack::new(BlockKind::Sand, 12);
    assert_eq!(s.item, BlockKind::Sand);
    assert_eq!(s.count, 12);
}

#[test]
fn inventory_default_empty() {
    let inv = Inventory::default();
    assert_eq!(inv.slots.len(), INVENTORY_SLOTS);
    assert!(inv.slots.iter().all(|s| s.is_none()));
    assert_eq!(inv.hotbar().len(), HOTBAR_SLOTS);
}

#[test]
fn hotbar_is_front_of_inventory() {
    let mut inv = Inventory::default();
    inv.hotbar_mut()[8] = Some(ItemStack::new(BlockKind::Wood, 3));
    assert_eq!(inv.slots[8].unwrap().item, BlockKind::Wood);
    assert!(inv.slots[9].is_none());
    inv.slots[2] = Some(ItemStack::new(BlockKind::Dirt, 1));
    assert_eq!(inv.hotbar()[2].unwrap().count, 1);
}

#[test]
fn number_keys_fill_slots() {
    let mut inv = Inventory::default();
    inv.slots[20] = Some(ItemStack::new(BlockKind::Dirt, 5));
    let mut pressed = [false; 9];
    pressed[0] = true;
    pressed[4] = true;
    hotbar_input(&pressed, &mut inv);
    let s0 = inv.slots[0].unwrap();
    assert_eq!(s0.item, BlockKind::Stone);
    assert_eq!(s0.count, 64);
    assert_eq!(inv.slots[4].unwrap().count, 64);
    assert!(inv.slots[1].is_none());
    assert_eq!(inv.slots[20].unwrap().item, BlockKind::Dirt);
}

#[test]
fn camera_cycle() {
    let m = CameraMode::ThirdPersonBack;
    assert_eq!(m.next(), CameraMode::ThirdPersonFront);
    assert_eq!(m.next().next(), CameraMode::FirstPerson);
    assert_eq!(m.next().next().next(), m);
    assert_eq!(cycle_camera_view(false, m), m);
    assert_eq!(cycle_camera_view(true, CameraMode::FirstPerson), CameraMode::ThirdPersonBack);
    assert!(!CameraMode::FirstPerson.shows_body());
    assert!(CameraMode::ThirdPersonFront.shows_body());
}
