use voxelverse::world::block::BlockKind;
use voxelverse::world::tree::{oak_tree_blocks, pine_tree_blocks};

fn count(blocks: &[(i32, i32, i32, BlockKind)], kind: BlockKind) -> usize {
    blocks.iter().filter(|b| b.3 == kind).count()
}

#[test]
fn oak_shape() {
    let t = oak_tree_blocks(5);
    assert_eq!(t.len(), 76);
    for y in 0..5 {
        assert_eq!(t[y as usize], (0, y, 0, BlockKind::Wood));
    }
    assert_eq!(t[5], (-2, 5, -1, BlockKind::Leaves));
    assert_eq!(t[8], (-1, 5, -2, BlockKind::Leaves));
    assert_eq!(t[75], (1, 8, 1, BlockKind::Leaves));
    assert_eq!(count(&t, BlockKind::Wood), 5);
    // no leaf directly below the canopy centre
    assert!(!t.contains(&(0, 5, 0, BlockKind::Leaves)));
    assert!(t.contains(&(0, 6, 0, BlockKind::Leaves)));
}

#[test]
fn oak_sizes() {
    assert_eq!(oak_tree_blocks(4).len(), 75);
    assert_eq!(oak_tree_blocks(0).len(), 71);
    assert_eq!(oak_tree_blocks(-3).len(), 71);
}

#[test]
fn pine_shape() {
    let t = pine_tree_blocks(8);
    assert_eq!(t.len(), 518);
    assert_eq!(t[0], (0, 0, 0, BlockKind::Wood));
    assert_eq!(t[1], (1, 0, 0, BlockKind::Wood));
    assert_eq!(t[2], (0, 0, 1, BlockKind::Wood));
    assert_eq!(t[3], (1, 0, 1, BlockKind::Wood));
    assert_eq!(t[4], (0, 1, 0, BlockKind::Wood));
    assert_eq!(t[515], (0, 16, 1, BlockKind::Leaves));
    assert_eq!(t[517], (0, 17, 0, BlockKind::Leaves));
}

#[test]
fn pine_sizes() {
    assert_eq!(pine_tree_blocks(12).len(), 651);
    assert_eq!(pine_tree_blocks(7).len(), 483);
    assert_eq!(pine_tree_blocks(1).len(), 256);
    assert_eq!(pine_tree_blocks(0).len(), 208);
    assert_eq!(pine_tree_blocks(-3).len(), 125);
    assert_eq!(pine_tree_blocks(-4).len(), 0);
}

#[test]
fn tall_pine() {
    let t = pine_tree_blocks(70000);
    assert_eq!(t.len(), 2615900);
    assert_eq!(count(&t, BlockKind::Leaves), 2230864);
    assert_eq!(t[t.len() - 1], (0, 140001, 0, BlockKind::Leaves));
}
