use voxelverse::player::camera::{
    grab_cursor, handle_cursor_auto_grab, toggle_cursor_grab, CursorState,
};
use voxelverse::player::movement::{decide_movement, Gait};
use voxelverse::rendering::atlas::{face_for_normal, BlockFace};
use voxelverse::rendering::meshing::{face_tangents, quad_indices};
use voxelverse::ui::minimap::{
    classify_minimap_cell, minimap_pixel_offset, MinimapTerrain, MINIMAP_SIZE,
};

fn cross(a: (i32, i32, i32), b: (i32, i32, i32)) -> (i32, i32, i32) {
    (
        a.1 * b.2 - a.2 * b.1,
        a.2 * b.0 - a.0 * b.2,
        a.0 * b.1 - a.1 * b.0,
    )
}

#[test]
fn gait_choice() {
    // Ctrl on the ground crouches, whatever else is held.
    let d = decide_movement(true, true, true, true, false);
    assert_eq!(d.gait, Gait::Crouch);
    assert!(d.crouching);
    assert!(!d.jump);
    // Ctrl in the air does not crouch; Shift with forward sprints.
    let d = decide_movement(true, true, true, false, false);
    assert_eq!(d.gait, Gait::Sprint);
    assert!(!d.crouching);
    // Shift without forward walks.
    assert_eq!(decide_movement(false, true, false, true, false).gait, Gait::Walk);
    assert_eq!(decide_movement(false, false, true, true, false).gait, Gait::Walk);
}

#[test]
fn jump_only_from_ground_and_ends_crouch() {
    let d = decide_movement(true, false, false, true, true);
    assert!(d.jump);
    assert!(!d.crouching);
    assert_eq!(d.gait, Gait::Crouch);
    let d = decide_movement(false, false, false, false, true);
    assert!(!d.jump);
}

#[test]
fn cursor_states() {
    let captured = CursorState { locked: true, visible: false };
    let free = CursorState { locked: false, visible: true };
    assert_eq!(grab_cursor(), captured);
    assert_eq!(toggle_cursor_grab(true, captured), free);
    assert_eq!(toggle_cursor_grab(true, free), captured);
    assert_eq!(toggle_cursor_grab(false, free), free);
    assert_eq!(toggle_cursor_grab(true, toggle_cursor_grab(true, captured)), captured);
    assert_eq!(handle_cursor_auto_grab(true, free), captured);
    assert_eq!(handle_cursor_auto_grab(false, free), free);
    assert_eq!(handle_cursor_auto_grab(true, captured), captured);
}

#[test]
fn tangents_span_faces() {
    let dirs = [(1, 0, 0), (-1, 0, 0), (0, 1, 0), (0, -1, 0), (0, 0, 1), (0, 0, -1)];
    for n in dirs {
        let (u, v) = face_tangents(n);
        assert_eq!(cross(u, v), n);
    }
    assert_eq!(face_tangents((1, 0, 0)), ((0, 1, 0), (0, 0, 1)));
    assert_eq!(face_tangents((0, 0, -1)), ((0, 1, 0), (1, 0, 0)));
    assert_eq!(face_tangents((2, 0, 0)), ((1, 0, 0), (0, 1, 0)));
}

#[test]
fn index_buffer() {
    assert!(quad_indices(0).is_empty());
    assert_eq!(quad_indices(2), vec![0, 1, 2, 2, 3, 0, 4, 5, 6, 6, 7, 4]);
    assert_eq!(quad_indices(100).len(), 600);
}

#[test]
fn normals_to_faces() {
    assert_eq!(face_for_normal((0, 1, 0)), BlockFace::Top);
    assert_eq!(face_for_normal((0, -1, 0)), BlockFace::Bottom);
    assert_eq!(face_for_normal((0, 0, -1)), BlockFace::North);
    assert_eq!(face_for_normal((0, 0, 1)), BlockFace::South);
    assert_eq!(face_for_normal((1, 0, 0)), BlockFace::East);
    assert_eq!(face_for_normal((-1, 0, 0)), BlockFace::West);
    assert_eq!(face_for_normal((3, 3, 3)), BlockFace::Top);
}

#[test]
fn minimap_legend() {
    assert_eq!(classify_minimap_cell(65, true), MinimapTerrain::Beach);
    assert_eq!(classify_minimap_cell(66, true), MinimapTerrain::Forest);
    assert_eq!(classify_minimap_cell(66, false), MinimapTerrain::Plains);
    assert_eq!(classify_minimap_cell(89, false), MinimapTerrain::Plains);
    assert_eq!(classify_minimap_cell(90, false), MinimapTerrain::Hills);
    assert_eq!(classify_minimap_cell(129, false), MinimapTerrain::Hills);
    assert_eq!(classify_minimap_cell(130, false), MinimapTerrain::Mountains);
    assert_eq!(classify_minimap_cell(200, true), MinimapTerrain::Forest);
    assert_eq!(MinimapTerrain::Forest.base_color(), [18, 90, 18]);
    assert_eq!(MinimapTerrain::Beach.base_color(), [160, 130, 80]);
    assert_eq!(MinimapTerrain::Plains.base_color(), [40, 155, 45]);
    assert_eq!(MinimapTerrain::Hills.base_color(), [80, 120, 60]);
    assert_eq!(MinimapTerrain::Mountains.base_color(), [150, 150, 150]);
}

#[test]
fn minimap_offsets() {
    assert_eq!(minimap_pixel_offset(0, 0), 0);
    assert_eq!(minimap_pixel_offset(1, 0), 4);
    assert_eq!(minimap_pixel_offset(0, 1), 128);
    assert_eq!(minimap_pixel_offset(MINIMAP_SIZE / 2, MINIMAP_SIZE / 2), (16 * 32 + 16) * 4);
    assert_eq!(minimap_pixel_offset(31, 31), 4092);
}
