pub mod camera;
pub mod movement;
