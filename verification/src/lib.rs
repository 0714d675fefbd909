//! Core logic of a voxel sandbox world: blocks, chunks, terrain decisions,
//! tree shapes, chunk persistence records, face culling, chunk quads,
//! procedural block textures, the texture atlas layout, the inventory,
//! player movement and camera decisions and the minimap legend.
//!
//! Rendering, input, noise sampling and file I/O live in the application
//! crate around this library.

pub mod utils;
pub mod world;
pub mod rendering;
pub mod inventory;
pub mod player;
pub mod ui;
