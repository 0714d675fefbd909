pub mod block;
pub mod chunk;
pub mod tree;
pub mod save;
pub mod terrain;
pub mod generator;
pub mod world_manager;
