pub mod culling;
pub mod greedy_meshing;
pub mod texture_generator;
pub mod atlas;
pub mod meshing;
