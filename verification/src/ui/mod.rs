pub mod minimap;
