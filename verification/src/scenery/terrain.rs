//! Terrain: a cube-sphere quadtree whose leaves become mesh chunks, fed by
//! Terrarium-encoded heightmap tiles.

pub mod quadtree;
pub mod keymap;
pub mod registry;
pub mod lod;
pub mod mesh;
pub mod tiles;
