//! Verified core of a small flight simulator: the terrain quadtree and its
//! chunk bookkeeping, heightmap tile arithmetic, terrain mesh topology, and
//! the cockpit / menu state machines.

pub mod scenery;
pub mod aircraft;
pub mod ui;
