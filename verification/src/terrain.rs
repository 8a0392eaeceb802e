//! Chunks of terrain: their coordinates, their density volumes and the
//! surface extracted from them.

pub mod cache;
pub mod chunk;
pub mod coords;
pub mod grid;
pub mod mesh;
pub mod surface_net;
pub mod terrain_gen;
