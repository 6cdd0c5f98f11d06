//! A chunked voxel world: coordinate mappings, chunk storage, the landscape
//! that follows an observer, and the staged construction of chunk meshes.

pub mod chunk;
pub mod coord_map;
pub mod genesis;
pub mod landscaping;
pub mod math;
pub mod merge;
pub mod pipeline;
pub mod query;
pub mod mesh;
pub mod rendering;
pub mod schedule;
pub mod slot_index;
pub mod voxel;
pub mod world;
