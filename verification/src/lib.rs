//! Core of a voxel-world engine: chunk lifecycle state machine, greedy
//! surface meshing, and region-based persistence, together with the
//! coordinate and voxel value types they share.

use vstd::prelude::*;

pub mod axis;
pub mod biome;
pub mod bits;
pub mod chunk;
pub mod codec;
pub mod container;
pub mod gzip;
pub mod io;
pub mod ivec;
pub mod lod;
pub mod mesh;
pub mod pos;
pub mod posmap;
pub mod region;
pub mod voxels;
pub mod world;
pub mod world_noise;

verus! {

/// Width of a cubic chunk, in voxels.
pub const CHUNK_WIDTH: u32 = 31;
/// Number of voxels in one slice of a chunk.
pub const CHUNK_SQUARE: u32 = CHUNK_WIDTH * CHUNK_WIDTH;
/// Number of voxels in a whole chunk.
pub const CHUNK_CUBE: u32 = CHUNK_SQUARE * CHUNK_WIDTH;

/// Width of a cubic region, in chunks.
pub const REGION_WIDTH: u32 = 16;
/// Number of chunk slots in one slice of a region.
pub const REGION_SQUARE: u32 = REGION_WIDTH * REGION_WIDTH;
/// Number of chunk slots in a whole region.
pub const REGION_CUBE: u32 = REGION_SQUARE * REGION_WIDTH;

} // verus!
