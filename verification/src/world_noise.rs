//! Turning sampled 2D noise columns into voxel chunks.
//!
//! Noise sampling itself is floating-point work done by the surrounding
//! application; the library consumes the rounded per-column heights and
//! fills chunks deterministically: stone deep down, dirt near the
//! surface, grass on top.

use crate::biome::BiomeTable;
use crate::chunk::{lin_idx, Chunk};
use crate::container::VoxelContainer;
use crate::ivec::UVec3;
use crate::pos::InChunkPos;
use crate::voxels::Voxel;
use crate::{CHUNK_CUBE, CHUNK_SQUARE, CHUNK_WIDTH};
use vstd::prelude::*;

verus! {

/// The rounded heightmap of one vertical chunk column, sampled once and
/// reused for every chunk of the column.
#[derive(Debug)]
pub struct Chunk2dNoiseValues {
    pub chunk_pos_x: i32,
    pub chunk_pos_z: i32,
    /// One rounded surface height per column cell, row-major by `z`.
    pub heightmap: Vec<i32>,
}

impl Chunk2dNoiseValues {
    pub open spec fn wf(self) -> bool {
        &&& self.heightmap@.len() == CHUNK_SQUARE
        &&& forall|i: int|
            0 <= i < self.heightmap@.len() ==> -1000000 <= #[trigger] self.heightmap@[i]
                <= 1000000
    }

    /// An independent copy of the column data.
    pub fn duplicate(&self) -> (r: Self)
        ensures
            r.chunk_pos_x == self.chunk_pos_x,
            r.chunk_pos_z == self.chunk_pos_z,
            r.heightmap@ == self.heightmap@,
    {
        Chunk2dNoiseValues {
            chunk_pos_x: self.chunk_pos_x,
            chunk_pos_z: self.chunk_pos_z,
            heightmap: self.heightmap.clone(),
        }
    }
}

/// The voxel the material bands assign at height `y` within a chunk whose
/// column surface (relative to the chunk's floor) is `h`.
pub open spec fn band_voxel(h: int, y: int) -> Voxel {
    if y < h - 2 {
        Voxel::Stone
    } else if y < h - 1 {
        Voxel::Dirt
    } else {
        Voxel::Grass
    }
}

/// The voxel generated at height `y` of a column whose surface relative
/// to the chunk's floor is `h`.
pub open spec fn column_voxel(h: int, y: int) -> Voxel {
    if y < h && y < CHUNK_WIDTH {
        band_voxel(h, y)
    } else {
        Voxel::Air
    }
}

/// The voxel generated at cell `(x, y, z)` of a chunk at vertical level
/// `y_level`, given the column's absolute surface heights.
pub open spec fn generated_voxel(
    heights: Seq<i32>,
    y_level: int,
    x: int,
    y: int,
    z: int,
) -> Voxel {
    column_voxel(heights[z * CHUNK_WIDTH + x] - y_level * CHUNK_WIDTH, y)
}

/// Fills one vertical column of a chunk, leaving every other cell alone.
/// `h` is the column's surface height relative to the chunk's floor.
fn fill_column(c: &mut VoxelContainer, x: u32, z: u32, h: i64)
    requires
        old(c).wf(),
        x < CHUNK_WIDTH,
        z < CHUNK_WIDTH,
        -2000000 <= h <= 2000000,
        forall|y0: int|
            0 <= y0 < CHUNK_WIDTH ==> old(c)@[#[trigger] lin_idx(x as int, y0, z as int)]
                == Voxel::Air,
    ensures
        final(c).wf(),
        forall|y0: int|
            0 <= y0 < CHUNK_WIDTH ==> final(c)@[#[trigger] lin_idx(x as int, y0, z as int)]
                == column_voxel(h as int, y0),
        forall|i: int|
            0 <= i < CHUNK_CUBE && (forall|y0: int|
                0 <= y0 < CHUNK_WIDTH ==> i != lin_idx(x as int, y0, z as int)) ==> final(c)@[i]
                == old(c)@[i],
{
    let ghost c0 = c@;
    let height_u: u32 = if h <= 0 {
        0
    } else if h >= CHUNK_WIDTH as i64 {
        CHUNK_WIDTH
    } else {
        h as u32
    };

    let mut y: u32 = 0;
    while y < height_u
        invariant
            c.wf(),
            x < CHUNK_WIDTH,
            z < CHUNK_WIDTH,
            -2000000 <= h <= 2000000,
            y <= height_u,
            height_u <= CHUNK_WIDTH,
            height_u == (if h <= 0 {
                0int
            } else if h >= CHUNK_WIDTH {
                CHUNK_WIDTH as int
            } else {
                h as int
            }),
            forall|y0: int|
                0 <= y0 < y ==> c@[#[trigger] lin_idx(x as int, y0, z as int)] == column_voxel(
                    h as int,
                    y0,
                ),
            forall|y0: int|
                y <= y0 < CHUNK_WIDTH ==> c@[#[trigger] lin_idx(x as int, y0, z as int)]
                    == Voxel::Air,
            c0 == old(c)@,
            forall|i: int|
                0 <= i < CHUNK_CUBE && (forall|y0: int|
                    0 <= y0 < CHUNK_WIDTH ==> i != lin_idx(x as int, y0, z as int)) ==> c@[i]
                    == c0[i],
        decreases height_u - y,
    {
        let voxel = if (y as i64) < h - 2 {
            Voxel::Stone
        } else if (y as i64) < h - 1 {
            Voxel::Dirt
        } else {
            Voxel::Grass
        };
        let pos = match InChunkPos::new(UVec3 { x, y, z }) {
            Some(pos) => pos,
            None => {
                proof {
                    assert(false);
                }
                InChunkPos(UVec3 { x: 0, y: 0, z: 0 })
            },
        };
        let ghost pre = c@;
        c.set(pos, voxel);
        proof {
            assert(pos.index_spec() == lin_idx(x as int, y as int, z as int));
            assert(voxel == column_voxel(h as int, y as int));
            assert forall|y0: int| 0 <= y0 < CHUNK_WIDTH && y0 != y implies c@[#[trigger] lin_idx(
                x as int,
                y0,
                z as int,
            )] == pre[lin_idx(x as int, y0, z as int)] by {
                crate::chunk::lemma_lin_idx_bounds(x as int, y0, z as int);
                crate::chunk::lemma_lin_idx_bounds(x as int, y as int, z as int);
                assert(pre.len() == CHUNK_CUBE);
                assert(c@ == pre.update(lin_idx(x as int, y as int, z as int), voxel));
                if lin_idx(x as int, y0, z as int) == lin_idx(x as int, y as int, z as int) {
                    crate::chunk::lemma_index_injective(
                        x as int,
                        y0,
                        z as int,
                        x as int,
                        y as int,
                        z as int,
                    );
                }
            }
            assert forall|i: int|
                0 <= i < CHUNK_CUBE && (forall|y0: int|
                    0 <= y0 < CHUNK_WIDTH ==> i != lin_idx(x as int, y0, z as int)) implies c@[i]
                == c0[i] by {
                crate::chunk::lemma_lin_idx_bounds(x as int, y as int, z as int);
                assert(pre.len() == CHUNK_CUBE);
                assert(c@ == pre.update(lin_idx(x as int, y as int, z as int), voxel));
                assert(i != lin_idx(x as int, y as int, z as int));
                assert(c@[i] == pre[i]);
            }
        }
        y += 1;
    }
    proof {
        assert forall|y0: int| 0 <= y0 < CHUNK_WIDTH implies c@[#[trigger] lin_idx(
            x as int,
            y0,
            z as int,
        )] == column_voxel(h as int, y0) by {
            if y0 >= height_u {
                assert(c@[lin_idx(x as int, y0, z as int)] == Voxel::Air);
                assert(column_voxel(h as int, y0) == Voxel::Air);
            }
        }
    }
}

/// World generation settings: the seed that parameterizes the noise
/// fields, and the biome table.
pub struct WorldNoiseSettings {
    pub seed: u32,
    pub biome_table: BiomeTable,
}

impl WorldNoiseSettings {
    pub fn new(seed: u32, biome_table: BiomeTable) -> (r: Self)
        ensures
            r.seed == seed,
            r.biome_table == biome_table,
    {
        WorldNoiseSettings { seed, biome_table }
    }

    /// Fills a chunk from a column's sampled heights: each column is
    /// solid up to its surface, banded stone / dirt / grass, and the
    /// chunk's edge planes are published before it is returned.
    #[verifier::rlimit(50)]
    pub fn generate_chunk_from_noise(&self, y_level: i32, noise: &Chunk2dNoiseValues) -> (r:
        Chunk)
        requires
            noise.wf(),
            -30000 <= y_level <= 30000,
        ensures
            r.wf(),
            !r.edges_dirty,
            forall|x: int, y: int, z: int|
                0 <= x < CHUNK_WIDTH && 0 <= y < CHUNK_WIDTH && 0 <= z < CHUNK_WIDTH
                    ==> r.voxels@[#[trigger] lin_idx(x, y, z)] == generated_voxel(
                    noise.heightmap@,
                    y_level as int,
                    x,
                    y,
                    z,
                ),
    {
        let mut chunk = Chunk::new_empty();
        let ghost heights = noise.heightmap@;
        proof {
            assert forall|x0: int, y0: int, z0: int|
                0 <= x0 < CHUNK_WIDTH && 0 <= y0 < CHUNK_WIDTH && 0 <= z0
                    < CHUNK_WIDTH implies chunk.voxels@[#[trigger] lin_idx(x0, y0, z0)]
                == Voxel::Air by {
                crate::chunk::lemma_lin_idx_bounds(x0, y0, z0);
            }
        }

        let mut z: u32 = 0;
        while z < CHUNK_WIDTH
            invariant
                noise.wf(),
                heights == noise.heightmap@,
                -30000 <= y_level <= 30000,
                z <= CHUNK_WIDTH,
                chunk.voxels.wf(),
                !chunk.definitely_empty,
                forall|x0: int, y0: int, z0: int|
                    0 <= x0 < CHUNK_WIDTH && 0 <= y0 < CHUNK_WIDTH && 0 <= z0 < z
                        ==> chunk.voxels@[#[trigger] lin_idx(x0, y0, z0)] == generated_voxel(
                        heights,
                        y_level as int,
                        x0,
                        y0,
                        z0,
                    ),
                forall|x0: int, y0: int, z0: int|
                    0 <= x0 < CHUNK_WIDTH && 0 <= y0 < CHUNK_WIDTH && z <= z0 < CHUNK_WIDTH
                        ==> chunk.voxels@[#[trigger] lin_idx(x0, y0, z0)] == Voxel::Air,
            decreases CHUNK_WIDTH - z,
        {
            let mut x: u32 = 0;
            while x < CHUNK_WIDTH
                invariant
                    noise.wf(),
                    heights == noise.heightmap@,
                    -30000 <= y_level <= 30000,
                    z < CHUNK_WIDTH,
                    x <= CHUNK_WIDTH,
                    chunk.voxels.wf(),
                    !chunk.definitely_empty,
                    forall|x0: int, y0: int, z0: int|
                        0 <= x0 < CHUNK_WIDTH && 0 <= y0 < CHUNK_WIDTH && 0 <= z0 < z
                            ==> chunk.voxels@[#[trigger] lin_idx(x0, y0, z0)] == generated_voxel(
                            heights,
                            y_level as int,
                            x0,
                            y0,
                            z0,
                        ),
                    forall|x0: int, y0: int|
                        0 <= x0 < x && 0 <= y0 < CHUNK_WIDTH
                            ==> chunk.voxels@[#[trigger] lin_idx(x0, y0, z as int)]
                            == generated_voxel(heights, y_level as int, x0, y0, z as int),
                    forall|x0: int, y0: int|
                        x <= x0 < CHUNK_WIDTH && 0 <= y0 < CHUNK_WIDTH
                            ==> chunk.voxels@[#[trigger] lin_idx(x0, y0, z as int)] == Voxel::Air,
                    forall|x0: int, y0: int, z0: int|
                        0 <= x0 < CHUNK_WIDTH && 0 <= y0 < CHUNK_WIDTH && z < z0 < CHUNK_WIDTH
                            ==> chunk.voxels@[#[trigger] lin_idx(x0, y0, z0)] == Voxel::Air,
                decreases CHUNK_WIDTH - x,
            {
                let h64: i64 = noise.heightmap[(z * CHUNK_WIDTH + x) as usize] as i64 - (
                y_level as i64) * (CHUNK_WIDTH as i64);
                let ghost pre = chunk.voxels@;
                fill_column(&mut chunk.voxels, x, z, h64);
                proof {
                    assert forall|x0: int, y0: int, z0: int|
                        0 <= x0 < CHUNK_WIDTH && 0 <= y0 < CHUNK_WIDTH && 0 <= z0 < CHUNK_WIDTH
                            && !(x0 == x && z0 == z) implies chunk.voxels@[#[trigger] lin_idx(
                        x0,
                        y0,
                        z0,
                    )] == pre[lin_idx(x0, y0, z0)] by {
                        assert forall|y1: int| 0 <= y1 < CHUNK_WIDTH implies lin_idx(x0, y0, z0)
                            != lin_idx(x as int, y1, z as int) by {
                            if lin_idx(x0, y0, z0) == lin_idx(x as int, y1, z as int) {
                                crate::chunk::lemma_index_injective(
                                    x0,
                                    y0,
                                    z0,
                                    x as int,
                                    y1,
                                    z as int,
                                );
                            }
                        }
                        crate::chunk::lemma_lin_idx_bounds(x0, y0, z0);
                    }
                    assert forall|y0: int| 0 <= y0 < CHUNK_WIDTH implies chunk.voxels@[
                    #[trigger] lin_idx(x as int, y0, z as int)] == generated_voxel(
                        heights,
                        y_level as int,
                        x as int,
                        y0,
                        z as int,
                    ) by {
                        assert(chunk.voxels@[lin_idx(x as int, y0, z as int)] == column_voxel(
                            h64 as int,
                            y0,
                        ));
                    }
                }
                x += 1;
            }
            z += 1;
        }

        chunk.update_edge_slice_bits();
        chunk
    }
}

} // verus!

