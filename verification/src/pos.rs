//! Coordinate types: world-space voxel, chunk and region positions, and the
//! bounded in-chunk / in-region positions used to index the dense arrays.
//!
//! Conversions between chunk and region coordinates use Euclidean (flooring)
//! division and remainder, so negative coordinates map correctly.

use crate::ivec::{IVec3, UVec3};
use crate::{CHUNK_SQUARE, CHUNK_WIDTH, REGION_SQUARE, REGION_WIDTH};
use vstd::arithmetic::div_mod::lemma_fundamental_div_mod;
use vstd::prelude::*;

verus! {

/// Euclidean (flooring) division of a signed coordinate by a positive width.
/// Agrees with the mathematical `/` of specifications.
pub fn div_euclid_i32(x: i32, d: i32) -> (q: i32)
    requires
        d > 0,
    ensures
        q == x as int / d as int,
{
    proof {
        lemma_div_in_i32_range(x as int, d as int);
    }
    match x.checked_div_euclid(d) {
        Some(q) => q,
        None => {
            // Unreachable: the quotient of an `i32` by a positive `i32`
            // always fits in an `i32`.
            proof {
                assert(false);
            }
            0
        },
    }
}

/// Euclidean remainder of a signed coordinate by a positive width.
/// Agrees with the mathematical `%` of specifications; always in `0 .. d`.
pub fn rem_euclid_i32(x: i32, d: i32) -> (m: i32)
    requires
        d > 0,
    ensures
        m == x as int % d as int,
        0 <= m < d,
{
    proof {
        lemma_fundamental_div_mod(x as int, d as int);
    }
    match x.checked_rem_euclid(d) {
        Some(m) => m,
        None => {
            proof {
                assert(false);
            }
            0
        },
    }
}

/// For positive divisors the Euclidean quotient of an `i32` stays within
/// `i32` bounds.
proof fn lemma_div_in_i32_range(x: int, d: int)
    requires
        d > 0,
        i32::MIN <= x <= i32::MAX,
    ensures
        i32::MIN <= x / d <= i32::MAX,
{
    lemma_fundamental_div_mod(x, d);
    if x >= 0 {
        assert(x / d <= x) by (nonlinear_arith)
            requires
                d > 0,
                x >= 0,
        ;
        assert(x / d >= 0) by (nonlinear_arith)
            requires
                d > 0,
                x >= 0,
        ;
    } else {
        assert(x / d < 0 ==> x / d >= x) by (nonlinear_arith)
            requires
                d > 0,
                x < 0,
        ;
        assert(x / d <= 0) by (nonlinear_arith)
            requires
                d > 0,
                x < 0,
        ;
    }
}

/// A position of a single voxel in world space.
#[derive(Debug, Copy, Clone, PartialEq, Eq, Structural)]
pub struct VoxelPos(pub IVec3);

/// A position of a chunk in world space, in units of whole chunks.
#[derive(Default, Debug, Copy, Clone, PartialEq, Eq, Structural)]
pub struct ChunkPos(pub IVec3);

/// A position of a region in world space, in units of whole regions.
#[derive(Default, Debug, Copy, Clone, PartialEq, Eq, Structural)]
pub struct RegionPos(pub IVec3);

impl Default for IVec3 {
    fn default() -> (r: Self)
        ensures
            r == (IVec3 { x: 0, y: 0, z: 0 }),
    {
        IVec3 { x: 0, y: 0, z: 0 }
    }
}

/// The region that contains a chunk: componentwise flooring division by
/// `REGION_WIDTH`.
pub open spec fn region_of_chunk(p: ChunkPos) -> RegionPos {
    RegionPos(
        IVec3 {
            x: (p.0.x as int / REGION_WIDTH as int) as i32,
            y: (p.0.y as int / REGION_WIDTH as int) as i32,
            z: (p.0.z as int / REGION_WIDTH as int) as i32,
        },
    )
}

/// The chunk that contains a voxel: componentwise flooring division by
/// `CHUNK_WIDTH`.
pub open spec fn chunk_of_voxel(p: VoxelPos) -> ChunkPos {
    ChunkPos(
        IVec3 {
            x: (p.0.x as int / CHUNK_WIDTH as int) as i32,
            y: (p.0.y as int / CHUNK_WIDTH as int) as i32,
            z: (p.0.z as int / CHUNK_WIDTH as int) as i32,
        },
    )
}

impl From<ChunkPos> for RegionPos {
    fn from(value: ChunkPos) -> (r: Self) {
        proof {
            lemma_div_in_i32_range(value.0.x as int, REGION_WIDTH as int);
            lemma_div_in_i32_range(value.0.y as int, REGION_WIDTH as int);
            lemma_div_in_i32_range(value.0.z as int, REGION_WIDTH as int);
        }
        RegionPos(
            IVec3 {
                x: div_euclid_i32(value.0.x, REGION_WIDTH as i32),
                y: div_euclid_i32(value.0.y, REGION_WIDTH as i32),
                z: div_euclid_i32(value.0.z, REGION_WIDTH as i32),
            },
        )
    }
}

impl vstd::std_specs::convert::FromSpecImpl<ChunkPos> for RegionPos {
    open spec fn obeys_from_spec() -> bool {
        true
    }

    open spec fn from_spec(v: ChunkPos) -> RegionPos {
        region_of_chunk(v)
    }
}

impl From<VoxelPos> for ChunkPos {
    fn from(value: VoxelPos) -> (r: Self) {
        proof {
            lemma_div_in_i32_range(value.0.x as int, CHUNK_WIDTH as int);
            lemma_div_in_i32_range(value.0.y as int, CHUNK_WIDTH as int);
            lemma_div_in_i32_range(value.0.z as int, CHUNK_WIDTH as int);
        }
        ChunkPos(
            IVec3 {
                x: div_euclid_i32(value.0.x, CHUNK_WIDTH as i32),
                y: div_euclid_i32(value.0.y, CHUNK_WIDTH as i32),
                z: div_euclid_i32(value.0.z, CHUNK_WIDTH as i32),
            },
        )
    }
}

impl vstd::std_specs::convert::FromSpecImpl<VoxelPos> for ChunkPos {
    open spec fn obeys_from_spec() -> bool {
        true
    }

    open spec fn from_spec(v: VoxelPos) -> ChunkPos {
        chunk_of_voxel(v)
    }
}

impl ChunkPos {
    /// The world-space position of this chunk's lowest-coordinate voxel.
    pub fn voxel_origin(self) -> (r: VoxelPos)
        requires
            i32::MIN <= self.0.x * CHUNK_WIDTH <= i32::MAX,
            i32::MIN <= self.0.y * CHUNK_WIDTH <= i32::MAX,
            i32::MIN <= self.0.z * CHUNK_WIDTH <= i32::MAX,
        ensures
            r.0.x == self.0.x * CHUNK_WIDTH,
            r.0.y == self.0.y * CHUNK_WIDTH,
            r.0.z == self.0.z * CHUNK_WIDTH,
    {
        let w = CHUNK_WIDTH as i32;
        VoxelPos(IVec3 { x: self.0.x * w, y: self.0.y * w, z: self.0.z * w })
    }
}

impl RegionPos {
    /// The chunk position of this region's lowest-coordinate chunk.
    pub fn chunk_origin(self) -> (r: ChunkPos)
        requires
            i32::MIN <= self.0.x * REGION_WIDTH <= i32::MAX,
            i32::MIN <= self.0.y * REGION_WIDTH <= i32::MAX,
            i32::MIN <= self.0.z * REGION_WIDTH <= i32::MAX,
        ensures
            r.0.x == self.0.x * REGION_WIDTH,
            r.0.y == self.0.y * REGION_WIDTH,
            r.0.z == self.0.z * REGION_WIDTH,
    {
        let w = REGION_WIDTH as i32;
        ChunkPos(IVec3 { x: self.0.x * w, y: self.0.y * w, z: self.0.z * w })
    }
}

/// A voxel position inside one chunk; every component is below `CHUNK_WIDTH`.
#[derive(Debug, Copy, Clone, PartialEq, Eq, Structural)]
pub struct InChunkPos(pub UVec3);

impl InChunkPos {
    /// Every component stays below the chunk width.
    pub open spec fn wf(self) -> bool {
        self.0.x < CHUNK_WIDTH && self.0.y < CHUNK_WIDTH && self.0.z < CHUNK_WIDTH
    }

    /// The linear index of this position in a dense chunk array.
    pub open spec fn index_spec(self) -> int {
        CHUNK_SQUARE * self.0.z + CHUNK_WIDTH * self.0.y + self.0.x
    }

    /// Accepts exactly the positions whose components are all below
    /// `CHUNK_WIDTH`.
    pub fn new(pos: UVec3) -> (r: Option<Self>)
        ensures
            r matches Some(p) ==> p.0 == pos && p.wf(),
            r is Some <==> (pos.x < CHUNK_WIDTH && pos.y < CHUNK_WIDTH && pos.z < CHUNK_WIDTH),
    {
        match pos.max_element() < CHUNK_WIDTH {
            true => Some(Self(pos)),
            false => None,
        }
    }

    pub fn pos(&self) -> (r: UVec3)
        ensures
            r == self.0,
    {
        self.0
    }

    pub fn index(&self) -> (r: usize)
        requires
            self.wf(),
        ensures
            r == self.index_spec(),
            r < crate::CHUNK_CUBE,
    {
        (CHUNK_SQUARE * self.0.z + CHUNK_WIDTH * self.0.y + self.0.x) as usize
    }
}

/// A chunk position inside one region; every component is below
/// `REGION_WIDTH`.
#[derive(Debug, Copy, Clone, PartialEq, Eq, Structural)]
pub struct InRegionChunkPos(pub UVec3);

/// The offset of a chunk within its region: componentwise Euclidean
/// remainder by `REGION_WIDTH`.
pub open spec fn in_region_offset(p: ChunkPos) -> UVec3 {
    UVec3 {
        x: (p.0.x as int % REGION_WIDTH as int) as u32,
        y: (p.0.y as int % REGION_WIDTH as int) as u32,
        z: (p.0.z as int % REGION_WIDTH as int) as u32,
    }
}

impl InRegionChunkPos {
    /// Every component stays below the region width.
    pub open spec fn wf(self) -> bool {
        self.0.x < REGION_WIDTH && self.0.y < REGION_WIDTH && self.0.z < REGION_WIDTH
    }

    /// The linear index of this position in a dense region array.
    pub open spec fn index_spec(self) -> int {
        REGION_SQUARE * self.0.z + REGION_WIDTH * self.0.y + self.0.x
    }

    /// Accepts exactly the positions whose components are all below
    /// `REGION_WIDTH`.
    pub fn new(pos: UVec3) -> (r: Option<Self>)
        ensures
            r matches Some(p) ==> p.0 == pos && p.wf(),
            r is Some <==> (pos.x < REGION_WIDTH && pos.y < REGION_WIDTH && pos.z < REGION_WIDTH),
    {
        match pos.max_element() < REGION_WIDTH {
            true => Some(Self(pos)),
            false => None,
        }
    }

    /// Where a world-space chunk position falls within its region.
    pub fn from_world(world_chunk_pos: ChunkPos) -> (r: Self)
        ensures
            r.0 == in_region_offset(world_chunk_pos),
            r.wf(),
    {
        let w = REGION_WIDTH as i32;
        Self(
            UVec3 {
                x: rem_euclid_i32(world_chunk_pos.0.x, w) as u32,
                y: rem_euclid_i32(world_chunk_pos.0.y, w) as u32,
                z: rem_euclid_i32(world_chunk_pos.0.z, w) as u32,
            },
        )
    }

    pub fn pos(&self) -> (r: UVec3)
        ensures
            r == self.0,
    {
        self.0
    }

    pub fn index(&self) -> (r: usize)
        requires
            self.wf(),
        ensures
            r == self.index_spec(),
            r < crate::REGION_CUBE,
    {
        (REGION_SQUARE * self.0.z + REGION_WIDTH * self.0.y + self.0.x) as usize
    }
}

/// Coordinate round-trip: the region of a chunk, scaled back to chunk
/// coordinates and offset by the chunk's position within the region,
/// reproduces the original chunk position — including for negative
/// coordinates, because the conversions use Euclidean division.
pub proof fn lemma_chunk_region_round_trip(p: ChunkPos)
    ensures
        p.0.x == region_of_chunk(p).0.x * REGION_WIDTH + in_region_offset(p).x,
        p.0.y == region_of_chunk(p).0.y * REGION_WIDTH + in_region_offset(p).y,
        p.0.z == region_of_chunk(p).0.z * REGION_WIDTH + in_region_offset(p).z,
{
    lemma_fundamental_div_mod(p.0.x as int, REGION_WIDTH as int);
    lemma_fundamental_div_mod(p.0.y as int, REGION_WIDTH as int);
    lemma_fundamental_div_mod(p.0.z as int, REGION_WIDTH as int);
    lemma_div_in_i32_range(p.0.x as int, REGION_WIDTH as int);
    lemma_div_in_i32_range(p.0.y as int, REGION_WIDTH as int);
    lemma_div_in_i32_range(p.0.z as int, REGION_WIDTH as int);
}

} // verus!
