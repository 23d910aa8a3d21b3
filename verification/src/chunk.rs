//! Chunks: a dense voxel array together with the published per-face
//! boundary bit planes that neighbors consume for cross-chunk face culling.
//!
//! The invariant that matters here: whenever `edges_dirty` is clear, the
//! published edge planes reflect the current voxel contents, so a neighbor
//! may consume them for meshing.

use crate::axis::{SliceDirection, VoxelAxis};
use crate::bits::{bit_seq, bits_clone, bits_repeat, BitBuf};
use crate::container::VoxelContainer;
use crate::pos::InChunkPos;
use crate::voxels::Voxel;
use crate::{CHUNK_CUBE, CHUNK_SQUARE, CHUNK_WIDTH};
use vstd::prelude::*;

verus! {

/// The linear index of a chunk cell.
pub open spec fn lin_idx(x: int, y: int, z: int) -> int {
    CHUNK_SQUARE * z + CHUNK_WIDTH * y + x
}

/// Cell coordinates inside the chunk give indices inside the array.
pub proof fn lemma_lin_idx_bounds(x: int, y: int, z: int)
    requires
        0 <= x < CHUNK_WIDTH,
        0 <= y < CHUNK_WIDTH,
        0 <= z < CHUNK_WIDTH,
    ensures
        0 <= lin_idx(x, y, z) < CHUNK_CUBE,
{
    assert(CHUNK_WIDTH == 31);
    assert(CHUNK_SQUARE == 961);
    assert(CHUNK_CUBE == 29791);
}

/// The linear index of the chunk cell a slice position maps to.
pub open spec fn cell_index_spec(sd: SliceDirection, depth: int, x: int, y: int) -> int {
    let c = sd.cell_spec(depth, x, y);
    CHUNK_SQUARE * c.2 + CHUNK_WIDTH * c.1 + c.0
}

/// Distinct cells have distinct linear indices.
pub proof fn lemma_index_injective(x1: int, y1: int, z1: int, x2: int, y2: int, z2: int)
    requires
        0 <= x1 < CHUNK_WIDTH,
        0 <= y1 < CHUNK_WIDTH,
        0 <= z1 < CHUNK_WIDTH,
        0 <= x2 < CHUNK_WIDTH,
        0 <= y2 < CHUNK_WIDTH,
        0 <= z2 < CHUNK_WIDTH,
        CHUNK_SQUARE * z1 + CHUNK_WIDTH * y1 + x1 == CHUNK_SQUARE * z2 + CHUNK_WIDTH * y2 + x2,
    ensures
        x1 == x2 && y1 == y2 && z1 == z2,
{
    let dx = x1 - x2;
    let dy = y1 - y2;
    let dz = z1 - z2;
    assert(CHUNK_WIDTH == 31);
    assert(CHUNK_SQUARE == 961);
    assert(961 * dz + 31 * dy + dx == 0);
    assert(dx == (-31) * (31 * dz + dy));
    let k = 31 * dz + dy;
    assert(-31 < dx < 31);
    assert(dx == (-31) * k);
    if k >= 1 {
        assert((-31) * k <= -31);
        assert(false);
    }
    if k <= -1 {
        assert((-31) * k >= 31);
        assert(false);
    }
    assert(k == 0 && dx == 0);
    assert(dy == (-31) * dz);
    if dz >= 1 {
        assert((-31) * dz <= -31);
        assert(false);
    }
    if dz <= -1 {
        assert((-31) * dz >= 31);
        assert(false);
    }
}

/// The occlusion bits of one slice: for each slice position, whether the
/// chunk cell it maps to culls as solid.
pub open spec fn solid_bits_slice_spec(c: Seq<Voxel>, sd: SliceDirection, depth: int) -> Seq<
    bool,
> {
    Seq::new(
        CHUNK_SQUARE as nat,
        |i: int| c[cell_index_spec(sd, depth, i % CHUNK_WIDTH as int, i / CHUNK_WIDTH as int)]
            != Voxel::Air,
    )
}

/// The slice basis whose normal is the given axis.
pub open spec fn dir_for_normal(a: VoxelAxis) -> SliceDirection {
    match a {
        VoxelAxis::PosZ => SliceDirection {
            right: VoxelAxis::PosX,
            up: VoxelAxis::PosY,
            normal: VoxelAxis::PosZ,
        },
        VoxelAxis::NegZ => SliceDirection {
            right: VoxelAxis::NegX,
            up: VoxelAxis::PosY,
            normal: VoxelAxis::NegZ,
        },
        VoxelAxis::PosX => SliceDirection {
            right: VoxelAxis::NegZ,
            up: VoxelAxis::PosY,
            normal: VoxelAxis::PosX,
        },
        VoxelAxis::NegX => SliceDirection {
            right: VoxelAxis::PosZ,
            up: VoxelAxis::PosY,
            normal: VoxelAxis::NegX,
        },
        VoxelAxis::NegY => SliceDirection {
            right: VoxelAxis::PosX,
            up: VoxelAxis::PosZ,
            normal: VoxelAxis::NegY,
        },
        VoxelAxis::PosY => SliceDirection {
            right: VoxelAxis::NegX,
            up: VoxelAxis::PosZ,
            normal: VoxelAxis::PosY,
        },
    }
}

/// The published edge plane for face direction `a`: the solid bits of the
/// outermost slice whose faces point along `a`.
pub open spec fn edge_plane_spec(c: Seq<Voxel>, a: VoxelAxis) -> Seq<bool> {
    solid_bits_slice_spec(c, dir_for_normal(a.negate_spec()), 0)
}

/// The six boundary bit planes published by a chunk (or collected from a
/// chunk's six neighbors), one per face direction.
#[derive(Debug)]
pub struct NeighborChunkSlices {
    pub pos_x: BitBuf,
    pub pos_y: BitBuf,
    pub pos_z: BitBuf,
    pub neg_x: BitBuf,
    pub neg_y: BitBuf,
    pub neg_z: BitBuf,
}

impl NeighborChunkSlices {
    /// The plane facing the given direction, as a bit sequence.
    pub open spec fn plane(self, a: VoxelAxis) -> Seq<bool> {
        match a {
            VoxelAxis::PosX => bit_seq(self.pos_x),
            VoxelAxis::PosY => bit_seq(self.pos_y),
            VoxelAxis::PosZ => bit_seq(self.pos_z),
            VoxelAxis::NegX => bit_seq(self.neg_x),
            VoxelAxis::NegY => bit_seq(self.neg_y),
            VoxelAxis::NegZ => bit_seq(self.neg_z),
        }
    }

    /// Every plane covers one whole chunk face.
    pub open spec fn wf(self) -> bool {
        forall|a: VoxelAxis| (#[trigger] self.plane(a)).len() == CHUNK_SQUARE
    }

    pub fn get_in_direction(&self, direction: VoxelAxis) -> (r: &BitBuf)
        ensures
            bit_seq(*r) == self.plane(direction),
    {
        match direction {
            VoxelAxis::PosX => &self.pos_x,
            VoxelAxis::PosY => &self.pos_y,
            VoxelAxis::PosZ => &self.pos_z,
            VoxelAxis::NegX => &self.neg_x,
            VoxelAxis::NegY => &self.neg_y,
            VoxelAxis::NegZ => &self.neg_z,
        }
    }

    /// Replaces the plane facing the given direction.
    pub fn set_in_direction(&mut self, direction: VoxelAxis, bits: BitBuf)
        ensures
            forall|a: VoxelAxis|
                final(self).plane(a) == if a == direction {
                    bit_seq(bits)
                } else {
                    old(self).plane(a)
                },
    {
        match direction {
            VoxelAxis::PosX => self.pos_x = bits,
            VoxelAxis::PosY => self.pos_y = bits,
            VoxelAxis::PosZ => self.pos_z = bits,
            VoxelAxis::NegX => self.neg_x = bits,
            VoxelAxis::NegY => self.neg_y = bits,
            VoxelAxis::NegZ => self.neg_z = bits,
        }
    }

    /// An independent copy holding the same planes.
    pub fn duplicate(&self) -> (r: Self)
        ensures
            forall|a: VoxelAxis| #[trigger] r.plane(a) == self.plane(a),
    {
        NeighborChunkSlices {
            pos_x: bits_clone(&self.pos_x),
            pos_y: bits_clone(&self.pos_y),
            pos_z: bits_clone(&self.pos_z),
            neg_x: bits_clone(&self.neg_x),
            neg_y: bits_clone(&self.neg_y),
            neg_z: bits_clone(&self.neg_z),
        }
    }
}

impl Default for NeighborChunkSlices {
    /// Six all-clear planes: nothing is occluded.
    fn default() -> (r: Self)
        ensures
            forall|a: VoxelAxis| #[trigger] r.plane(a) == Seq::new(
                CHUNK_SQUARE as nat,
                |i: int| false,
            ),
            r.wf(),
    {
        NeighborChunkSlices {
            pos_x: bits_repeat(false, CHUNK_SQUARE as usize),
            pos_y: bits_repeat(false, CHUNK_SQUARE as usize),
            pos_z: bits_repeat(false, CHUNK_SQUARE as usize),
            neg_x: bits_repeat(false, CHUNK_SQUARE as usize),
            neg_y: bits_repeat(false, CHUNK_SQUARE as usize),
            neg_z: bits_repeat(false, CHUNK_SQUARE as usize),
        }
    }
}

/// Whether an in-chunk position lies on the chunk's boundary.
pub open spec fn on_boundary(pos: InChunkPos) -> bool {
    pos.0.x == 0 || pos.0.y == 0 || pos.0.z == 0 || pos.0.x == CHUNK_WIDTH - 1 || pos.0.y
        == CHUNK_WIDTH - 1 || pos.0.z == CHUNK_WIDTH - 1
}

/// A chunk: its voxels, a fast-path emptiness flag, and the published edge
/// bit planes with their dirtiness flag.
#[derive(Debug)]
pub struct Chunk {
    pub voxels: VoxelContainer,
    pub definitely_empty: bool,
    pub edge_slice_bits: NeighborChunkSlices,
    pub edges_dirty: bool,
}

impl Chunk {
    /// Well-formed chunks hold a full voxel array and full-size planes;
    /// the emptiness flag is only set when everything really is air, and
    /// clean edge planes really reflect the voxels.
    pub open spec fn wf(self) -> bool {
        &&& self.voxels.wf()
        &&& self.edge_slice_bits.wf()
        &&& self.definitely_empty ==> forall|i: int|
            0 <= i < CHUNK_CUBE ==> self.voxels@[i] == Voxel::Air
        &&& !self.edges_dirty ==> self.edges_current()
    }

    /// The published edge planes reflect the current voxel contents.
    pub open spec fn edges_current(self) -> bool {
        forall|a: VoxelAxis| #[trigger] self.edge_slice_bits.plane(a) == edge_plane_spec(
            self.voxels@,
            a,
        )
    }

    /// An all-air chunk with its edge planes published.
    pub fn new_empty() -> (r: Self)
        ensures
            r.wf(),
            !r.edges_dirty,
            r.voxels@ == Seq::new(CHUNK_CUBE as nat, |i: int| Voxel::Air),
            !r.definitely_empty,
    {
        Self::from_container(VoxelContainer::from_voxel(Voxel::Air))
    }

    /// Wraps a voxel array into a chunk and publishes its edge planes.
    pub fn from_container(voxels: VoxelContainer) -> (r: Self)
        requires
            voxels.wf(),
        ensures
            r.wf(),
            !r.edges_dirty,
            !r.definitely_empty,
            r.voxels@ == voxels@,
    {
        let mut this_chunk = Chunk {
            voxels,
            definitely_empty: false,
            edge_slice_bits: NeighborChunkSlices::default(),
            edges_dirty: true,
        };
        this_chunk.update_edge_slice_bits();
        this_chunk
    }

    pub fn at(&self, pos: InChunkPos) -> (r: Voxel)
        requires
            self.wf(),
            pos.wf(),
        ensures
            r == self.voxels@[pos.index_spec()],
    {
        self.voxels.at(pos)
    }

    /// Writes one voxel. A write on the boundary marks the published edge
    /// planes dirty; an interior write provably leaves them current.
    pub fn set(&mut self, pos: InChunkPos, voxel: Voxel)
        requires
            old(self).wf(),
            pos.wf(),
        ensures
            final(self).wf(),
            final(self).voxels@ == old(self).voxels@.update(pos.index_spec(), voxel),
            final(self).definitely_empty == (old(self).definitely_empty && voxel == Voxel::Air),
            final(self).edges_dirty == (old(self).edges_dirty || on_boundary(pos)),
            final(self).edge_slice_bits == old(self).edge_slice_bits,
    {
        self.voxels.set(pos, voxel);
        if voxel != Voxel::Air {
            self.definitely_empty = false;
        }
        let p = pos.pos();
        let boundary = p.x == 0 || p.y == 0 || p.z == 0 || p.x == CHUNK_WIDTH - 1 || p.y
            == CHUNK_WIDTH - 1 || p.z == CHUNK_WIDTH - 1;
        if !self.edges_dirty && boundary {
            self.edges_dirty = true;
        }
        proof {
            if !self.edges_dirty {
                assert forall|a: VoxelAxis| #[trigger] self.edge_slice_bits.plane(a)
                    == edge_plane_spec(self.voxels@, a) by {
                    lemma_interior_update_preserves_edges(old(self).voxels@, pos, voxel, a);
                }
            }
        }
    }

    /// Recomputes and publishes all six edge planes.
    pub fn update_edge_slice_bits(&mut self)
        requires
            old(self).voxels.wf(),
            old(self).definitely_empty ==> forall|i: int|
                0 <= i < CHUNK_CUBE ==> old(self).voxels@[i] == Voxel::Air,
        ensures
            final(self).wf(),
            !final(self).edges_dirty,
            final(self).edges_current(),
            final(self).voxels@ == old(self).voxels@,
            final(self).definitely_empty == old(self).definitely_empty,
    {
        self.refresh_plane(SliceDirection::new(VoxelAxis::PosX, VoxelAxis::PosY));
        self.refresh_plane(SliceDirection::new(VoxelAxis::NegX, VoxelAxis::PosY));
        self.refresh_plane(SliceDirection::new(VoxelAxis::NegZ, VoxelAxis::PosY));
        self.refresh_plane(SliceDirection::new(VoxelAxis::PosZ, VoxelAxis::PosY));
        self.refresh_plane(SliceDirection::new(VoxelAxis::PosX, VoxelAxis::PosZ));
        self.refresh_plane(SliceDirection::new(VoxelAxis::NegX, VoxelAxis::PosZ));
        self.edges_dirty = false;
    }

    /// Recomputes the one edge plane that the given slice basis scans at
    /// depth zero.
    fn refresh_plane(&mut self, slice_dir: SliceDirection)
        requires
            old(self).voxels.wf(),
            slice_dir.wf(),
            slice_dir == dir_for_normal(slice_dir.normal),
        ensures
            final(self).voxels@ == old(self).voxels@,
            final(self).definitely_empty == old(self).definitely_empty,
            final(self).edges_dirty == old(self).edges_dirty,
            forall|a: VoxelAxis|
                final(self).edge_slice_bits.plane(a) == if a
                    == slice_dir.normal.negate_spec() {
                    edge_plane_spec(old(self).voxels@, a)
                } else {
                    old(self).edge_slice_bits.plane(a)
                },
    {
        let bits = match self.get_solid_bits_slice(slice_dir, 0) {
            Some(bits) => bits,
            None => {
                proof {
                    assert(false);
                }
                bits_repeat(false, CHUNK_SQUARE as usize)
            },
        };
        let target = slice_dir.normal().negate();
        proof {
            assert(dir_for_normal(target.negate_spec()) == slice_dir);
        }
        self.edge_slice_bits.set_in_direction(target, bits);
    }

    /// Computes the solid-occlusion bits of one slice: bit `y * CHUNK_WIDTH
    /// + x` is set exactly when the voxel that slice position maps to culls
    /// as solid.
    pub fn get_solid_bits_slice(&self, slice_direction: SliceDirection, slice_depth: u32) -> (r:
        Option<BitBuf>)
        requires
            self.voxels.wf(),
            slice_direction.wf(),
            slice_depth < CHUNK_WIDTH,
        ensures
            r matches Some(b) && bit_seq(b) == solid_bits_slice_spec(
                self.voxels@,
                slice_direction,
                slice_depth as int,
            ),
    {
        let ghost target = solid_bits_slice_spec(self.voxels@, slice_direction, slice_depth as int);
        let mut bit_slice = bits_repeat(false, CHUNK_SQUARE as usize);
        let mut y: u32 = 0;
        while y < CHUNK_WIDTH
            invariant
                self.voxels.wf(),
                slice_direction.wf(),
                slice_depth < CHUNK_WIDTH,
                y <= CHUNK_WIDTH,
                bit_seq(bit_slice).len() == CHUNK_SQUARE,
                target == solid_bits_slice_spec(self.voxels@, slice_direction, slice_depth as int),
                forall|i: int| 0 <= i < y * CHUNK_WIDTH ==> bit_seq(bit_slice)[i] == target[i],
            decreases CHUNK_WIDTH - y,
        {
            let mut x: u32 = 0;
            while x < CHUNK_WIDTH
                invariant
                    self.voxels.wf(),
                    slice_direction.wf(),
                    slice_depth < CHUNK_WIDTH,
                    y < CHUNK_WIDTH,
                    x <= CHUNK_WIDTH,
                    bit_seq(bit_slice).len() == CHUNK_SQUARE,
                    target == solid_bits_slice_spec(
                        self.voxels@,
                        slice_direction,
                        slice_depth as int,
                    ),
                    forall|i: int|
                        0 <= i < y * CHUNK_WIDTH + x ==> bit_seq(bit_slice)[i] == target[i],
                decreases CHUNK_WIDTH - x,
            {
                proof {
                    slice_direction.lemma_cell_in_bounds(slice_depth as int, x as int, y as int);
                }
                let cell = match slice_direction.transform(
                    slice_depth,
                    crate::ivec::UVec2 { x, y },
                ) {
                    Some(cell) => cell,
                    None => {
                        proof {
                            assert(false);
                        }
                        crate::ivec::UVec3 { x: 0, y: 0, z: 0 }
                    },
                };
                let pos = match InChunkPos::new(cell) {
                    Some(pos) => pos,
                    None => {
                        proof {
                            assert(false);
                        }
                        InChunkPos(crate::ivec::UVec3 { x: 0, y: 0, z: 0 })
                    },
                };
                let voxel = self.voxels.at(pos);
                let slice_index = y * CHUNK_WIDTH + x;
                crate::bits::bits_set(
                    &mut bit_slice,
                    slice_index as usize,
                    voxel.does_cull_as_solid(),
                );
                proof {
                    assert(pos.index_spec() == cell_index_spec(
                        slice_direction,
                        slice_depth as int,
                        x as int,
                        y as int,
                    ));
                }
                x += 1;
            }
            y += 1;
        }
        proof {
            assert(bit_seq(bit_slice) =~= target);
        }
        Some(bit_slice)
    }

    /// An independent copy of this chunk.
    pub fn duplicate(&self) -> (r: Self)
        ensures
            r.voxels@ == self.voxels@,
            r.definitely_empty == self.definitely_empty,
            r.edges_dirty == self.edges_dirty,
            forall|a: VoxelAxis| #[trigger] r.edge_slice_bits.plane(a)
                == self.edge_slice_bits.plane(a),
            self.wf() ==> r.wf(),
    {
        Chunk {
            voxels: self.voxels.duplicate(),
            definitely_empty: self.definitely_empty,
            edge_slice_bits: self.edge_slice_bits.duplicate(),
            edges_dirty: self.edges_dirty,
        }
    }
}

/// Updating a voxel strictly inside the chunk leaves every published edge
/// plane unchanged: edge planes read only boundary cells.
proof fn lemma_interior_update_preserves_edges(
    c: Seq<Voxel>,
    pos: InChunkPos,
    v: Voxel,
    a: VoxelAxis,
)
    requires
        c.len() == CHUNK_CUBE,
        pos.wf(),
        !on_boundary(pos),
    ensures
        edge_plane_spec(c.update(pos.index_spec(), v), a) == edge_plane_spec(c, a),
{
    let sd = dir_for_normal(a.negate_spec());
    assert(sd.wf());
    let c2 = c.update(pos.index_spec(), v);
    assert forall|i: int| 0 <= i < CHUNK_SQUARE implies solid_bits_slice_spec(c2, sd, 0)[i]
        == solid_bits_slice_spec(c, sd, 0)[i] by {
        let x = i % CHUNK_WIDTH as int;
        let y = i / CHUNK_WIDTH as int;
        sd.lemma_cell_in_bounds(0, x, y);
        let cell = sd.cell_spec(0, x, y);
        if cell_index_spec(sd, 0, x, y) == pos.index_spec() {
            lemma_index_injective(
                cell.0,
                cell.1,
                cell.2,
                pos.0.x as int,
                pos.0.y as int,
                pos.0.z as int,
            );
        }
    }
    assert(solid_bits_slice_spec(c2, sd, 0) =~= solid_bits_slice_spec(c, sd, 0));
}

} // verus!
