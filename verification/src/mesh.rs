//! Greedy surface meshing: one slice at a time, faces are merged into the
//! fewest rectangular quads the row-greedy strategy finds, and a face is
//! never emitted when the voxel in front of it — in this chunk or the
//! neighbor — is solid.
//!
//! The central facts proved here: a slice with no visible face adds no
//! quads, and a slice with a visible face adds at least one; together they
//! pin down exactly when meshing produces geometry at all.

use crate::axis::{slice_directions, slice_directions_spec, SliceDirection};
use crate::bits::{bit_seq, bits_clone, bits_get, bits_repeat, bits_set, BitBuf};
use crate::chunk::{cell_index_spec, solid_bits_slice_spec, Chunk, NeighborChunkSlices};
use crate::container::VoxelContainer;
use crate::ivec::{UVec2, UVec3};
use crate::pos::InChunkPos;
use crate::voxels::Voxel;
use crate::{CHUNK_SQUARE, CHUNK_WIDTH};
use vstd::prelude::*;

verus! {

/// More quads than any chunk can produce; keeps index arithmetic in `u32`.
pub const QUAD_LIMIT: u32 = 0x0100_0000;

/// A merged rectangle of same-kind faces within one slice, in slice
/// coordinates; the end is exclusive.
#[derive(Debug, Copy, Clone, PartialEq, Eq, Structural)]
pub struct Quad {
    pub start: UVec2,
    pub end_excl: UVec2,
    pub voxel: Voxel,
}

impl Quad {
    /// A unit quad covering one face.
    pub fn new(pos: UVec2, voxel: Voxel) -> (r: Self)
        requires
            pos.x < CHUNK_WIDTH,
            pos.y < CHUNK_WIDTH,
        ensures
            r.start == pos,
            r.end_excl.x == pos.x + 1,
            r.end_excl.y == pos.y + 1,
            r.voxel == voxel,
    {
        Quad { start: pos, end_excl: UVec2 { x: pos.x + 1, y: pos.y + 1 }, voxel }
    }
}

/// A quad that fits in a slice.
pub open spec fn quad_wf(q: Quad) -> bool {
    &&& q.start.x < q.end_excl.x <= CHUNK_WIDTH
    &&& q.start.y < q.end_excl.y <= CHUNK_WIDTH
}

/// Whether the face at slice position `(x, y)` is visible: its voxel is
/// solid and the cell in front of it (recorded in `prev`) is not.
pub open spec fn face_visible(
    c: Seq<Voxel>,
    sd: SliceDirection,
    depth: int,
    prev: Seq<bool>,
    x: int,
    y: int,
) -> bool {
    c[cell_index_spec(sd, depth, x, y)] != Voxel::Air && !prev[y * CHUNK_WIDTH + x]
}

/// Whether a bit index lies in one row's covered span.
pub open spec fn row_span(yy: int, lo: int, hi: int, i: int) -> bool {
    yy * CHUNK_WIDTH + lo <= i < yy * CHUNK_WIDTH + hi
}

/// Whether a whole row alongside a quad matches the quad's voxel and is
/// neither already covered nor occluded, judged against the given bit
/// images.
pub open spec fn row_matches(
    c: Seq<Voxel>,
    sd: SliceDirection,
    depth: int,
    quad: Quad,
    y: int,
    bits: Seq<bool>,
    prev: Seq<bool>,
) -> bool {
    forall|x: int|
        quad.start.x <= x < quad.end_excl.x ==> {
            &&& (#[trigger] c[cell_index_spec(sd, depth, x, y)]) == quad.voxel
            &&& !bits[y * CHUNK_WIDTH + x]
            &&& !prev[y * CHUNK_WIDTH + x]
        }
}

/// The slice positions a downward-grown quad covered past its seed row.
pub open spec fn grown_covers(quad: Quad, y_end: int, i: int) -> bool {
    exists|yy: int|
        quad.start.y + 1 <= yy < y_end && #[trigger] row_span(
            yy,
            quad.start.x as int,
            quad.end_excl.x as int,
            i,
        )
}

/// The grown quad's covered cells are exactly what was newly set.
#[verifier::opaque]
pub open spec fn bits_delta(bits: Seq<bool>, bits0: Seq<bool>, quad: Quad, y_end: int) -> bool {
    forall|i: int| 0 <= i < CHUNK_SQUARE ==> bits[i] == (bits0[i] || grown_covers(quad, y_end, i))
}

/// Every cell a quad covers holds the quad's voxel and has an open cell
/// in front of it: the quad draws only visible faces of one kind.
pub open spec fn quad_faces_visible(
    c: Seq<Voxel>,
    sd: SliceDirection,
    depth: int,
    prev: Seq<bool>,
    q: Quad,
) -> bool {
    forall|x: int, y: int|
        q.start.x <= x < q.end_excl.x && q.start.y <= y < q.end_excl.y ==> (#[trigger] c[
        cell_index_spec(sd, depth, x, y)]) == q.voxel && !prev[y * CHUNK_WIDTH + x]
}

/// Whether a quad's extent contains a slice position.
pub open spec fn quad_covers(q: Quad, x: int, y: int) -> bool {
    q.start.x <= x < q.end_excl.x && q.start.y <= y < q.end_excl.y
}

/// Whether one of the quads past `base` covers a slice position.
#[verifier::opaque]
pub open spec fn covered_by_new(
    quads: Seq<(SliceDirection, u32, Quad)>,
    base: int,
    x: int,
    y: int,
) -> bool {
    exists|e: int| base <= e < quads.len() && quad_covers((#[trigger] quads[e]).2, x, y)
}

/// Appending a grown quad keeps every covered position covered, covers
/// its seed row, and covers every newly marked position.
proof fn lemma_emit_coverage(
    pre_quads: Seq<(SliceDirection, u32, Quad)>,
    quads: Seq<(SliceDirection, u32, Quad)>,
    base: int,
    seed: Quad,
    pre_bits: Seq<bool>,
    bits: Seq<bool>,
)
    requires
        0 <= base <= pre_quads.len(),
        quads == pre_quads.push(quads.last()),
        quads.len() == pre_quads.len() + 1,
        quads.last().2.start == seed.start,
        quads.last().2.end_excl.x == seed.end_excl.x,
        seed.start.y < quads.last().2.end_excl.y,
        pre_bits.len() == CHUNK_SQUARE,
        bits.len() == CHUNK_SQUARE,
        quad_wf(seed),
        quad_wf(quads.last().2),
        forall|i: int|
            0 <= i < CHUNK_SQUARE ==> bits[i] == (pre_bits[i] || grown_covers(
                seed,
                quads.last().2.end_excl.y as int,
                i,
            )),
    ensures
        forall|x: int, y: int| #[trigger]
            covered_by_new(pre_quads, base, x, y) ==> covered_by_new(quads, base, x, y),
        forall|x: int|
            seed.start.x <= x < seed.end_excl.x ==> covered_by_new(
                quads,
                base,
                x,
                seed.start.y as int,
            ),
        forall|x: int, y: int|
            0 <= x < CHUNK_WIDTH && 0 <= y < CHUNK_WIDTH && bits[y * CHUNK_WIDTH + x]
                && !pre_bits[y * CHUNK_WIDTH + x] ==> covered_by_new(quads, base, x, y),
{
    reveal(covered_by_new);
    let last = quads.len() - 1;
    assert forall|x: int, y: int| #[trigger]
        covered_by_new(pre_quads, base, x, y) implies covered_by_new(quads, base, x, y) by {
        let e = choose|e: int|
            base <= e < pre_quads.len() && quad_covers((#[trigger] pre_quads[e]).2, x, y);
        assert(quads[e] == pre_quads[e]);
        assert(quad_covers(quads[e].2, x, y));
    }
    assert forall|x: int|
        seed.start.x <= x < seed.end_excl.x implies covered_by_new(
        quads,
        base,
        x,
        seed.start.y as int,
    ) by {
        assert(quad_covers(quads[last].2, x, seed.start.y as int));
    }
    assert forall|x: int, y: int|
        0 <= x < CHUNK_WIDTH && 0 <= y < CHUNK_WIDTH && bits[y * CHUNK_WIDTH + x] && !pre_bits[y
        * CHUNK_WIDTH + x] implies covered_by_new(quads, base, x, y) by {
        let i = y * CHUNK_WIDTH + x;
        assert(grown_covers(seed, quads.last().2.end_excl.y as int, i));
        let yy = choose|yy: int|
            seed.start.y + 1 <= yy < quads.last().2.end_excl.y && #[trigger] row_span(
                yy,
                seed.start.x as int,
                seed.end_excl.x as int,
                i,
            );
        assert(yy == y);
        assert(quad_covers(quads[last].2, x, y));
    }
}

/// Whether a quad tagged with the given slice covers a slice position.
#[verifier::opaque]
pub open spec fn covered_tagged(
    quads: Seq<(SliceDirection, u32, Quad)>,
    sd: SliceDirection,
    depth: int,
    x: int,
    y: int,
) -> bool {
    exists|e: int|
        0 <= e < quads.len() && (#[trigger] quads[e]).0 == sd && quads[e].1 == depth
            && quad_covers(quads[e].2, x, y)
}

/// No face anywhere in the slice is visible.
pub open spec fn slice_fully_occluded(
    c: Seq<Voxel>,
    sd: SliceDirection,
    depth: int,
    prev: Seq<bool>,
) -> bool {
    forall|x: int, y: int|
        0 <= x < CHUNK_WIDTH && 0 <= y < CHUNK_WIDTH ==> !face_visible(c, sd, depth, prev, x, y)
}

/// The in-progress mesh: vertex positions on the chunk lattice, packed
/// attribute words with atlas indices, and the triangle index list. The
/// quads it was built from are carried as ghost data for specification.
pub struct TmpChunkMesh {
    pub verts: Vec<UVec3>,
    pub hacks: Vec<UVec2>,
    pub inds: Vec<u32>,
    pub quads: Ghost<Seq<(SliceDirection, u32, Quad)>>,
}

impl TmpChunkMesh {
    /// Four vertices, four attribute words and six indices per quad.
    pub open spec fn wf(self) -> bool {
        &&& self.verts@.len() == 4 * self.quads@.len()
        &&& self.hacks@.len() == 4 * self.quads@.len()
        &&& self.inds@.len() == 6 * self.quads@.len()
    }

    pub fn new() -> (r: Self)
        ensures
            r.wf(),
            r.quads@ == Seq::<(SliceDirection, u32, Quad)>::empty(),
    {
        TmpChunkMesh { verts: Vec::new(), hacks: Vec::new(), inds: Vec::new(), quads: Ghost(Seq::empty()) }
    }

    /// Appends one quad's four corner vertices with their attribute
    /// words, and the six indices of its two counter-clockwise triangles.
    pub fn add_quad(&mut self, slice_dir: SliceDirection, slice_depth: u32, quad: Quad)
        requires
            old(self).wf(),
            old(self).quads@.len() < QUAD_LIMIT,
            slice_dir.wf(),
            slice_depth < CHUNK_WIDTH,
            quad_wf(quad),
        ensures
            final(self).wf(),
            final(self).quads@ == old(self).quads@.push((slice_dir, slice_depth, quad)),
            ({
                let b = old(self).verts@.len() as int;
                let w = quad.end_excl.x - quad.start.x;
                let h = quad.end_excl.y - quad.start.y;
                &&& corner_output(
                    slice_dir,
                    slice_depth as int,
                    quad.start.x as int,
                    quad.start.y as int,
                    0,
                    h,
                    (final(self).verts@[b], final(self).hacks@[b].x),
                )
                &&& corner_output(
                    slice_dir,
                    slice_depth as int,
                    quad.end_excl.x as int,
                    quad.end_excl.y as int,
                    w,
                    0,
                    (final(self).verts@[b + 1], final(self).hacks@[b + 1].x),
                )
                &&& corner_output(
                    slice_dir,
                    slice_depth as int,
                    quad.end_excl.x as int,
                    quad.start.y as int,
                    w,
                    h,
                    (final(self).verts@[b + 2], final(self).hacks@[b + 2].x),
                )
                &&& corner_output(
                    slice_dir,
                    slice_depth as int,
                    quad.start.x as int,
                    quad.end_excl.y as int,
                    0,
                    0,
                    (final(self).verts@[b + 3], final(self).hacks@[b + 3].x),
                )
                &&& forall|j: int|
                    b <= j < b + 4 ==> (#[trigger] final(self).hacks@[j]).y
                        == quad.voxel.atlas_index_spec()
                &&& final(self).verts@.take(b) == old(self).verts@
                &&& final(self).hacks@.take(b) == old(self).hacks@
                &&& final(self).inds@ == old(self).inds@ + seq![
                    b as u32,
                    (b + 1) as u32,
                    (b + 3) as u32,
                    b as u32,
                    (b + 2) as u32,
                    (b + 1) as u32,
                ]
            }),
    {
        let start_ind = self.hacks.len() as u32;
        let ghost b = old(self).verts@.len() as int;

        let verts_hacks = build_hack_verts(slice_dir, slice_depth, quad);
        let atlas = quad.voxel.atlas_index();

        let mut vi: usize = 0;
        while vi < 4
            invariant
                vi <= 4,
                verts_hacks@.len() == 4,
                b == old(self).verts@.len() as int,
                old(self).wf(),
                atlas == quad.voxel.atlas_index_spec(),
                self.verts@.len() == old(self).verts@.len() + vi,
                self.hacks@.len() == old(self).hacks@.len() + vi,
                self.verts@.take(b) == old(self).verts@,
                self.hacks@.take(b) == old(self).hacks@,
                forall|j: int|
                    0 <= j < vi ==> self.verts@[b + j] == (#[trigger] verts_hacks@[j]).0
                        && self.hacks@[b + j].x == verts_hacks@[j].1 && self.hacks@[b + j].y
                        == quad.voxel.atlas_index_spec(),
                self.inds@ == old(self).inds@,
                self.quads@ == old(self).quads@,
            decreases 4 - vi,
        {
            let (v, hack) = verts_hacks[vi];
            let ghost pre_verts = self.verts@;
            let ghost pre_hacks = self.hacks@;
            self.verts.push(v);
            self.hacks.push(UVec2 { x: hack, y: atlas });
            proof {
                assert(self.verts@.take(b) =~= pre_verts.take(b));
                assert(self.hacks@.take(b) =~= pre_hacks.take(b));
            }
            vi += 1;
        }

        self.inds.push(start_ind);
        self.inds.push(start_ind + 1);
        self.inds.push(start_ind + 3);
        self.inds.push(start_ind);
        self.inds.push(start_ind + 2);
        self.inds.push(start_ind + 1);

        proof {
            self.quads@ = self.quads@.push((slice_dir, slice_depth, quad));
            assert(self.inds@ =~= old(self).inds@ + seq![
                b as u32,
                (b + 1) as u32,
                (b + 3) as u32,
                b as u32,
                (b + 2) as u32,
                (b + 1) as u32,
            ]);
        }
    }

    /// Finishes the mesh: geometry if any quad was emitted, `None` when
    /// the mesh is empty.
    pub fn build(self) -> (r: Option<ChunkMeshData>)
        requires
            self.wf(),
        ensures
            r matches Some(m) ==> m.wf() && m.quads@ == self.quads@ && self.quads@.len() > 0,
            r is None <==> self.quads@.len() == 0,
    {
        if self.inds.len() == 0 {
            None
        } else {
            Some(ChunkMeshData { verts: self.verts, hacks: self.hacks, inds: self.inds, quads: self.quads })
        }
    }
}

/// A finished chunk mesh, handed to the rendering and physics
/// collaborators: never empty.
pub struct ChunkMeshData {
    pub verts: Vec<UVec3>,
    pub hacks: Vec<UVec2>,
    pub inds: Vec<u32>,
    pub quads: Ghost<Seq<(SliceDirection, u32, Quad)>>,
}

impl ChunkMeshData {
    pub open spec fn wf(self) -> bool {
        &&& self.verts@.len() == 4 * self.quads@.len()
        &&& self.hacks@.len() == 4 * self.quads@.len()
        &&& self.inds@.len() == 6 * self.quads@.len()
        &&& self.quads@.len() > 0
    }
}

/// What a corner coordinate of a quad contributes along a right/up axis:
/// negative axes mirror across the chunk.
pub open spec fn corner_comp(a: crate::axis::VoxelAxis, t: int, d: int) -> int {
    if a.dim() == d {
        if a.sign() == 1 {
            t
        } else {
            CHUNK_WIDTH - t
        }
    } else {
        0
    }
}

/// What the slice depth contributes along the normal axis: faces sit on
/// the far side of their voxel along a positive normal.
pub open spec fn normal_comp(a: crate::axis::VoxelAxis, t: int, d: int) -> int {
    if a.dim() == d {
        if a.sign() == 1 {
            t + 1
        } else {
            CHUNK_WIDTH - 1 - t
        }
    } else {
        0
    }
}

/// The lattice position of one quad corner.
pub open spec fn vert_comp(sd: SliceDirection, depth: int, cx: int, cy: int, d: int) -> int {
    corner_comp(sd.right, cx, d) + corner_comp(sd.up, cy, d) + normal_comp(sd.normal, depth, d)
}

/// The packed attribute word of one vertex: position, negative-normal
/// flag, one-hot normal dimension, and the tiling texture coordinate.
pub open spec fn hack_spec(px: u32, py: u32, pz: u32, neg: bool, nbits: u32, ux: u32, uy: u32) -> u32 {
    (px << 26) | (py << 20) | (pz << 14) | (if neg {
        1u32 << 13
    } else {
        0u32
    }) | (nbits << 10) | (ux << 5) | uy
}

/// The one-hot encoding of the normal's dimension.
pub open spec fn normal_one_hot(a: crate::axis::VoxelAxis) -> u32 {
    if a.dim() == 0 {
        4
    } else if a.dim() == 1 {
        2
    } else {
        1
    }
}

/// One output corner of a quad: its lattice position and its packed
/// attribute word, for corner coordinates `(cx, cy)` and tiling texture
/// coordinates `(ux, uy)`.
pub open spec fn corner_output(
    sd: SliceDirection,
    depth: int,
    cx: int,
    cy: int,
    ux: int,
    uy: int,
    out: (UVec3, u32),
) -> bool {
    &&& out.0.x == vert_comp(sd, depth, cx, cy, 0)
    &&& out.0.y == vert_comp(sd, depth, cx, cy, 1)
    &&& out.0.z == vert_comp(sd, depth, cx, cy, 2)
    &&& out.1 == hack_spec(
        out.0.x,
        out.0.y,
        out.0.z,
        sd.normal.sign() == -1,
        normal_one_hot(sd.normal),
        ux as u32,
        uy as u32,
    )
}

/// The lattice contribution of one right/up axis for a corner coordinate.
fn corner_contrib(a: crate::axis::VoxelAxis, t: u32) -> (r: UVec3)
    requires
        t <= CHUNK_WIDTH,
    ensures
        r.x == corner_comp(a, t as int, 0),
        r.y == corner_comp(a, t as int, 1),
        r.z == corner_comp(a, t as int, 2),
{
    let v = t;
    let m = CHUNK_WIDTH - t;
    match a {
        crate::axis::VoxelAxis::PosX => UVec3 { x: v, y: 0, z: 0 },
        crate::axis::VoxelAxis::NegX => UVec3 { x: m, y: 0, z: 0 },
        crate::axis::VoxelAxis::PosY => UVec3 { x: 0, y: v, z: 0 },
        crate::axis::VoxelAxis::NegY => UVec3 { x: 0, y: m, z: 0 },
        crate::axis::VoxelAxis::PosZ => UVec3 { x: 0, y: 0, z: v },
        crate::axis::VoxelAxis::NegZ => UVec3 { x: 0, y: 0, z: m },
    }
}

/// The lattice contribution of the normal axis for the slice depth.
fn normal_contrib(a: crate::axis::VoxelAxis, t: u32) -> (r: UVec3)
    requires
        t < CHUNK_WIDTH,
    ensures
        r.x == normal_comp(a, t as int, 0),
        r.y == normal_comp(a, t as int, 1),
        r.z == normal_comp(a, t as int, 2),
{
    let v = t + 1;
    let m = CHUNK_WIDTH - 1 - t;
    match a {
        crate::axis::VoxelAxis::PosX => UVec3 { x: v, y: 0, z: 0 },
        crate::axis::VoxelAxis::NegX => UVec3 { x: m, y: 0, z: 0 },
        crate::axis::VoxelAxis::PosY => UVec3 { x: 0, y: v, z: 0 },
        crate::axis::VoxelAxis::NegY => UVec3 { x: 0, y: m, z: 0 },
        crate::axis::VoxelAxis::PosZ => UVec3 { x: 0, y: 0, z: v },
        crate::axis::VoxelAxis::NegZ => UVec3 { x: 0, y: 0, z: m },
    }
}

/// The lattice position of one quad corner; see `vert_comp`.
fn corner_vert(sd: SliceDirection, depth: u32, cx: u32, cy: u32) -> (r: UVec3)
    requires
        sd.wf(),
        depth < CHUNK_WIDTH,
        cx <= CHUNK_WIDTH,
        cy <= CHUNK_WIDTH,
    ensures
        r.x == vert_comp(sd, depth as int, cx as int, cy as int, 0),
        r.y == vert_comp(sd, depth as int, cx as int, cy as int, 1),
        r.z == vert_comp(sd, depth as int, cx as int, cy as int, 2),
        r.x <= CHUNK_WIDTH && r.y <= CHUNK_WIDTH && r.z <= CHUNK_WIDTH,
    {
    let rc = corner_contrib(sd.right, cx);
    let uc = corner_contrib(sd.up, cy);
    let nc = normal_contrib(sd.normal, depth);
    UVec3 { x: rc.x + uc.x + nc.x, y: rc.y + uc.y + nc.y, z: rc.z + uc.z + nc.z }
}

/// Builds the four corner vertices of a quad with their packed attribute
/// words, counter-clockwise as seen from outside the face.
pub fn build_hack_verts(slice_dir: SliceDirection, slice_depth: u32, quad: Quad) -> (r: Vec<
    (UVec3, u32),
>)
    requires
        slice_dir.wf(),
        slice_depth < CHUNK_WIDTH,
        quad_wf(quad),
    ensures
        r@.len() == 4,
        corner_output(
            slice_dir,
            slice_depth as int,
            quad.start.x as int,
            quad.start.y as int,
            0,
            quad.end_excl.y - quad.start.y,
            r@[0],
        ),
        corner_output(
            slice_dir,
            slice_depth as int,
            quad.end_excl.x as int,
            quad.end_excl.y as int,
            quad.end_excl.x - quad.start.x,
            0,
            r@[1],
        ),
        corner_output(
            slice_dir,
            slice_depth as int,
            quad.end_excl.x as int,
            quad.start.y as int,
            quad.end_excl.x - quad.start.x,
            quad.end_excl.y - quad.start.y,
            r@[2],
        ),
        corner_output(
            slice_dir,
            slice_depth as int,
            quad.start.x as int,
            quad.end_excl.y as int,
            0,
            0,
            r@[3],
        ),
{
    let Quad { start, end_excl: end, voxel: _ } = quad;

    let size = UVec2 { x: end.x - start.x, y: end.y - start.y };
    let high_left_uv = UVec2 { x: 0, y: 0 };
    let low_right_uv = size;
    let end_uv = UVec2 { x: low_right_uv.x, y: high_left_uv.y };
    let start_uv = UVec2 { x: high_left_uv.x, y: low_right_uv.y };

    let normal_neg = !slice_dir.normal.is_positive();
    let normal_bits: u32 = match slice_dir.normal {
        crate::axis::VoxelAxis::PosX | crate::axis::VoxelAxis::NegX => 4,
        crate::axis::VoxelAxis::PosY | crate::axis::VoxelAxis::NegY => 2,
        crate::axis::VoxelAxis::PosZ | crate::axis::VoxelAxis::NegZ => 1,
    };

    let mut out: Vec<(UVec3, u32)> = Vec::new();
    let v0 = corner_vert(slice_dir, slice_depth, start.x, start.y);
    out.push((v0, pack_hack(v0, normal_neg, normal_bits, start_uv.x, start_uv.y)));
    let v1 = corner_vert(slice_dir, slice_depth, end.x, end.y);
    out.push((v1, pack_hack(v1, normal_neg, normal_bits, end_uv.x, end_uv.y)));
    let v2 = corner_vert(slice_dir, slice_depth, end.x, start.y);
    out.push((v2, pack_hack(v2, normal_neg, normal_bits, low_right_uv.x, low_right_uv.y)));
    let v3 = corner_vert(slice_dir, slice_depth, start.x, end.y);
    out.push((v3, pack_hack(v3, normal_neg, normal_bits, high_left_uv.x, high_left_uv.y)));
    out
}

/// Packs one vertex's attribute word; see `hack_spec`.
fn pack_hack(pos: UVec3, neg: bool, nbits: u32, ux: u32, uy: u32) -> (r: u32)
    ensures
        r == hack_spec(pos.x, pos.y, pos.z, neg, nbits, ux, uy),
{
    (pos.x << 26u32) | (pos.y << 20u32) | (pos.z << 14u32) | (if neg {
        1u32 << 13u32
    } else {
        0u32
    }) | (nbits << 10u32) | (ux << 5u32) | uy
}

/// Grows a row-quad downward through following rows while every position
/// it would cover matches its voxel and is unoccluded, and marks the
/// covered positions; the result is the maximal grown quad.
#[verifier::rlimit(100)]
#[verifier::spinoff_prover]
fn grow_quad(
    slice_direction: SliceDirection,
    slice_depth: u32,
    quad: Quad,
    voxels: &VoxelContainer,
    slice_bits: &mut BitBuf,
    previous_slice_bits: &BitBuf,
) -> (g: Quad)
    requires
        voxels.wf(),
        slice_direction.wf(),
        slice_depth < CHUNK_WIDTH,
        quad_wf(quad),
        quad.end_excl.y == quad.start.y + 1,
        bit_seq(*old(slice_bits)).len() == CHUNK_SQUARE,
        bit_seq(*previous_slice_bits).len() == CHUNK_SQUARE,
    ensures
        quad_wf(g),
        g.start == quad.start,
        g.end_excl.x == quad.end_excl.x,
        g.voxel == quad.voxel,
        quad.end_excl.y <= g.end_excl.y <= CHUNK_WIDTH,
        bit_seq(*final(slice_bits)).len() == CHUNK_SQUARE,
        forall|yy: int|
            quad.start.y + 1 <= yy < g.end_excl.y ==> row_matches(
                voxels@,
                slice_direction,
                slice_depth as int,
                quad,
                yy,
                bit_seq(*old(slice_bits)),
                bit_seq(*previous_slice_bits),
            ),
        g.end_excl.y < CHUNK_WIDTH ==> !row_matches(
            voxels@,
            slice_direction,
            slice_depth as int,
            quad,
            g.end_excl.y as int,
            bit_seq(*old(slice_bits)),
            bit_seq(*previous_slice_bits),
        ),
        forall|i: int|
            0 <= i < CHUNK_SQUARE ==> bit_seq(*final(slice_bits))[i] == (bit_seq(
                *old(slice_bits),
            )[i] || grown_covers(quad, g.end_excl.y as int, i)),
{
    let ghost c = voxels@;
    let ghost sd = slice_direction;
    let ghost dep = slice_depth as int;
    let ghost bits0 = bit_seq(*slice_bits);
    let ghost prev = bit_seq(*previous_slice_bits);
    let mut cur = quad;
    let mut y_check = cur.start.y + 1;
    let mut growing = true;
    proof {
        assert(bits_delta(bit_seq(*slice_bits), bits0, quad, y_check as int)) by {
            reveal(bits_delta);
            assert forall|i: int|
                0 <= i < CHUNK_SQUARE implies bit_seq(*slice_bits)[i] == (bits0[i]
                    || grown_covers(quad, y_check as int, i)) by {
                if grown_covers(quad, y_check as int, i) {
                    let yy = choose|yy: int|
                        quad.start.y + 1 <= yy < y_check && #[trigger] row_span(
                            yy,
                            quad.start.x as int,
                            quad.end_excl.x as int,
                            i,
                        );
                    assert(false);
                }
            }
        }
    }
    while growing && y_check < CHUNK_WIDTH
        invariant
            voxels.wf(),
            slice_direction.wf(),
            slice_depth < CHUNK_WIDTH,
            quad_wf(cur),
            cur.end_excl.y == y_check,
            y_check <= CHUNK_WIDTH,
            bit_seq(*slice_bits).len() == CHUNK_SQUARE,
            bit_seq(*previous_slice_bits).len() == CHUNK_SQUARE,
            c == voxels@,
            sd == slice_direction,
            dep == slice_depth as int,
            prev == bit_seq(*previous_slice_bits),
            bits0.len() == CHUNK_SQUARE,
            cur.start == quad.start,
            cur.end_excl.x == quad.end_excl.x,
            cur.voxel == quad.voxel,
            quad.start.y + 1 <= y_check,
            forall|yy: int|
                quad.start.y + 1 <= yy < y_check ==> row_matches(c, sd, dep, quad, yy, bits0, prev),
            bits_delta(bit_seq(*slice_bits), bits0, quad, y_check as int),
            !growing ==> !row_matches(c, sd, dep, quad, y_check as int, bits0, prev),
        decreases CHUNK_WIDTH - y_check + (if growing {
            1int
        } else {
            0int
        }),
    {
        let ghost bits_at = bit_seq(*slice_bits);
        if row_all_match(
            voxels,
            slice_direction,
            slice_depth,
            cur,
            y_check,
            slice_bits,
            previous_slice_bits,
        ) {
            proof {
                assert(row_matches(c, sd, dep, quad, y_check as int, bits0, prev)) by {
                    assert forall|x: int|
                        quad.start.x <= x < quad.end_excl.x implies (#[trigger] c[
                    cell_index_spec(sd, dep, x, y_check as int)]) == quad.voxel && !bits0[
                    y_check * CHUNK_WIDTH + x] && !prev[y_check * CHUNK_WIDTH + x] by {
                        let ii = y_check * CHUNK_WIDTH + x;
                        assert(c[cell_index_spec(sd, dep, x, y_check as int)] == cur.voxel
                            && !bits_at[ii] && !prev[ii]);
                        assert(bits_at[ii] == (bits0[ii] || grown_covers(
                            quad,
                            y_check as int,
                            ii,
                        ))) by {
                            reveal(bits_delta);
                        }
                    }
                }
                assert forall|i: int|
                    0 <= i < CHUNK_SQUARE implies bit_seq(*slice_bits)[i] == (bits0[i]
                        || grown_covers(quad, y_check as int, i) || row_span(
                    y_check as int,
                    quad.start.x as int,
                    cur.start.x as int,
                    i,
                )) by {
                    reveal(bits_delta);
                }
            }
            let mut x_check = cur.start.x;
            while x_check < cur.end_excl.x
                invariant
                    quad_wf(cur),
                    y_check < CHUNK_WIDTH,
                    cur.start.x <= x_check <= cur.end_excl.x,
                    bit_seq(*slice_bits).len() == CHUNK_SQUARE,
                    bits0.len() == CHUNK_SQUARE,
                    cur.start == quad.start,
                    cur.end_excl.x == quad.end_excl.x,
                    forall|i: int|
                        0 <= i < CHUNK_SQUARE ==> bit_seq(*slice_bits)[i] == (bits0[i]
                            || grown_covers(quad, y_check as int, i) || row_span(
                            y_check as int,
                            quad.start.x as int,
                            x_check as int,
                            i,
                        )),
                decreases cur.end_excl.x - x_check,
            {
                let slice_index = y_check * CHUNK_WIDTH + x_check;
                let ghost pre_bits = bit_seq(*slice_bits);
                bits_set(slice_bits, slice_index as usize, true);
                proof {
                    assert forall|i: int|
                        0 <= i < CHUNK_SQUARE implies bit_seq(*slice_bits)[i] == (bits0[i]
                            || grown_covers(quad, y_check as int, i) || row_span(
                        y_check as int,
                        quad.start.x as int,
                        x_check + 1,
                        i,
                    )) by {
                        if i != slice_index {
                            assert(bit_seq(*slice_bits)[i] == pre_bits[i]);
                            assert(row_span(
                                y_check as int,
                                quad.start.x as int,
                                x_check + 1,
                                i,
                            ) == row_span(
                                y_check as int,
                                quad.start.x as int,
                                x_check as int,
                                i,
                            ));
                        } else {
                            assert(row_span(
                                y_check as int,
                                quad.start.x as int,
                                x_check + 1,
                                i,
                            ));
                        }
                    }
                }
                x_check += 1;
            }
            proof {
                assert(bits_delta(bit_seq(*slice_bits), bits0, quad, y_check + 1)) by {
                reveal(bits_delta);
                assert forall|i: int|
                    0 <= i < CHUNK_SQUARE implies bit_seq(*slice_bits)[i] == (bits0[i]
                        || grown_covers(quad, y_check + 1, i)) by {
                    assert(x_check as int == quad.end_excl.x as int);
                    assert(bit_seq(*slice_bits)[i] == (bits0[i] || grown_covers(
                        quad,
                        y_check as int,
                        i,
                    ) || row_span(
                        y_check as int,
                        quad.start.x as int,
                        x_check as int,
                        i,
                    )));
                    assert(row_span(y_check as int, quad.start.x as int, x_check as int, i)
                        == row_span(
                        y_check as int,
                        quad.start.x as int,
                        quad.end_excl.x as int,
                        i,
                    ));
                    if grown_covers(quad, y_check as int, i) {
                        let yy = choose|yy: int|
                            quad.start.y + 1 <= yy < y_check && #[trigger] row_span(
                                yy,
                                quad.start.x as int,
                                quad.end_excl.x as int,
                                i,
                            );
                        assert(row_span(yy, quad.start.x as int, quad.end_excl.x as int, i));
                        assert(grown_covers(quad, y_check + 1, i));
                    }
                    if row_span(y_check as int, quad.start.x as int, quad.end_excl.x as int, i) {
                        assert(grown_covers(quad, y_check + 1, i));
                    }
                    if grown_covers(quad, y_check + 1, i) {
                        let yy = choose|yy: int|
                            quad.start.y + 1 <= yy < y_check + 1 && #[trigger] row_span(
                                yy,
                                quad.start.x as int,
                                quad.end_excl.x as int,
                                i,
                            );
                        if yy < y_check {
                            assert(grown_covers(quad, y_check as int, i));
                        } else {
                            assert(row_span(
                                y_check as int,
                                quad.start.x as int,
                                quad.end_excl.x as int,
                                i,
                            ));
                        }
                    }
                }
                }
            }
            let ghost y_prev = y_check;
            cur.end_excl.y += 1;
            y_check += 1;
            proof {
                assert(y_check as int == y_prev + 1);
                assert(bits_delta(bit_seq(*slice_bits), bits0, quad, y_check as int));
            }
        } else {
            proof {
                assert(!row_matches(c, sd, dep, quad, y_check as int, bits0, prev)) by {
                    if row_matches(c, sd, dep, quad, y_check as int, bits0, prev) {
                        assert forall|x: int|
                            cur.start.x <= x < cur.end_excl.x implies (#[trigger] c[
                        cell_index_spec(sd, dep, x, y_check as int)]) == cur.voxel && !bits_at[
                        y_check * CHUNK_WIDTH + x] && !prev[y_check * CHUNK_WIDTH + x] by {
                            let ii = y_check * CHUNK_WIDTH + x;
                            assert(c[cell_index_spec(sd, dep, x, y_check as int)]
                                == quad.voxel && !bits0[ii] && !prev[ii]);
                            assert(bits_at[ii] == (bits0[ii] || grown_covers(
                                quad,
                                y_check as int,
                                ii,
                            ))) by {
                                reveal(bits_delta);
                            }
                            if grown_covers(quad, y_check as int, ii) {
                                let yy = choose|yy: int|
                                    quad.start.y + 1 <= yy < y_check && #[trigger] row_span(
                                        yy,
                                        quad.start.x as int,
                                        quad.end_excl.x as int,
                                        ii,
                                    );
                                assert(false);
                            }
                        }
                        assert(row_matches(c, sd, dep, cur, y_check as int, bits_at, prev));
                        assert(false);
                    }
                }
            }
            growing = false;
        }
    }
    proof {
        assert forall|i: int|
            0 <= i < CHUNK_SQUARE implies bit_seq(*slice_bits)[i] == (bits0[i] || grown_covers(
            quad,
            cur.end_excl.y as int,
            i,
        )) by {
            reveal(bits_delta);
        }
    }
    cur
}

/// Grows a row-quad downward through following rows while every position
/// it would cover matches its voxel and is unoccluded, marks the covered
/// positions, and appends the final quad to the mesh.
fn emit_quad(
    slice_direction: SliceDirection,
    slice_depth: u32,
    quad: Quad,
    voxels: &VoxelContainer,
    slice_bits: &mut BitBuf,
    previous_slice_bits: &BitBuf,
    mesh: &mut TmpChunkMesh,
)
    requires
        voxels.wf(),
        slice_direction.wf(),
        slice_depth < CHUNK_WIDTH,
        quad_wf(quad),
        quad.end_excl.y == quad.start.y + 1,
        bit_seq(*old(slice_bits)).len() == CHUNK_SQUARE,
        bit_seq(*previous_slice_bits).len() == CHUNK_SQUARE,
        old(mesh).wf(),
        old(mesh).quads@.len() < QUAD_LIMIT,
    ensures
        final(mesh).wf(),
        final(mesh).quads@.len() == old(mesh).quads@.len() + 1,
        final(mesh).quads@ == old(mesh).quads@.push(final(mesh).quads@.last()),
        bit_seq(*final(slice_bits)).len() == CHUNK_SQUARE,
        ({
            let g = final(mesh).quads@.last();
            &&& g.0 == slice_direction
            &&& g.1 == slice_depth
            &&& g.2.start == quad.start
            &&& g.2.end_excl.x == quad.end_excl.x
            &&& g.2.voxel == quad.voxel
            &&& quad.end_excl.y <= g.2.end_excl.y <= CHUNK_WIDTH
            &&& forall|yy: int|
                quad.start.y + 1 <= yy < g.2.end_excl.y ==> row_matches(
                    voxels@,
                    slice_direction,
                    slice_depth as int,
                    quad,
                    yy,
                    bit_seq(*old(slice_bits)),
                    bit_seq(*previous_slice_bits),
                )
            &&& (g.2.end_excl.y < CHUNK_WIDTH ==> !row_matches(
                voxels@,
                slice_direction,
                slice_depth as int,
                quad,
                g.2.end_excl.y as int,
                bit_seq(*old(slice_bits)),
                bit_seq(*previous_slice_bits),
            ))
            &&& forall|i: int|
                0 <= i < CHUNK_SQUARE ==> bit_seq(*final(slice_bits))[i] == (bit_seq(
                    *old(slice_bits),
                )[i] || grown_covers(quad, g.2.end_excl.y as int, i))
        }),
{
    let g = grow_quad(
        slice_direction,
        slice_depth,
        quad,
        voxels,
        slice_bits,
        previous_slice_bits,
    );
    mesh.add_quad(slice_direction, slice_depth, g);
}

/// Whether a whole row below a quad matches the quad's voxel and is
/// neither already covered nor occluded.
fn row_all_match(
    voxels: &VoxelContainer,
    slice_direction: SliceDirection,
    slice_depth: u32,
    quad: Quad,
    y_check: u32,
    slice_bits: &BitBuf,
    previous_slice_bits: &BitBuf,
) -> (r: bool)
    requires
        voxels.wf(),
        slice_direction.wf(),
        slice_depth < CHUNK_WIDTH,
        quad_wf(quad),
        y_check < CHUNK_WIDTH,
        bit_seq(*slice_bits).len() == CHUNK_SQUARE,
        bit_seq(*previous_slice_bits).len() == CHUNK_SQUARE,
    ensures
        r == row_matches(
            voxels@,
            slice_direction,
            slice_depth as int,
            quad,
            y_check as int,
            bit_seq(*slice_bits),
            bit_seq(*previous_slice_bits),
        ),
{
    let ghost c = voxels@;
    let ghost sd = slice_direction;
    let ghost dep = slice_depth as int;
    let ghost bits = bit_seq(*slice_bits);
    let ghost prev = bit_seq(*previous_slice_bits);
    let mut x_check = quad.start.x;
    while x_check < quad.end_excl.x
        invariant
            voxels.wf(),
            slice_direction.wf(),
            slice_depth < CHUNK_WIDTH,
            quad_wf(quad),
            y_check < CHUNK_WIDTH,
            quad.start.x <= x_check <= quad.end_excl.x,
            bit_seq(*slice_bits).len() == CHUNK_SQUARE,
            bit_seq(*previous_slice_bits).len() == CHUNK_SQUARE,
            c == voxels@,
            sd == slice_direction,
            dep == slice_depth as int,
            bits == bit_seq(*slice_bits),
            prev == bit_seq(*previous_slice_bits),
            forall|x: int|
                quad.start.x <= x < x_check ==> (#[trigger] c[cell_index_spec(
                    sd,
                    dep,
                    x,
                    y_check as int,
                )]) == quad.voxel && !bits[y_check * CHUNK_WIDTH + x] && !prev[y_check
                * CHUNK_WIDTH + x],
        decreases quad.end_excl.x - x_check,
    {
        let slice_index = y_check * CHUNK_WIDTH + x_check;
        let pos = slice_cell(slice_direction, slice_depth, x_check, y_check);
        if voxels.at(pos) != quad.voxel || bits_get(slice_bits, slice_index as usize) || bits_get(
            previous_slice_bits,
            slice_index as usize,
        ) {
            proof {
                assert(!(c[cell_index_spec(sd, dep, x_check as int, y_check as int)]
                    == quad.voxel && !bits[y_check * CHUNK_WIDTH + x_check] && !prev[y_check
                    * CHUNK_WIDTH + x_check]));
                assert(!row_matches(c, sd, dep, quad, y_check as int, bits, prev));
            }
            return false;
        }
        x_check += 1;
    }
    true
}

/// The in-chunk position a slice position maps to.
fn slice_cell(sd: SliceDirection, depth: u32, x: u32, y: u32) -> (r: InChunkPos)
    requires
        sd.wf(),
        depth < CHUNK_WIDTH,
        x < CHUNK_WIDTH,
        y < CHUNK_WIDTH,
    ensures
        r.wf(),
        r.index_spec() == cell_index_spec(sd, depth as int, x as int, y as int),
{
    proof {
        sd.lemma_cell_in_bounds(depth as int, x as int, y as int);
    }
    let cell = match sd.transform(depth, UVec2 { x, y }) {
        Some(cell) => cell,
        None => {
            proof {
                assert(false);
            }
            UVec3 { x: 0, y: 0, z: 0 }
        },
    };
    match InChunkPos::new(cell) {
        Some(pos) => pos,
        None => {
            proof {
                assert(false);
            }
            InChunkPos(UVec3 { x: 0, y: 0, z: 0 })
        },
    }
}

/// Meshes one slice: scans rows left to right, growing a current quad
/// rightward over same-kind unoccluded faces, emitting it (with downward
/// greedy growth) whenever the run breaks.
///
/// A fully occluded slice adds nothing; a slice with a visible face adds
/// at least one quad.
#[verifier::rlimit(100)]
#[verifier::spinoff_prover]
pub fn mesh_slice(
    chunk: &Chunk,
    slice_direction: SliceDirection,
    slice_depth: u32,
    mesh: &mut TmpChunkMesh,
    previous_slice_bits: &BitBuf,
)
    requires
        chunk.wf(),
        slice_direction.wf(),
        slice_depth < CHUNK_WIDTH,
        bit_seq(*previous_slice_bits).len() == CHUNK_SQUARE,
        old(mesh).wf(),
        old(mesh).quads@.len() + 1024 <= QUAD_LIMIT,
    ensures
        final(mesh).wf(),
        old(mesh).quads@.len() <= final(mesh).quads@.len() <= old(mesh).quads@.len() + 1024,
        slice_fully_occluded(
            chunk.voxels@,
            slice_direction,
            slice_depth as int,
            bit_seq(*previous_slice_bits),
        ) ==> final(mesh).quads@ == old(mesh).quads@,
        !slice_fully_occluded(
            chunk.voxels@,
            slice_direction,
            slice_depth as int,
            bit_seq(*previous_slice_bits),
        ) ==> final(mesh).quads@.len() > old(mesh).quads@.len(),
        forall|e: int|
            0 <= e < old(mesh).quads@.len() ==> #[trigger] final(mesh).quads@[e] == old(mesh).quads@[e],
        forall|e: int|
            old(mesh).quads@.len() <= e < final(mesh).quads@.len() ==> ((
            #[trigger] final(mesh).quads@[e]).0 == slice_direction && final(mesh).quads@[e].1
                == slice_depth && final(mesh).quads@[e].2.voxel != Voxel::Air && quad_wf(
                final(mesh).quads@[e].2,
            ) && quad_faces_visible(
                chunk.voxels@,
                slice_direction,
                slice_depth as int,
                bit_seq(*previous_slice_bits),
                final(mesh).quads@[e].2,
            )),
        // every visible face of the slice is covered by a quad this call
        // added
        forall|x: int, y: int|
            0 <= x < CHUNK_WIDTH && 0 <= y < CHUNK_WIDTH && face_visible(
                chunk.voxels@,
                slice_direction,
                slice_depth as int,
                bit_seq(*previous_slice_bits),
                x,
                y,
            ) ==> covered_by_new(final(mesh).quads@, old(mesh).quads@.len() as int, x, y),
    {
    let ghost c = chunk.voxels@;
    let ghost sd = slice_direction;
    let ghost dep = slice_depth as int;
    let ghost prev = bit_seq(*previous_slice_bits);
    let ghost base = old(mesh).quads@;

    let mut slice_bits = bits_repeat(false, CHUNK_SQUARE as usize);
    let mut y: u32 = 0;
    while y < CHUNK_WIDTH
        invariant
            chunk.wf(),
            slice_direction.wf(),
            slice_depth < CHUNK_WIDTH,
            c == chunk.voxels@,
            sd == slice_direction,
            dep == slice_depth as int,
            prev == bit_seq(*previous_slice_bits),
            prev.len() == CHUNK_SQUARE,
            y <= CHUNK_WIDTH,
            bit_seq(slice_bits).len() == CHUNK_SQUARE,
            mesh.wf(),
            base.len() <= mesh.quads@.len() <= base.len() + y * 32,
            mesh.quads@.len() + 1024 - y * 32 <= QUAD_LIMIT,
            forall|e: int| 0 <= e < base.len() ==> #[trigger] mesh.quads@[e] == base[e],
            forall|e: int|
                base.len() <= e < mesh.quads@.len() ==> ((#[trigger] mesh.quads@[e]).0
                    == slice_direction && mesh.quads@[e].1 == slice_depth && mesh.quads@[
                e].2.voxel != Voxel::Air && quad_wf(mesh.quads@[e].2) && quad_faces_visible(
                    c,
                    sd,
                    dep,
                    prev,
                    mesh.quads@[e].2,
                )),
            // a fully occluded slice leaves the mesh untouched
            slice_fully_occluded(c, sd, dep, prev) ==> mesh.quads@ == base,
            // a visible face in a finished row has produced a quad
            (exists|x0: int, y0: int|
                0 <= x0 < CHUNK_WIDTH && 0 <= y0 < y && face_visible(c, sd, dep, prev, x0, y0))
                ==> mesh.quads@.len() > base.len(),
            // a set bit at an unoccluded, unprocessed position means a quad
            // grew there
            (exists|i: int|
                y * CHUNK_WIDTH <= i < CHUNK_SQUARE && bit_seq(slice_bits)[i] && !prev[i])
                ==> mesh.quads@.len() > base.len(),
            // visible faces of finished rows are covered
            forall|x0: int, y0: int|
                0 <= x0 < CHUNK_WIDTH && 0 <= y0 < y && face_visible(c, sd, dep, prev, x0, y0)
                    ==> covered_by_new(mesh.quads@, base.len() as int, x0, y0),
            // set bits in unfinished rows lie under an emitted quad
            forall|x0: int, y0: int|
                0 <= x0 < CHUNK_WIDTH && y <= y0 < CHUNK_WIDTH && bit_seq(slice_bits)[y0
                    * CHUNK_WIDTH + x0] ==> covered_by_new(mesh.quads@, base.len() as int, x0, y0),
        decreases CHUNK_WIDTH - y,
    {
        let slice_row_index = CHUNK_WIDTH * y;
        let mut current_quad: Option<Quad> = None;
        let mut x: u32 = 0;
        while x < CHUNK_WIDTH
            invariant
                chunk.wf(),
                slice_direction.wf(),
                slice_depth < CHUNK_WIDTH,
                c == chunk.voxels@,
                sd == slice_direction,
                dep == slice_depth as int,
                prev == bit_seq(*previous_slice_bits),
                prev.len() == CHUNK_SQUARE,
                y < CHUNK_WIDTH,
                x <= CHUNK_WIDTH,
                slice_row_index == CHUNK_WIDTH * y,
                bit_seq(slice_bits).len() == CHUNK_SQUARE,
                mesh.wf(),
                base.len() <= mesh.quads@.len() <= base.len() + y * 32 + x,
                mesh.quads@.len() + 1024 - y * 32 - x <= QUAD_LIMIT,
                forall|e: int| 0 <= e < base.len() ==> #[trigger] mesh.quads@[e] == base[e],
                forall|e: int|
                    base.len() <= e < mesh.quads@.len() ==> ((#[trigger] mesh.quads@[e]).0
                        == slice_direction && mesh.quads@[e].1 == slice_depth && mesh.quads@[
                    e].2.voxel != Voxel::Air && quad_wf(mesh.quads@[e].2) && quad_faces_visible(
                        c,
                        sd,
                        dep,
                        prev,
                        mesh.quads@[e].2,
                    )),
                current_quad matches Some(q) ==> quad_wf(q) && q.voxel != Voxel::Air && q.start.y
                    == y && q.end_excl.y == y + 1 && q.end_excl.x == x && quad_faces_visible(
                    c,
                    sd,
                    dep,
                    prev,
                    q,
                ),
                slice_fully_occluded(c, sd, dep, prev) ==> mesh.quads@ == base
                    && current_quad is None,
                (exists|x0: int, y0: int|
                    0 <= x0 < CHUNK_WIDTH && 0 <= y0 < y && face_visible(c, sd, dep, prev, x0, y0))
                    ==> mesh.quads@.len() > base.len(),
                (exists|x0: int|
                    0 <= x0 < x && face_visible(c, sd, dep, prev, x0, y as int)) ==> (
                mesh.quads@.len() > base.len() || current_quad is Some),
                (exists|i: int|
                    y * CHUNK_WIDTH + x <= i < CHUNK_SQUARE && bit_seq(slice_bits)[i] && !prev[i])
                    ==> mesh.quads@.len() > base.len(),
                forall|x0: int, y0: int|
                    0 <= x0 < CHUNK_WIDTH && 0 <= y0 < y && face_visible(c, sd, dep, prev, x0, y0)
                        ==> covered_by_new(mesh.quads@, base.len() as int, x0, y0),
                forall|x0: int|
                    0 <= x0 < x && face_visible(c, sd, dep, prev, x0, y as int) ==> (
                    covered_by_new(mesh.quads@, base.len() as int, x0, y as int) || (
                    current_quad matches Some(q) && quad_covers(q, x0, y as int))),
                forall|x0: int|
                    x <= x0 < CHUNK_WIDTH && bit_seq(slice_bits)[y * CHUNK_WIDTH + x0]
                        ==> covered_by_new(mesh.quads@, base.len() as int, x0, y as int),
                forall|x0: int, y0: int|
                    0 <= x0 < CHUNK_WIDTH && y < y0 < CHUNK_WIDTH && bit_seq(slice_bits)[y0
                        * CHUNK_WIDTH + x0] ==> covered_by_new(
                        mesh.quads@,
                        base.len() as int,
                        x0,
                        y0,
                    ),
            decreases CHUNK_WIDTH - x,
        {
            let ghost idx = y * CHUNK_WIDTH + x;
            let ghost quads_at_entry = mesh.quads@;
            let ghost bits_entry = bit_seq(slice_bits);
            let ghost cq_entry = current_quad;
            let slice_index = slice_row_index + x;
            let pos = slice_cell(slice_direction, slice_depth, x, y);
            let voxel = chunk.at(pos);
            proof {
                assert(voxel == c[cell_index_spec(sd, dep, x as int, y as int)]);
                if slice_fully_occluded(c, sd, dep, prev) {
                    assert(!face_visible(c, sd, dep, prev, x as int, y as int));
                }
            }

            if bits_get(&slice_bits, slice_index as usize) || bits_get(
                previous_slice_bits,
                slice_index as usize,
            ) {
                proof {
                    if bit_seq(slice_bits)[idx as int] && !prev[idx as int] {
                        // the bit at this yet-unprocessed position proves a
                        // quad already grew over it
                        assert(exists|i: int|
                            y * CHUNK_WIDTH + x <= i < CHUNK_SQUARE && bit_seq(slice_bits)[i]
                                && !prev[i]);
                    }
                }
                bits_set(&mut slice_bits, slice_index as usize, true);
                if let Some(quad) = current_quad.take() {
                    let ghost quads_pre = mesh.quads@;
                    let ghost bits_pre = bit_seq(slice_bits);
                    emit_quad(
                        slice_direction,
                        slice_depth,
                        quad,
                        &chunk.voxels,
                        &mut slice_bits,
                        previous_slice_bits,
                        mesh,
                    );
                proof {
                    let en = mesh.quads@.last();
                    assert(en.2.start == quad.start && en.2.end_excl.x == quad.end_excl.x
                        && en.2.voxel == quad.voxel);
                    lemma_emit_coverage(
                        quads_pre,
                        mesh.quads@,
                        base.len() as int,
                        quad,
                        bits_pre,
                        bit_seq(slice_bits),
                    );
                    assert(quad_faces_visible(c, sd, dep, prev, en.2)) by {
                        assert forall|x0: int, y0: int|
                            en.2.start.x <= x0 < en.2.end_excl.x && en.2.start.y <= y0
                                < en.2.end_excl.y implies (#[trigger] c[cell_index_spec(
                            sd,
                            dep,
                            x0,
                            y0,
                        )]) == en.2.voxel && !prev[y0 * CHUNK_WIDTH + x0] by {
                            if y0 == quad.start.y {
                                assert(c[cell_index_spec(sd, dep, x0, y0)] == quad.voxel
                                    && !prev[y0 * CHUNK_WIDTH + x0]);
                            } else {
                                assert(row_matches(c, sd, dep, quad, y0, bits_pre, prev));
                                assert(c[cell_index_spec(sd, dep, x0, y0)] == quad.voxel
                                    && !prev[y0 * CHUNK_WIDTH + x0]);
                            }
                        }
                    }
                    assert forall|e: int|
                        0 <= e < base.len() implies #[trigger] mesh.quads@[e] == base[e] by {
                        assert(mesh.quads@[e] == quads_pre[e]);
                    }
                    assert forall|e: int|
                        base.len() <= e < mesh.quads@.len() implies ((
                    #[trigger] mesh.quads@[e]).0 == slice_direction && mesh.quads@[e].1
                        == slice_depth && mesh.quads@[e].2.voxel != Voxel::Air && quad_wf(
                        mesh.quads@[e].2,
                    ) && quad_faces_visible(c, sd, dep, prev, mesh.quads@[e].2)) by {
                        if e < quads_pre.len() {
                            assert(mesh.quads@[e] == quads_pre[e]);
                        } else {
                            assert(mesh.quads@[e] == en);
                        }
                    }
                
                    assert forall|x0: int|
                        x + 1 <= x0 < CHUNK_WIDTH && bit_seq(slice_bits)[y * CHUNK_WIDTH + x0]
                            implies covered_by_new(
                        mesh.quads@,
                        base.len() as int,
                        x0,
                        y as int,
                    ) by {
                        let i0 = y * CHUNK_WIDTH + x0;
                        assert(bit_seq(slice_bits)[i0] == (bits_pre[i0] || grown_covers(
                            quad,
                            en.2.end_excl.y as int,
                            i0,
                        )));
                        if bits_pre[i0] {
                            assert(i0 != idx);
                            assert(bits_entry[i0]);
                            assert(covered_by_new(quads_at_entry, base.len() as int, x0, y as int));
                            assert(covered_by_new(quads_pre, base.len() as int, x0, y as int));
                        }
                    }
                    assert forall|x0: int, y0: int|
                        0 <= x0 < CHUNK_WIDTH && y < y0 < CHUNK_WIDTH && bit_seq(slice_bits)[y0
                            * CHUNK_WIDTH + x0] implies covered_by_new(
                        mesh.quads@,
                        base.len() as int,
                        x0,
                        y0,
                    ) by {
                        let i0 = y0 * CHUNK_WIDTH + x0;
                        assert(bit_seq(slice_bits)[i0] == (bits_pre[i0] || grown_covers(
                            quad,
                            en.2.end_excl.y as int,
                            i0,
                        )));
                        if bits_pre[i0] {
                            assert(i0 != idx);
                            assert(bits_entry[i0]);
                            assert(covered_by_new(quads_at_entry, base.len() as int, x0, y0));
                            assert(covered_by_new(quads_pre, base.len() as int, x0, y0));
                        }
                    }

                    assert(cq_entry == Some(quad));
                    assert(quad.start.y == y);
                    assert forall|x0: int|
                        0 <= x0 < x + 1 && face_visible(c, sd, dep, prev, x0, y as int) implies
                        covered_by_new(mesh.quads@, base.len() as int, x0, y as int) by {
                        if x0 < x {
                            if covered_by_new(quads_at_entry, base.len() as int, x0, y as int) {
                                assert(covered_by_new(quads_pre, base.len() as int, x0, y as int));
                            } else {
                                assert(quad_covers(quad, x0, y as int));
                                assert(covered_by_new(
                                    mesh.quads@,
                                    base.len() as int,
                                    x0,
                                    quad.start.y as int,
                                ));
                            }
                        } else {
                            assert(!prev[idx as int]);
                            assert(bits_entry[idx as int]);
                            assert(covered_by_new(quads_at_entry, base.len() as int, x0, y as int));
                            assert(covered_by_new(quads_pre, base.len() as int, x0, y as int));
                        }
                    }
                }
                }
            } else {
                bits_set(&mut slice_bits, slice_index as usize, true);
                if let Some(mut quad) = current_quad.take() {
                    if quad.voxel == voxel {
                        quad.end_excl.x += 1;
                        current_quad = Some(quad);
                    } else {
                        let ghost quads_pre = mesh.quads@;
                        let ghost bits_pre = bit_seq(slice_bits);
                        emit_quad(
                            slice_direction,
                            slice_depth,
                            quad,
                            &chunk.voxels,
                            &mut slice_bits,
                            previous_slice_bits,
                            mesh,
                        );
                proof {
                    let en = mesh.quads@.last();
                    assert(en.2.start == quad.start && en.2.end_excl.x == quad.end_excl.x
                        && en.2.voxel == quad.voxel);
                    lemma_emit_coverage(
                        quads_pre,
                        mesh.quads@,
                        base.len() as int,
                        quad,
                        bits_pre,
                        bit_seq(slice_bits),
                    );
                    assert(quad_faces_visible(c, sd, dep, prev, en.2)) by {
                        assert forall|x0: int, y0: int|
                            en.2.start.x <= x0 < en.2.end_excl.x && en.2.start.y <= y0
                                < en.2.end_excl.y implies (#[trigger] c[cell_index_spec(
                            sd,
                            dep,
                            x0,
                            y0,
                        )]) == en.2.voxel && !prev[y0 * CHUNK_WIDTH + x0] by {
                            if y0 == quad.start.y {
                                assert(c[cell_index_spec(sd, dep, x0, y0)] == quad.voxel
                                    && !prev[y0 * CHUNK_WIDTH + x0]);
                            } else {
                                assert(row_matches(c, sd, dep, quad, y0, bits_pre, prev));
                                assert(c[cell_index_spec(sd, dep, x0, y0)] == quad.voxel
                                    && !prev[y0 * CHUNK_WIDTH + x0]);
                            }
                        }
                    }
                    assert forall|e: int|
                        0 <= e < base.len() implies #[trigger] mesh.quads@[e] == base[e] by {
                        assert(mesh.quads@[e] == quads_pre[e]);
                    }
                    assert forall|e: int|
                        base.len() <= e < mesh.quads@.len() implies ((
                    #[trigger] mesh.quads@[e]).0 == slice_direction && mesh.quads@[e].1
                        == slice_depth && mesh.quads@[e].2.voxel != Voxel::Air && quad_wf(
                        mesh.quads@[e].2,
                    ) && quad_faces_visible(c, sd, dep, prev, mesh.quads@[e].2)) by {
                        if e < quads_pre.len() {
                            assert(mesh.quads@[e] == quads_pre[e]);
                        } else {
                            assert(mesh.quads@[e] == en);
                        }
                    }
                
                    assert forall|x0: int|
                        x + 1 <= x0 < CHUNK_WIDTH && bit_seq(slice_bits)[y * CHUNK_WIDTH + x0]
                            implies covered_by_new(
                        mesh.quads@,
                        base.len() as int,
                        x0,
                        y as int,
                    ) by {
                        let i0 = y * CHUNK_WIDTH + x0;
                        assert(bit_seq(slice_bits)[i0] == (bits_pre[i0] || grown_covers(
                            quad,
                            en.2.end_excl.y as int,
                            i0,
                        )));
                        if bits_pre[i0] {
                            assert(i0 != idx);
                            assert(bits_entry[i0]);
                            assert(covered_by_new(quads_at_entry, base.len() as int, x0, y as int));
                            assert(covered_by_new(quads_pre, base.len() as int, x0, y as int));
                        }
                    }
                    assert forall|x0: int, y0: int|
                        0 <= x0 < CHUNK_WIDTH && y < y0 < CHUNK_WIDTH && bit_seq(slice_bits)[y0
                            * CHUNK_WIDTH + x0] implies covered_by_new(
                        mesh.quads@,
                        base.len() as int,
                        x0,
                        y0,
                    ) by {
                        let i0 = y0 * CHUNK_WIDTH + x0;
                        assert(bit_seq(slice_bits)[i0] == (bits_pre[i0] || grown_covers(
                            quad,
                            en.2.end_excl.y as int,
                            i0,
                        )));
                        if bits_pre[i0] {
                            assert(i0 != idx);
                            assert(bits_entry[i0]);
                            assert(covered_by_new(quads_at_entry, base.len() as int, x0, y0));
                            assert(covered_by_new(quads_pre, base.len() as int, x0, y0));
                        }
                    }

                    assert(cq_entry == Some(quad));
                    assert(quad.start.y == y);
                    assert forall|x0: int|
                        0 <= x0 < x && face_visible(c, sd, dep, prev, x0, y as int) implies
                        covered_by_new(mesh.quads@, base.len() as int, x0, y as int) by {
                        if covered_by_new(quads_at_entry, base.len() as int, x0, y as int) {
                            assert(covered_by_new(quads_pre, base.len() as int, x0, y as int));
                        } else {
                            assert(quad_covers(quad, x0, y as int));
                            assert(covered_by_new(
                                mesh.quads@,
                                base.len() as int,
                                x0,
                                quad.start.y as int,
                            ));
                        }
                    }
                }
                        if voxel != Voxel::Air {
                            current_quad = Some(Quad::new(UVec2 { x, y }, voxel));
                        }
                    }
                } else if voxel != Voxel::Air {
                    current_quad = Some(Quad::new(UVec2 { x, y }, voxel));
                }
            }
            proof {
                assert(quads_at_entry.len() <= mesh.quads@.len() <= quads_at_entry.len() + 1);
            }
            x += 1;
        }

        let ghost cq_row_end = current_quad;
        if let Some(quad) = current_quad.take() {
            let ghost quads_pre = mesh.quads@;
            let ghost bits_pre = bit_seq(slice_bits);
            emit_quad(
                slice_direction,
                slice_depth,
                quad,
                &chunk.voxels,
                &mut slice_bits,
                previous_slice_bits,
                mesh,
            );
                proof {
                    let en = mesh.quads@.last();
                    assert(en.2.start == quad.start && en.2.end_excl.x == quad.end_excl.x
                        && en.2.voxel == quad.voxel);
                    lemma_emit_coverage(
                        quads_pre,
                        mesh.quads@,
                        base.len() as int,
                        quad,
                        bits_pre,
                        bit_seq(slice_bits),
                    );
                    assert(quad_faces_visible(c, sd, dep, prev, en.2)) by {
                        assert forall|x0: int, y0: int|
                            en.2.start.x <= x0 < en.2.end_excl.x && en.2.start.y <= y0
                                < en.2.end_excl.y implies (#[trigger] c[cell_index_spec(
                            sd,
                            dep,
                            x0,
                            y0,
                        )]) == en.2.voxel && !prev[y0 * CHUNK_WIDTH + x0] by {
                            if y0 == quad.start.y {
                                assert(c[cell_index_spec(sd, dep, x0, y0)] == quad.voxel
                                    && !prev[y0 * CHUNK_WIDTH + x0]);
                            } else {
                                assert(row_matches(c, sd, dep, quad, y0, bits_pre, prev));
                                assert(c[cell_index_spec(sd, dep, x0, y0)] == quad.voxel
                                    && !prev[y0 * CHUNK_WIDTH + x0]);
                            }
                        }
                    }
                    assert forall|e: int|
                        0 <= e < base.len() implies #[trigger] mesh.quads@[e] == base[e] by {
                        assert(mesh.quads@[e] == quads_pre[e]);
                    }
                    assert forall|e: int|
                        base.len() <= e < mesh.quads@.len() implies ((
                    #[trigger] mesh.quads@[e]).0 == slice_direction && mesh.quads@[e].1
                        == slice_depth && mesh.quads@[e].2.voxel != Voxel::Air && quad_wf(
                        mesh.quads@[e].2,
                    ) && quad_faces_visible(c, sd, dep, prev, mesh.quads@[e].2)) by {
                        if e < quads_pre.len() {
                            assert(mesh.quads@[e] == quads_pre[e]);
                        } else {
                            assert(mesh.quads@[e] == en);
                        }
                    }
                
                    assert(cq_row_end == Some(quad));
                    assert(quad.start.y == y);
                    assert forall|x0: int, y0: int|
                        0 <= x0 < CHUNK_WIDTH && 0 <= y0 < y + 1 && face_visible(
                        c,
                        sd,
                        dep,
                        prev,
                        x0,
                        y0,
                    ) implies covered_by_new(mesh.quads@, base.len() as int, x0, y0) by {
                        if y0 < y {
                            assert(covered_by_new(quads_pre, base.len() as int, x0, y0));
                        } else {
                            if covered_by_new(quads_pre, base.len() as int, x0, y as int) {
                            } else {
                                assert(quad_covers(quad, x0, y as int));
                                assert(covered_by_new(
                                    mesh.quads@,
                                    base.len() as int,
                                    x0,
                                    quad.start.y as int,
                                ));
                            }
                        }
                    }
                    assert forall|x0: int, y0: int|
                        0 <= x0 < CHUNK_WIDTH && y + 1 <= y0 < CHUNK_WIDTH && bit_seq(
                        slice_bits,
                    )[y0 * CHUNK_WIDTH + x0] implies covered_by_new(
                        mesh.quads@,
                        base.len() as int,
                        x0,
                        y0,
                    ) by {
                        let i0 = y0 * CHUNK_WIDTH + x0;
                        assert(bit_seq(slice_bits)[i0] == (bits_pre[i0] || grown_covers(
                            quad,
                            en.2.end_excl.y as int,
                            i0,
                        )));
                        if bits_pre[i0] {
                            assert(covered_by_new(quads_pre, base.len() as int, x0, y0));
                        }
                    }
                }
        }
        y += 1;
    }
}

/// The occlusion bits in front of a slice: the chunk's own next slice for
/// interior depths, the neighbor's facing edge plane for the outermost.
pub open spec fn prev_bits_spec(
    c: Seq<Voxel>,
    neighbors: NeighborChunkSlices,
    sd: SliceDirection,
    depth: int,
) -> Seq<bool> {
    if depth < CHUNK_WIDTH - 1 {
        solid_bits_slice_spec(c, sd, depth + 1)
    } else {
        neighbors.plane(sd.normal)
    }
}

/// Whether any face of the chunk is visible in any slice direction, given
/// the neighbors' boundary planes.
pub open spec fn any_visible_face(c: Seq<Voxel>, neighbors: NeighborChunkSlices) -> bool {
    exists|di: int, depth: int, x: int, y: int|
        0 <= di < 6 && 0 <= depth < CHUNK_WIDTH && 0 <= x < CHUNK_WIDTH && 0 <= y < CHUNK_WIDTH
            && face_visible(
            c,
            slice_directions_spec()[di],
            depth,
            prev_bits_spec(c, neighbors, slice_directions_spec()[di], depth),
            x,
            y,
        )
}

/// Meshes a whole chunk against its neighbors' boundary planes. Produces
/// geometry exactly when the chunk is not flagged empty and some face is
/// visible; a chunk with every face occluded yields nothing.
#[verifier::rlimit(100)]
#[verifier::spinoff_prover]
pub fn generate_mesh(chunk: &Chunk, neighbors: NeighborChunkSlices) -> (r: Option<ChunkMeshData>)
    requires
        chunk.wf(),
        neighbors.wf(),
    ensures
        r is Some <==> (!chunk.definitely_empty && any_visible_face(chunk.voxels@, neighbors)),
        r matches Some(m) ==> m.wf(),
        // every visible face of every slice is covered by a quad of that
        // slice
        r matches Some(m) ==> (forall|di0: int, depth: int, x: int, y: int|
            0 <= di0 < 6 && 0 <= depth < CHUNK_WIDTH && 0 <= x < CHUNK_WIDTH && 0 <= y
                < CHUNK_WIDTH && face_visible(
                chunk.voxels@,
                slice_directions_spec()[di0],
                depth,
                prev_bits_spec(
                    chunk.voxels@,
                    neighbors,
                    slice_directions_spec()[di0],
                    depth,
                ),
                x,
                y,
            ) ==> covered_tagged(m.quads@, slice_directions_spec()[di0], depth, x, y)),
        // every quad drawn shows visible faces of one voxel kind over its
        // whole extent, judged against its own slice's occlusion image
        r matches Some(m) ==> (forall|e: int|
            0 <= e < m.quads@.len() ==> ((#[trigger] m.quads@[e]).0.wf() && m.quads@[e].1
                < CHUNK_WIDTH && m.quads@[e].2.voxel != Voxel::Air && quad_wf(m.quads@[e].2)
                && quad_faces_visible(
                chunk.voxels@,
                m.quads@[e].0,
                m.quads@[e].1 as int,
                prev_bits_spec(
                    chunk.voxels@,
                    neighbors,
                    m.quads@[e].0,
                    m.quads@[e].1 as int,
                ),
                m.quads@[e].2,
            ))),
{
    let mut tmp_mesh = TmpChunkMesh::new();

    if !chunk.definitely_empty {
        let dirs = slice_directions();
        let mut di: usize = 0;
        while di < 6
            invariant
                chunk.wf(),
                neighbors.wf(),
                dirs@ == slice_directions_spec(),
                forall|i: int| 0 <= i < 6 ==> (#[trigger] dirs@[i]).wf(),
                di <= 6,
                tmp_mesh.wf(),
                tmp_mesh.quads@.len() <= di * 32 * 32 * 32,
                forall|di0: int, depth: int, x0: int, y0: int|
                    0 <= di0 < di && 0 <= depth < CHUNK_WIDTH && 0 <= x0 < CHUNK_WIDTH && 0 <= y0
                        < CHUNK_WIDTH && face_visible(
                        chunk.voxels@,
                        slice_directions_spec()[di0],
                        depth,
                        prev_bits_spec(
                            chunk.voxels@,
                            neighbors,
                            slice_directions_spec()[di0],
                            depth,
                        ),
                        x0,
                        y0,
                    ) ==> covered_tagged(
                        tmp_mesh.quads@,
                        slice_directions_spec()[di0],
                        depth,
                        x0,
                        y0,
                    ),
                forall|e: int|
                    0 <= e < tmp_mesh.quads@.len() ==> ((#[trigger] tmp_mesh.quads@[e]).0.wf()
                        && tmp_mesh.quads@[e].1 < CHUNK_WIDTH && tmp_mesh.quads@[e].2.voxel
                        != Voxel::Air && quad_wf(tmp_mesh.quads@[e].2) && quad_faces_visible(
                        chunk.voxels@,
                        tmp_mesh.quads@[e].0,
                        tmp_mesh.quads@[e].1 as int,
                        prev_bits_spec(
                            chunk.voxels@,
                            neighbors,
                            tmp_mesh.quads@[e].0,
                            tmp_mesh.quads@[e].1 as int,
                        ),
                        tmp_mesh.quads@[e].2,
                    )),
                // quads so far exactly when a processed slice had a visible face
                (tmp_mesh.quads@.len() > 0) <==> (exists|di0: int, depth: int, x: int, y: int|
                    0 <= di0 < di && 0 <= depth < CHUNK_WIDTH && 0 <= x < CHUNK_WIDTH && 0 <= y
                        < CHUNK_WIDTH && face_visible(
                        chunk.voxels@,
                        slice_directions_spec()[di0],
                        depth,
                        prev_bits_spec(
                            chunk.voxels@,
                            neighbors,
                            slice_directions_spec()[di0],
                            depth,
                        ),
                        x,
                        y,
                    )),
            decreases 6 - di,
        {
            let dir = dirs[di];
            let mut z: u32 = 0;
            while z < CHUNK_WIDTH
                invariant
                    chunk.wf(),
                    neighbors.wf(),
                    dirs@ == slice_directions_spec(),
                    di < 6,
                    dir == slice_directions_spec()[di as int],
                    dir.wf(),
                    z <= CHUNK_WIDTH,
                    tmp_mesh.wf(),
                    tmp_mesh.quads@.len() <= di * 32 * 32 * 32 + z * 32 * 32,
                    forall|di0: int, depth: int, x0: int, y0: int|
                        0 <= di0 < di && 0 <= depth < CHUNK_WIDTH && 0 <= x0 < CHUNK_WIDTH && 0
                            <= y0 < CHUNK_WIDTH && face_visible(
                            chunk.voxels@,
                            slice_directions_spec()[di0],
                            depth,
                            prev_bits_spec(
                                chunk.voxels@,
                                neighbors,
                                slice_directions_spec()[di0],
                                depth,
                            ),
                            x0,
                            y0,
                        ) ==> covered_tagged(
                            tmp_mesh.quads@,
                            slice_directions_spec()[di0],
                            depth,
                            x0,
                            y0,
                        ),
                    forall|depth: int, x0: int, y0: int|
                        0 <= depth < z && 0 <= x0 < CHUNK_WIDTH && 0 <= y0 < CHUNK_WIDTH
                            && face_visible(
                            chunk.voxels@,
                            dir,
                            depth,
                            prev_bits_spec(chunk.voxels@, neighbors, dir, depth),
                            x0,
                            y0,
                        ) ==> covered_tagged(tmp_mesh.quads@, dir, depth, x0, y0),
                forall|e: int|
                    0 <= e < tmp_mesh.quads@.len() ==> ((#[trigger] tmp_mesh.quads@[e]).0.wf()
                        && tmp_mesh.quads@[e].1 < CHUNK_WIDTH && tmp_mesh.quads@[e].2.voxel
                        != Voxel::Air && quad_wf(tmp_mesh.quads@[e].2) && quad_faces_visible(
                        chunk.voxels@,
                        tmp_mesh.quads@[e].0,
                        tmp_mesh.quads@[e].1 as int,
                        prev_bits_spec(
                            chunk.voxels@,
                            neighbors,
                            tmp_mesh.quads@[e].0,
                            tmp_mesh.quads@[e].1 as int,
                        ),
                        tmp_mesh.quads@[e].2,
                    )),
                    (tmp_mesh.quads@.len() > 0) <==> ((exists|di0: int, depth: int, x: int, y: int|
                        0 <= di0 < di && 0 <= depth < CHUNK_WIDTH && 0 <= x < CHUNK_WIDTH && 0 <= y
                            < CHUNK_WIDTH && face_visible(
                            chunk.voxels@,
                            slice_directions_spec()[di0],
                            depth,
                            prev_bits_spec(
                                chunk.voxels@,
                                neighbors,
                                slice_directions_spec()[di0],
                                depth,
                            ),
                            x,
                            y,
                        )) || (exists|depth: int, x: int, y: int|
                        0 <= depth < z && 0 <= x < CHUNK_WIDTH && 0 <= y < CHUNK_WIDTH
                            && face_visible(
                            chunk.voxels@,
                            dir,
                            depth,
                            prev_bits_spec(chunk.voxels@, neighbors, dir, depth),
                            x,
                            y,
                        ))),
                decreases CHUNK_WIDTH - z,
            {
                let prev = if z < CHUNK_WIDTH - 1 {
                    match chunk.get_solid_bits_slice(dir, z + 1) {
                        Some(b) => b,
                        None => {
                            proof {
                                assert(false);
                            }
                            bits_repeat(false, CHUNK_SQUARE as usize)
                        },
                    }
                } else {
                    bits_clone(neighbors.get_in_direction(dir.normal()))
                };
                proof {
                    assert(bit_seq(prev) == prev_bits_spec(
                        chunk.voxels@,
                        neighbors,
                        dir,
                        z as int,
                    ));
                }
                let ghost quads_pre = tmp_mesh.quads@;
                mesh_slice(chunk, dir, z, &mut tmp_mesh, &prev);
                proof {
                    assert forall|e: int|
                        0 <= e < tmp_mesh.quads@.len() implies ((
                    #[trigger] tmp_mesh.quads@[e]).0.wf() && tmp_mesh.quads@[e].1 < CHUNK_WIDTH
                        && tmp_mesh.quads@[e].2.voxel != Voxel::Air && quad_wf(
                        tmp_mesh.quads@[e].2,
                    ) && quad_faces_visible(
                        chunk.voxels@,
                        tmp_mesh.quads@[e].0,
                        tmp_mesh.quads@[e].1 as int,
                        prev_bits_spec(
                            chunk.voxels@,
                            neighbors,
                            tmp_mesh.quads@[e].0,
                            tmp_mesh.quads@[e].1 as int,
                        ),
                        tmp_mesh.quads@[e].2,
                    )) by {
                        if e < quads_pre.len() {
                            assert(tmp_mesh.quads@[e] == quads_pre[e]);
                        } else {
                            assert(tmp_mesh.quads@[e].0 == dir && tmp_mesh.quads@[e].1 == z);
                            assert(quad_faces_visible(
                                chunk.voxels@,
                                dir,
                                z as int,
                                bit_seq(prev),
                                tmp_mesh.quads@[e].2,
                            ));
                        }
                    }
                    // the new slice's visible faces are covered by quads
                    // tagged with it, and earlier slices' coverage persists
                    assert forall|x0: int, y0: int|
                        0 <= x0 < CHUNK_WIDTH && 0 <= y0 < CHUNK_WIDTH && face_visible(
                        chunk.voxels@,
                        dir,
                        z as int,
                        prev_bits_spec(chunk.voxels@, neighbors, dir, z as int),
                        x0,
                        y0,
                    ) implies covered_tagged(tmp_mesh.quads@, dir, z as int, x0, y0) by {
                        reveal(covered_tagged);
                        reveal(covered_by_new);
                        assert(covered_by_new(tmp_mesh.quads@, quads_pre.len() as int, x0, y0));
                        let e = choose|e: int|
                            quads_pre.len() <= e < tmp_mesh.quads@.len() && quad_covers(
                                (#[trigger] tmp_mesh.quads@[e]).2,
                                x0,
                                y0,
                            );
                        assert(tmp_mesh.quads@[e].0 == dir && tmp_mesh.quads@[e].1 == z);
                    }
                    assert forall|sd0: SliceDirection, depth: int, x0: int, y0: int| #[trigger]
                        covered_tagged(quads_pre, sd0, depth, x0, y0) implies covered_tagged(
                        tmp_mesh.quads@,
                        sd0,
                        depth,
                        x0,
                        y0,
                    ) by {
                        reveal(covered_tagged);
                        let e = choose|e: int|
                            0 <= e < quads_pre.len() && (#[trigger] quads_pre[e]).0 == sd0
                                && quads_pre[e].1 == depth && quad_covers(
                                quads_pre[e].2,
                                x0,
                                y0,
                            );
                        assert(tmp_mesh.quads@[e] == quads_pre[e]);
                    }
                    assert forall|di0: int, depth: int, x0: int, y0: int|
                        0 <= di0 < di && 0 <= depth < CHUNK_WIDTH && 0 <= x0 < CHUNK_WIDTH && 0
                            <= y0 < CHUNK_WIDTH && face_visible(
                        chunk.voxels@,
                        slice_directions_spec()[di0],
                        depth,
                        prev_bits_spec(
                            chunk.voxels@,
                            neighbors,
                            slice_directions_spec()[di0],
                            depth,
                        ),
                        x0,
                        y0,
                    ) implies covered_tagged(
                        tmp_mesh.quads@,
                        slice_directions_spec()[di0],
                        depth,
                        x0,
                        y0,
                    ) by {
                        assert(covered_tagged(
                            quads_pre,
                            slice_directions_spec()[di0],
                            depth,
                            x0,
                            y0,
                        ));
                    }
                    assert forall|depth: int, x0: int, y0: int|
                        0 <= depth < z + 1 && 0 <= x0 < CHUNK_WIDTH && 0 <= y0 < CHUNK_WIDTH
                            && face_visible(
                        chunk.voxels@,
                        dir,
                        depth,
                        prev_bits_spec(chunk.voxels@, neighbors, dir, depth),
                        x0,
                        y0,
                    ) implies covered_tagged(tmp_mesh.quads@, dir, depth, x0, y0) by {
                        if depth < z {
                            assert(covered_tagged(quads_pre, dir, depth, x0, y0));
                        } else {
                            assert(covered_tagged(tmp_mesh.quads@, dir, z as int, x0, y0));
                        }
                    }
                }
                z += 1;
            }
            di += 1;
        }
    }

    let r = tmp_mesh.build();
    proof {
        if !chunk.definitely_empty {
            assert((r is Some) <==> any_visible_face(chunk.voxels@, neighbors));
        }
    }
    r
}

/// A chunk whose origin voxel is solid, with the cell in front of it
/// (along the first scanning basis) open, has a visible face — so by the
/// meshing contract such a chunk always yields geometry. This is the
/// half of the boundary behavior that holds of any exposed voxel; the
/// exact quad count of a lone voxel is pinned down by the tests.
pub proof fn lemma_exposed_origin_voxel_is_visible(c: Seq<Voxel>, neighbors: NeighborChunkSlices)
    requires
        c.len() == crate::CHUNK_CUBE,
        c[0] != Voxel::Air,
        c[crate::chunk::lin_idx(0, 0, 1)] == Voxel::Air,
    ensures
        any_visible_face(c, neighbors),
{
    let sd = slice_directions_spec()[0];
    assert(sd.wf());
    let prev = prev_bits_spec(c, neighbors, sd, 0);
    assert(crate::CHUNK_SQUARE == 961);
    assert(cell_index_spec(sd, 0, 0, 0) == 0);
    assert(cell_index_spec(sd, 1, 0, 0) == crate::chunk::lin_idx(0, 0, 1));
    assert(prev == solid_bits_slice_spec(c, sd, 1));
    assert(!prev[0]);
    assert(face_visible(c, sd, 0, prev, 0, 0));
}

/// A chunk that is solid everywhere, with solid neighbors on all six
/// sides, has no visible face: every face is culled either by the next
/// slice of this chunk or by the neighbor's boundary plane, so meshing it
/// produces no geometry at all.
pub proof fn lemma_fully_enclosed_solid_has_no_visible_face(
    c: Seq<Voxel>,
    neighbors: NeighborChunkSlices,
    v: Voxel,
)
    requires
        v != Voxel::Air,
        c.len() == crate::CHUNK_CUBE,
        forall|i: int| 0 <= i < c.len() ==> c[i] == v,
        neighbors.wf(),
        forall|a: crate::axis::VoxelAxis, i: int|
            0 <= i < CHUNK_SQUARE ==> (#[trigger] neighbors.plane(a)[i]),
    ensures
        !any_visible_face(c, neighbors),
{
    assert forall|di: int, depth: int, x: int, y: int|
        0 <= di < 6 && 0 <= depth < CHUNK_WIDTH && 0 <= x < CHUNK_WIDTH && 0 <= y
            < CHUNK_WIDTH implies !face_visible(
        c,
        slice_directions_spec()[di],
        depth,
        prev_bits_spec(c, neighbors, slice_directions_spec()[di], depth),
        x,
        y,
    ) by {
        let sd = slice_directions_spec()[di];
        assert(sd.wf());
        if depth < CHUNK_WIDTH - 1 {
            sd.lemma_cell_in_bounds(depth + 1, x, y);
            assert(solid_bits_slice_spec(c, sd, depth + 1)[y * CHUNK_WIDTH + x]);
        } else {
            assert(neighbors.plane(sd.normal)[y * CHUNK_WIDTH + x]);
        }
    }
}

} // verus!
