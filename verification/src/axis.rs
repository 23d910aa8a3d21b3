//! Axis-aligned directions and the slice bases the mesher scans along.
//!
//! A [`SliceDirection`] is a right/up pair of axes; its normal is their
//! cross product. Slices perpendicular to the normal are scanned at depths
//! `0 .. CHUNK_WIDTH`, and positions within a slice are mapped into chunk
//! coordinates by [`SliceDirection::transform`]. Axes that point in a
//! negative direction are mirrored so that slice coordinates always count
//! from the low corner of the chunk.

use crate::ivec::{IVec3, UVec2, UVec3};
use crate::CHUNK_WIDTH;
use vstd::prelude::*;

verus! {

/// One of the six axis-aligned unit directions.
#[derive(Debug, Copy, Clone, PartialEq, Eq, Structural)]
pub enum VoxelAxis {
    PosX,
    PosY,
    PosZ,
    NegX,
    NegY,
    NegZ,
}

impl VoxelAxis {
    /// Which of the three dimensions this axis runs along.
    pub open spec fn dim(self) -> int {
        match self {
            VoxelAxis::PosX | VoxelAxis::NegX => 0,
            VoxelAxis::PosY | VoxelAxis::NegY => 1,
            VoxelAxis::PosZ | VoxelAxis::NegZ => 2,
        }
    }

    /// `+1` for the positive axes, `-1` for the negative ones.
    pub open spec fn sign(self) -> int {
        match self {
            VoxelAxis::PosX | VoxelAxis::PosY | VoxelAxis::PosZ => 1,
            VoxelAxis::NegX | VoxelAxis::NegY | VoxelAxis::NegZ => -1,
        }
    }

    /// The unit vector along this axis.
    pub open spec fn unit_spec(self) -> (int, int, int) {
        (
            if self.dim() == 0 {
                self.sign()
            } else {
                0
            },
            if self.dim() == 1 {
                self.sign()
            } else {
                0
            },
            if self.dim() == 2 {
                self.sign()
            } else {
                0
            },
        )
    }

    /// The axis a unit vector points along, if it is one.
    pub open spec fn from_tuple_spec(v: (int, int, int)) -> Option<VoxelAxis> {
        if v == (1int, 0int, 0int) {
            Some(VoxelAxis::PosX)
        } else if v == (0int, 1int, 0int) {
            Some(VoxelAxis::PosY)
        } else if v == (0int, 0int, 1int) {
            Some(VoxelAxis::PosZ)
        } else if v == (-1int, 0int, 0int) {
            Some(VoxelAxis::NegX)
        } else if v == (0int, -1int, 0int) {
            Some(VoxelAxis::NegY)
        } else if v == (0int, 0int, -1int) {
            Some(VoxelAxis::NegZ)
        } else {
            None
        }
    }

    /// Recognizes the six unit vectors.
    pub fn from_ivec3(v: IVec3) -> (r: Option<Self>)
        ensures
            r == Self::from_tuple_spec((v.x as int, v.y as int, v.z as int)),
    {
        if v.x == 1 && v.y == 0 && v.z == 0 {
            Some(VoxelAxis::PosX)
        } else if v.x == 0 && v.y == 1 && v.z == 0 {
            Some(VoxelAxis::PosY)
        } else if v.x == 0 && v.y == 0 && v.z == 1 {
            Some(VoxelAxis::PosZ)
        } else if v.x == -1 && v.y == 0 && v.z == 0 {
            Some(VoxelAxis::NegX)
        } else if v.x == 0 && v.y == -1 && v.z == 0 {
            Some(VoxelAxis::NegY)
        } else if v.x == 0 && v.y == 0 && v.z == -1 {
            Some(VoxelAxis::NegZ)
        } else {
            None
        }
    }

    /// The unit vector along this axis.
    pub fn to_ivec3(self) -> (r: IVec3)
        ensures
            (r.x as int, r.y as int, r.z as int) == self.unit_spec(),
    {
        match self {
            VoxelAxis::PosX => IVec3 { x: 1, y: 0, z: 0 },
            VoxelAxis::PosY => IVec3 { x: 0, y: 1, z: 0 },
            VoxelAxis::PosZ => IVec3 { x: 0, y: 0, z: 1 },
            VoxelAxis::NegX => IVec3 { x: -1, y: 0, z: 0 },
            VoxelAxis::NegY => IVec3 { x: 0, y: -1, z: 0 },
            VoxelAxis::NegZ => IVec3 { x: 0, y: 0, z: -1 },
        }
    }

    /// The opposite direction of this axis.
    pub open spec fn negate_spec(self) -> VoxelAxis {
        match self {
            VoxelAxis::PosX => VoxelAxis::NegX,
            VoxelAxis::PosY => VoxelAxis::NegY,
            VoxelAxis::PosZ => VoxelAxis::NegZ,
            VoxelAxis::NegX => VoxelAxis::PosX,
            VoxelAxis::NegY => VoxelAxis::PosY,
            VoxelAxis::NegZ => VoxelAxis::PosZ,
        }
    }

    pub fn negate(self) -> (r: VoxelAxis)
        ensures
            r == self.negate_spec(),
    {
        match self {
            VoxelAxis::PosX => VoxelAxis::NegX,
            VoxelAxis::PosY => VoxelAxis::NegY,
            VoxelAxis::PosZ => VoxelAxis::NegZ,
            VoxelAxis::NegX => VoxelAxis::PosX,
            VoxelAxis::NegY => VoxelAxis::PosY,
            VoxelAxis::NegZ => VoxelAxis::PosZ,
        }
    }

    pub fn is_positive(self) -> (r: bool)
        ensures
            r == (self.sign() == 1),
    {
        matches!(self, VoxelAxis::PosX | VoxelAxis::PosY | VoxelAxis::PosZ)
    }
}

/// The cross product of two integer vectors.
pub open spec fn cross_spec(a: (int, int, int), b: (int, int, int)) -> (int, int, int) {
    (a.1 * b.2 - b.1 * a.2, a.2 * b.0 - b.2 * a.0, a.0 * b.1 - b.0 * a.1)
}

/// The cross product of two small integer vectors; see `cross_spec`.
pub fn const_cross(lhs: IVec3, rhs: IVec3) -> (r: IVec3)
    requires
        -1 <= lhs.x <= 1,
        -1 <= lhs.y <= 1,
        -1 <= lhs.z <= 1,
        -1 <= rhs.x <= 1,
        -1 <= rhs.y <= 1,
        -1 <= rhs.z <= 1,
    ensures
        (r.x as int, r.y as int, r.z as int) == cross_spec(
            (lhs.x as int, lhs.y as int, lhs.z as int),
            (rhs.x as int, rhs.y as int, rhs.z as int),
        ),
{
    proof {
        lemma_small_products(lhs.x as int, lhs.y as int, lhs.z as int, rhs.x as int, rhs.y as int, rhs.z as int);
    }
    IVec3 {
        x: lhs.y * rhs.z - rhs.y * lhs.z,
        y: lhs.z * rhs.x - rhs.z * lhs.x,
        z: lhs.x * rhs.y - rhs.x * lhs.y,
    }
}

/// Products of components that lie in `-1 ..= 1` lie in `-1 ..= 1` too.
proof fn lemma_small_products(ax: int, ay: int, az: int, bx: int, by: int, bz: int)
    requires
        -1 <= ax <= 1,
        -1 <= ay <= 1,
        -1 <= az <= 1,
        -1 <= bx <= 1,
        -1 <= by <= 1,
        -1 <= bz <= 1,
    ensures
        -1 <= ay * bz <= 1,
        -1 <= by * az <= 1,
        -1 <= az * bx <= 1,
        -1 <= bz * ax <= 1,
        -1 <= ax * by <= 1,
        -1 <= bx * ay <= 1,
{
    assert(-1 <= ay * bz <= 1 && -1 <= by * az <= 1 && -1 <= az * bx <= 1 && -1 <= bz * ax <= 1
        && -1 <= ax * by <= 1 && -1 <= bx * ay <= 1) by (nonlinear_arith)
        requires
            -1 <= ax <= 1,
            -1 <= ay <= 1,
            -1 <= az <= 1,
            -1 <= bx <= 1,
            -1 <= by <= 1,
            -1 <= bz <= 1,
    ;
}

/// A scanning basis for one of the six face directions: faces with normal
/// `right × up` are meshed in slices spanned by `right` and `up`.
#[derive(Debug, Copy, Clone, PartialEq, Eq, Structural)]
pub struct SliceDirection {
    pub right: VoxelAxis,
    pub up: VoxelAxis,
    pub normal: VoxelAxis,
}

impl SliceDirection {
    /// The normal really is the cross product of right and up. This also
    /// forces the three axes to run along three distinct dimensions.
    pub open spec fn wf(self) -> bool {
        VoxelAxis::from_tuple_spec(cross_spec(self.right.unit_spec(), self.up.unit_spec()))
            == Some(self.normal)
    }

    /// Builds the basis for a right/up pair whose cross product is an axis.
    pub fn new(right: VoxelAxis, up: VoxelAxis) -> (r: Self)
        requires
            VoxelAxis::from_tuple_spec(cross_spec(right.unit_spec(), up.unit_spec())) is Some,
        ensures
            r.right == right,
            r.up == up,
            r.wf(),
    {
        let normal = match VoxelAxis::from_ivec3(const_cross(right.to_ivec3(), up.to_ivec3())) {
            Some(normal) => normal,
            None => {
                proof {
                    assert(false);
                }
                right
            },
        };
        SliceDirection { right, up, normal }
    }

    pub fn normal(&self) -> (r: VoxelAxis)
        ensures
            r == self.normal,
    {
        self.normal
    }

    /// What an axis whose slice coordinate is `t` contributes to dimension
    /// `d` of the chunk position, after mirroring negative axes.
    pub open spec fn axis_comp(a: VoxelAxis, t: int, d: int) -> int {
        if a.dim() == d {
            if a.sign() == 1 {
                t
            } else {
                CHUNK_WIDTH - 1 - t
            }
        } else {
            0
        }
    }

    /// The chunk cell a slice position maps to, one dimension at a time.
    pub open spec fn cell_comp(self, depth: int, x: int, y: int, d: int) -> int {
        Self::axis_comp(self.right, x, d) + Self::axis_comp(self.up, y, d) + Self::axis_comp(
            self.normal,
            depth,
            d,
        )
    }

    /// The chunk cell a slice position maps to.
    pub open spec fn cell_spec(self, depth: int, x: int, y: int) -> (int, int, int) {
        (
            self.cell_comp(depth, x, y, 0),
            self.cell_comp(depth, x, y, 1),
            self.cell_comp(depth, x, y, 2),
        )
    }

    /// In a well-formed basis the three axes run along three distinct
    /// dimensions, so every cell component lies in `0 .. CHUNK_WIDTH`
    /// whenever the slice coordinates do.
    pub proof fn lemma_cell_in_bounds(self, depth: int, x: int, y: int)
        requires
            self.wf(),
            0 <= depth < CHUNK_WIDTH,
            0 <= x < CHUNK_WIDTH,
            0 <= y < CHUNK_WIDTH,
        ensures
            0 <= self.cell_comp(depth, x, y, 0) < CHUNK_WIDTH,
            0 <= self.cell_comp(depth, x, y, 1) < CHUNK_WIDTH,
            0 <= self.cell_comp(depth, x, y, 2) < CHUNK_WIDTH,
    {
    }

    /// Maps a slice position to its chunk cell; `None` would mean a
    /// negative component, which cannot happen for in-range inputs on a
    /// well-formed basis.
    pub fn transform(&self, slice_depth: u32, slice_pos: UVec2) -> (r: Option<UVec3>)
        requires
            self.wf(),
            slice_depth < CHUNK_WIDTH,
            slice_pos.x < CHUNK_WIDTH,
            slice_pos.y < CHUNK_WIDTH,
        ensures
            r matches Some(p) && (p.x as int, p.y as int, p.z as int) == self.cell_spec(
                slice_depth as int,
                slice_pos.x as int,
                slice_pos.y as int,
            ),
    {
        proof {
            self.lemma_cell_in_bounds(slice_depth as int, slice_pos.x as int, slice_pos.y as int);
        }
        let pos = self.exclusive_transform(slice_depth, slice_pos);

        match pos.x < 0 || pos.y < 0 || pos.z < 0 {
            false => Some(UVec3 { x: pos.x as u32, y: pos.y as u32, z: pos.z as u32 }),
            true => None,
        }
    }

    /// The raw signed transform behind [`SliceDirection::transform`]:
    /// positive axes contribute their slice coordinate directly, negative
    /// axes contribute it mirrored across the chunk.
    pub fn exclusive_transform(&self, slice_depth: u32, slice_pos: UVec2) -> (r: IVec3)
        requires
            self.wf(),
            slice_depth < CHUNK_WIDTH,
            slice_pos.x < CHUNK_WIDTH,
            slice_pos.y < CHUNK_WIDTH,
        ensures
            (r.x as int, r.y as int, r.z as int) == self.cell_spec(
                slice_depth as int,
                slice_pos.x as int,
                slice_pos.y as int,
            ),
    {
        let rc = axis_contrib(self.right, slice_pos.x);
        let uc = axis_contrib(self.up, slice_pos.y);
        let nc = axis_contrib(self.normal, slice_depth);
        IVec3 { x: rc.x + uc.x + nc.x, y: rc.y + uc.y + nc.y, z: rc.z + uc.z + nc.z }
    }
}

/// The contribution of one basis axis at slice coordinate `t` to the chunk
/// cell position; see [`SliceDirection::axis_comp`].
fn axis_contrib(a: VoxelAxis, t: u32) -> (r: IVec3)
    requires
        t < CHUNK_WIDTH,
    ensures
        r.x == SliceDirection::axis_comp(a, t as int, 0),
        r.y == SliceDirection::axis_comp(a, t as int, 1),
        r.z == SliceDirection::axis_comp(a, t as int, 2),
{
    let v = t as i32;
    let m = CHUNK_WIDTH as i32 - 1 - v;
    match a {
        VoxelAxis::PosX => IVec3 { x: v, y: 0, z: 0 },
        VoxelAxis::NegX => IVec3 { x: m, y: 0, z: 0 },
        VoxelAxis::PosY => IVec3 { x: 0, y: v, z: 0 },
        VoxelAxis::NegY => IVec3 { x: 0, y: m, z: 0 },
        VoxelAxis::PosZ => IVec3 { x: 0, y: 0, z: v },
        VoxelAxis::NegZ => IVec3 { x: 0, y: 0, z: m },
    }
}

/// The six scanning bases the mesher walks, one per face direction.
pub open spec fn slice_directions_spec() -> Seq<SliceDirection> {
    seq![
        SliceDirection { right: VoxelAxis::PosX, up: VoxelAxis::PosY, normal: VoxelAxis::PosZ },
        SliceDirection { right: VoxelAxis::NegX, up: VoxelAxis::PosY, normal: VoxelAxis::NegZ },
        SliceDirection { right: VoxelAxis::NegZ, up: VoxelAxis::PosY, normal: VoxelAxis::PosX },
        SliceDirection { right: VoxelAxis::PosZ, up: VoxelAxis::PosY, normal: VoxelAxis::NegX },
        SliceDirection { right: VoxelAxis::PosX, up: VoxelAxis::PosZ, normal: VoxelAxis::NegY },
        SliceDirection { right: VoxelAxis::NegX, up: VoxelAxis::PosZ, normal: VoxelAxis::PosY },
    ]
}

/// The six scanning bases, in the order the mesher walks them.
pub fn slice_directions() -> (r: Vec<SliceDirection>)
    ensures
        r@ == slice_directions_spec(),
        forall|i: int| 0 <= i < r@.len() ==> (#[trigger] r@[i]).wf(),
{
    let mut dirs: Vec<SliceDirection> = Vec::new();
    dirs.push(SliceDirection::new(VoxelAxis::PosX, VoxelAxis::PosY));
    dirs.push(SliceDirection::new(VoxelAxis::NegX, VoxelAxis::PosY));
    dirs.push(SliceDirection::new(VoxelAxis::NegZ, VoxelAxis::PosY));
    dirs.push(SliceDirection::new(VoxelAxis::PosZ, VoxelAxis::PosY));
    dirs.push(SliceDirection::new(VoxelAxis::PosX, VoxelAxis::PosZ));
    dirs.push(SliceDirection::new(VoxelAxis::NegX, VoxelAxis::PosZ));
    proof {
        assert(dirs@ =~= slice_directions_spec());
    }
    dirs
}

} // verus!
