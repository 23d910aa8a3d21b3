//! Small integer vector types used for chunk and voxel coordinates.

use vstd::prelude::*;

verus! {

/// A three-component signed integer vector.
#[derive(Debug, Copy, Clone, PartialEq, Eq, Structural)]
pub struct IVec3 {
    pub x: i32,
    pub y: i32,
    pub z: i32,
}

/// A three-component unsigned integer vector.
#[derive(Debug, Copy, Clone, PartialEq, Eq, Structural)]
pub struct UVec3 {
    pub x: u32,
    pub y: u32,
    pub z: u32,
}

/// A two-component unsigned integer vector.
#[derive(Debug, Copy, Clone, PartialEq, Eq, Structural)]
pub struct UVec2 {
    pub x: u32,
    pub y: u32,
}

impl IVec3 {
    /// The squared Euclidean distance between two points, computed exactly.
    pub fn distance_squared(self, o: IVec3) -> (r: i128)
        ensures
            r == dist_sq(self, o),
    {
        let dx: i128 = self.x as i128 - o.x as i128;
        let dy: i128 = self.y as i128 - o.y as i128;
        let dz: i128 = self.z as i128 - o.z as i128;
        proof {
            lemma_square_bound(dx as int);
            lemma_square_bound(dy as int);
            lemma_square_bound(dz as int);
        }
        dx * dx + dy * dy + dz * dz
    }
}

/// The square of a coordinate difference is nonnegative and comfortably
/// inside the `i128` range.
proof fn lemma_square_bound(d: int)
    requires
        -0x1_0000_0000 <= d <= 0x1_0000_0000,
    ensures
        0 <= d * d <= 0x1_0000_0000_0000_0000,
{
    assert(0 <= d * d <= 0x1_0000_0000_0000_0000) by (nonlinear_arith)
        requires
            -0x1_0000_0000 <= d <= 0x1_0000_0000,
    ;
}

/// The squared Euclidean distance between two points, as a mathematical value.
pub open spec fn dist_sq(a: IVec3, b: IVec3) -> int {
    (a.x - b.x) * (a.x - b.x) + (a.y - b.y) * (a.y - b.y) + (a.z - b.z) * (a.z - b.z)
}

impl UVec3 {
    /// The largest of the three components.
    pub fn max_element(self) -> (r: u32)
        ensures
            r == self.x || r == self.y || r == self.z,
            r >= self.x && r >= self.y && r >= self.z,
    {
        let mut m = self.x;
        if self.y > m {
            m = self.y;
        }
        if self.z > m {
            m = self.z;
        }
        m
    }

}


} // verus!
