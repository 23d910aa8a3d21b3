//! The dense per-chunk voxel array.

use crate::pos::InChunkPos;
use crate::voxels::Voxel;
use crate::CHUNK_CUBE;
use vstd::prelude::*;

verus! {

/// A dense array of one voxel per chunk cell, indexed by [`InChunkPos`].
/// Well-formed values always hold exactly `CHUNK_CUBE` voxels.
#[derive(Debug, Clone)]
pub struct VoxelContainer(pub Vec<Voxel>);

impl View for VoxelContainer {
    type V = Seq<Voxel>;

    open spec fn view(&self) -> Seq<Voxel> {
        self.0@
    }
}

impl VoxelContainer {
    /// The container holds one voxel for every cell of a chunk.
    pub open spec fn wf(self) -> bool {
        self@.len() == CHUNK_CUBE
    }

    /// A container filled with one voxel kind everywhere.
    pub fn from_voxel(voxel: Voxel) -> (r: Self)
        ensures
            r.wf(),
            r@ == Seq::new(CHUNK_CUBE as nat, |i: int| voxel),
    {
        let mut voxels: Vec<Voxel> = Vec::new();
        let mut i: usize = 0;
        while i < CHUNK_CUBE as usize
            invariant
                i <= CHUNK_CUBE,
                voxels@ == Seq::new(i as nat, |j: int| voxel),
            decreases CHUNK_CUBE - i,
        {
            voxels.push(voxel);
            i += 1;
            proof {
                assert(voxels@ =~= Seq::new(i as nat, |j: int| voxel));
            }
        }
        proof {
            assert(voxels@ =~= Seq::new(CHUNK_CUBE as nat, |j: int| voxel));
        }
        VoxelContainer(voxels)
    }

    /// Accepts a voxel list exactly when it has one entry per chunk cell.
    pub fn from_voxels(voxels: Vec<Voxel>) -> (r: Option<Self>)
        ensures
            r matches Some(c) ==> c@ == voxels@ && c.wf(),
            r is Some <==> voxels@.len() == CHUNK_CUBE,
    {
        if voxels.len() == CHUNK_CUBE as usize {
            Some(VoxelContainer(voxels))
        } else {
            None
        }
    }

    /// The voxel stored at a position.
    pub fn at(&self, pos: InChunkPos) -> (r: Voxel)
        requires
            self.wf(),
            pos.wf(),
        ensures
            r == self@[pos.index_spec()],
    {
        self.0[pos.index()]
    }

    /// Replaces the voxel stored at a position.
    pub fn set(&mut self, pos: InChunkPos, voxel: Voxel)
        requires
            old(self).wf(),
            pos.wf(),
        ensures
            final(self)@ == old(self)@.update(pos.index_spec(), voxel),
            final(self).wf(),
    {
        let i = pos.index();
        self.0.set(i, voxel);
    }

    /// An independent copy holding the same voxels.
    pub fn duplicate(&self) -> (r: Self)
        ensures
            r@ == self@,
    {
        VoxelContainer(self.0.clone())
    }
}

} // verus!
