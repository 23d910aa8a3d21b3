//! The voxel value type: the kinds of block a chunk cell can hold.

use vstd::prelude::*;

verus! {

/// One voxel's block kind.
#[derive(Debug, Copy, Clone, PartialEq, Eq, Structural)]
pub enum Voxel {
    Air,
    Stone,
    Grass,
    Dirt,
}

impl Default for Voxel {
    fn default() -> (r: Self)
        ensures
            r == Voxel::Air,
    {
        Voxel::Air
    }
}

impl Voxel {
    /// Whether a face of a neighboring voxel behind this one is hidden.
    /// Every kind but air culls.
    pub fn does_cull_as_solid(&self) -> (r: bool)
        ensures
            r == (*self != Voxel::Air),
    {
        *self != Voxel::Air
    }

    /// The index of this voxel's tile in the texture atlas.
    pub fn atlas_index(&self) -> (r: u32)
        ensures
            r == self.atlas_index_spec(),
    {
        match *self {
            Voxel::Air => 0,
            Voxel::Stone => 1,
            Voxel::Grass => 0,
            Voxel::Dirt => 2,
        }
    }

    /// The atlas tile of each voxel kind.
    pub open spec fn atlas_index_spec(self) -> u32 {
        match self {
            Voxel::Air => 0,
            Voxel::Stone => 1,
            Voxel::Grass => 0,
            Voxel::Dirt => 2,
        }
    }

    /// The byte that stands for this voxel in the persisted region format.
    pub open spec fn encode_spec(self) -> u8 {
        match self {
            Voxel::Air => 0,
            Voxel::Stone => 1,
            Voxel::Grass => 2,
            Voxel::Dirt => 3,
        }
    }

    /// The voxel a persisted byte stands for, if any.
    pub open spec fn decode_spec(b: u8) -> Option<Voxel> {
        match b {
            0u8 => Some(Voxel::Air),
            1u8 => Some(Voxel::Stone),
            2u8 => Some(Voxel::Grass),
            3u8 => Some(Voxel::Dirt),
            _ => None,
        }
    }

    /// Encoding a voxel and decoding the byte gives the voxel back.
    pub proof fn lemma_encode_decode(self)
        ensures
            Self::decode_spec(self.encode_spec()) == Some(self),
    {
    }

    pub fn encode(self) -> (r: u8)
        ensures
            r == self.encode_spec(),
    {
        match self {
            Voxel::Air => 0,
            Voxel::Stone => 1,
            Voxel::Grass => 2,
            Voxel::Dirt => 3,
        }
    }

    pub fn decode(b: u8) -> (r: Option<Voxel>)
        ensures
            r == Self::decode_spec(b),
    {
        match b {
            0u8 => Some(Voxel::Air),
            1u8 => Some(Voxel::Stone),
            2u8 => Some(Voxel::Grass),
            3u8 => Some(Voxel::Dirt),
            _ => None,
        }
    }
}

} // verus!
