//! Region-based persistence: regions group chunks into one serialized,
//! compressed unit, and the region handler keeps resident regions in
//! memory, lazily filling them from decoded file bytes.

use crate::codec::{
    container_bytes_spec, decode_container, encode_container, lemma_region_bytes_step,
    region_bytes_spec, region_file_bytes_spec, slot_bytes_spec, REGION_FORMAT_VERSION,
};
use crate::container::VoxelContainer;
use crate::gzip::{gunzip_of, gzip_compress, gzip_decompress, gzip_of};
use crate::ivec::UVec3;
use crate::pos::{in_region_offset, region_of_chunk, ChunkPos, InRegionChunkPos, RegionPos};
use crate::posmap::PosMap;
use crate::voxels::Voxel;
use crate::{CHUNK_CUBE, REGION_CUBE, REGION_SQUARE, REGION_WIDTH};
use vstd::prelude::*;

verus! {

/// A chunk slot with the container abstracted to its voxel sequence.
pub open spec fn opt_view(o: Option<VoxelContainer>) -> Option<Seq<Voxel>> {
    match o {
        Some(c) => Some(c@),
        None => None,
    }
}

/// The slot contents of a region, with containers abstracted to their
/// voxel sequences.
pub open spec fn slots_view(s: Seq<Option<VoxelContainer>>) -> Seq<Option<Seq<Voxel>>> {
    s.map_values(|o: Option<VoxelContainer>| opt_view(o))
}

/// Slot sequences of a well-formed region: one per region cell, each held
/// chunk complete.
pub open spec fn wf_slots(slots: Seq<Option<Seq<Voxel>>>) -> bool {
    &&& slots.len() == REGION_CUBE
    &&& forall|i: int|
        0 <= i < slots.len() ==> ((#[trigger] slots[i]) matches Some(s) ==> s.len() == CHUNK_CUBE)
}

/// An all-empty region's slots.
pub open spec fn empty_slots() -> Seq<Option<Seq<Voxel>>> {
    Seq::new(REGION_CUBE as nat, |i: int| None)
}

/// A fixed-size array of chunk slots; unloaded chunks are `None`.
#[derive(Debug)]
pub struct VoxelRegion {
    pub chunks: Vec<Option<VoxelContainer>>,
}

impl View for VoxelRegion {
    type V = Seq<Option<Seq<Voxel>>>;

    open spec fn view(&self) -> Seq<Option<Seq<Voxel>>> {
        slots_view(self.chunks@)
    }
}

impl VoxelRegion {
    pub open spec fn wf(self) -> bool {
        wf_slots(self@)
    }

    /// A region with every chunk slot empty.
    pub fn new_empty() -> (r: Self)
        ensures
            r.wf(),
            r@ == empty_slots(),
    {
        let mut chunks: Vec<Option<VoxelContainer>> = Vec::new();
        let mut i: usize = 0;
        while i < REGION_CUBE as usize
            invariant
                i <= REGION_CUBE,
                chunks@.len() == i,
                forall|j: int| 0 <= j < i ==> chunks@[j] is None,
            decreases REGION_CUBE - i,
        {
            chunks.push(None);
            i += 1;
        }
        let r = VoxelRegion { chunks };
        proof {
            assert(r@ =~= empty_slots());
        }
        r
    }

    /// The chunk stored in a slot, if any.
    pub fn chunk(&self, pos: InRegionChunkPos) -> (r: Option<&VoxelContainer>)
        requires
            self.wf(),
            pos.wf(),
        ensures
            match r {
                Some(c) => self@[pos.index_spec()] == Some(c@),
                None => self@[pos.index_spec()] is None,
            },
    {
        self.chunks[pos.index()].as_ref()
    }

    /// Stores or clears the chunk in a slot.
    pub fn set_chunk(&mut self, pos: InRegionChunkPos, chunk: Option<VoxelContainer>)
        requires
            old(self).wf(),
            pos.wf(),
            chunk matches Some(c) ==> c.wf(),
        ensures
            final(self).wf(),
            final(self)@ == old(self)@.update(pos.index_spec(), opt_view(chunk)),
    {
        let ghost target = old(self)@.update(pos.index_spec(), opt_view(chunk));
        let i = pos.index();
        self.chunks.set(i, chunk);
        proof {
            assert(self@ =~= target);
        }
    }
}

impl Default for VoxelRegion {
    fn default() -> (r: Self)
        ensures
            r.wf(),
            r@ == empty_slots(),
    {
        Self::new_empty()
    }
}

/// Serializes a region: the version byte, then every slot in order.
pub fn encode_region(region: &VoxelRegion) -> (r: Vec<u8>)
    requires
        region.wf(),
    ensures
        r@ == region_file_bytes_spec(region@),
{
    let mut out: Vec<u8> = Vec::new();
    out.push(REGION_FORMAT_VERSION);
    let mut i: usize = 0;
    proof {
        assert(out@ =~= seq![REGION_FORMAT_VERSION] + region_bytes_spec(region@.take(0)));
    }
    while i < REGION_CUBE as usize
        invariant
            region.wf(),
            i <= REGION_CUBE,
            out@ == seq![REGION_FORMAT_VERSION] + region_bytes_spec(region@.take(i as int)),
        decreases REGION_CUBE - i,
    {
        proof {
            lemma_region_bytes_step(region@, i as int);
        }
        match &region.chunks[i] {
            None => {
                out.push(0);
                proof {
                    assert(region@[i as int] is None);
                    assert(out@ =~= seq![REGION_FORMAT_VERSION] + region_bytes_spec(
                        region@.take(i + 1),
                    ));
                }
            },
            Some(c) => {
                out.push(1);
                let mut body = encode_container(c);
                out.append(&mut body);
                proof {
                    assert(region@[i as int] == Some(c@));
                    assert(out@ =~= seq![REGION_FORMAT_VERSION] + region_bytes_spec(
                        region@.take(i + 1),
                    ));
                }
            },
        }
        i += 1;
    }
    proof {
        assert(region@.take(REGION_CUBE as int) =~= region@);
    }
    out
}

/// Where the parser stands inside a valid region image: with the first
/// `i` slots parsed, the byte cursor sits right before the bytes of slot
/// `i`, whose tag and contents there are pinned down.
proof fn lemma_decode_step(bytes: Seq<u8>, slots: Seq<Option<Seq<Voxel>>>, i: int, offset: int)
    requires
        wf_slots(slots),
        bytes == region_file_bytes_spec(slots),
        0 <= i < slots.len(),
        offset == 1 + region_bytes_spec(slots.take(i)).len(),
    ensures
        offset < bytes.len(),
        bytes[offset] == slot_bytes_spec(slots[i])[0],
        slots[i] is None ==> bytes[offset] == 0,
        slots[i] matches Some(s) ==> {
            &&& bytes[offset] == 1
            &&& s.len() == CHUNK_CUBE
            &&& offset + 1 + CHUNK_CUBE <= bytes.len()
            &&& bytes.subrange(offset + 1, offset + 1 + CHUNK_CUBE) == container_bytes_spec(s)
        },
{
    crate::codec::lemma_region_bytes_split(slots, i);
    crate::codec::lemma_slot_bytes_len(slots[i]);
    let prefix = seq![REGION_FORMAT_VERSION] + region_bytes_spec(slots.take(i));
    let tail = crate::codec::region_bytes_from(slots, i);
    assert(bytes =~= prefix + tail);
    assert(prefix.len() == offset);
    assert(tail == slot_bytes_spec(slots[i]) + crate::codec::region_bytes_from(slots, i + 1));
    assert(slot_bytes_spec(slots[i]).len() >= 1);
    assert(bytes[offset] == tail[0]);
    assert(tail[0] == slot_bytes_spec(slots[i])[0]);
    match slots[i] {
        None => {
            assert(slot_bytes_spec(slots[i]) =~= seq![0u8]);
        },
        Some(s) => {
            assert(slot_bytes_spec(slots[i]) == seq![1u8] + container_bytes_spec(s));
            assert(slot_bytes_spec(slots[i])[0] == 1);
            assert(s.len() == CHUNK_CUBE);
            assert(container_bytes_spec(s).len() == CHUNK_CUBE);
            assert(tail.len() >= 1 + CHUNK_CUBE);
            assert(offset + 1 + CHUNK_CUBE <= bytes.len());
            assert forall|j: int| 0 <= j < CHUNK_CUBE implies bytes[offset + 1 + j]
                == container_bytes_spec(s)[j] by {
                assert(bytes[offset + 1 + j] == tail[1 + j]);
                assert(tail[1 + j] == slot_bytes_spec(slots[i])[1 + j]);
                assert(slot_bytes_spec(slots[i])[1 + j] == container_bytes_spec(s)[j]);
            }
            assert(bytes.subrange(offset + 1, offset + 1 + CHUNK_CUBE) =~= container_bytes_spec(
                s,
            ));
        },
    }
}

/// Parses a region file image. Any malformed byte, short read, or
/// trailing garbage yields `None`; a well-formed image always parses,
/// and to exactly the slots it was serialized from — the region-level
/// round trip.
pub fn decode_region(bytes: &Vec<u8>) -> (r: Option<VoxelRegion>)
    ensures
        r matches Some(reg) ==> reg.wf() && bytes@ == region_file_bytes_spec(reg@),
        forall|slots: Seq<Option<Seq<Voxel>>>|
            #![trigger region_file_bytes_spec(slots)]
            wf_slots(slots) && bytes@ == region_file_bytes_spec(slots) ==> (r matches Some(reg)
                && reg@ == slots),
{
    if bytes.len() == 0 {
        proof {
            assert forall|slots: Seq<Option<Seq<Voxel>>>|
                #![trigger region_file_bytes_spec(slots)]
                wf_slots(slots) && bytes@ == region_file_bytes_spec(slots) implies false by {
                assert(region_file_bytes_spec(slots).len() >= 1);
            }
        }
        return None;
    }
    if bytes[0] != REGION_FORMAT_VERSION {
        proof {
            assert forall|slots: Seq<Option<Seq<Voxel>>>|
                #![trigger region_file_bytes_spec(slots)]
                wf_slots(slots) && bytes@ == region_file_bytes_spec(slots) implies false by {
                assert(bytes@[0] == REGION_FORMAT_VERSION);
            }
        }
        return None;
    }
    let mut chunks: Vec<Option<VoxelContainer>> = Vec::new();
    let mut offset: usize = 1;
    let mut i: usize = 0;
    proof {
        assert(bytes@.take(1) =~= seq![REGION_FORMAT_VERSION] + region_bytes_spec(
            slots_view(chunks@),
        ));
        assert forall|slots: Seq<Option<Seq<Voxel>>>|
            #![trigger region_file_bytes_spec(slots)]
            wf_slots(slots) && bytes@ == region_file_bytes_spec(slots) implies slots_view(
            chunks@,
        ) == slots.take(0) by {
            assert(slots_view(chunks@) =~= slots.take(0));
        }
    }
    while i < REGION_CUBE as usize
        invariant
            1 <= offset <= bytes@.len(),
            i <= REGION_CUBE,
            chunks@.len() == i,
            forall|j: int|
                0 <= j < i ==> ((#[trigger] chunks@[j]) matches Some(c) ==> c.wf()),
            bytes@.take(offset as int) == seq![REGION_FORMAT_VERSION] + region_bytes_spec(
                slots_view(chunks@),
            ),
            forall|slots: Seq<Option<Seq<Voxel>>>|
                #![trigger region_file_bytes_spec(slots)]
                wf_slots(slots) && bytes@ == region_file_bytes_spec(slots) ==> slots_view(
                    chunks@,
                ) == slots.take(i as int),
        decreases REGION_CUBE - i,
    {
        let ghost pre_slots = slots_view(chunks@);
        let ghost pre_offset = offset as int;
        proof {
            assert(bytes@.take(pre_offset).len() == pre_offset);
        }
        if offset >= bytes.len() {
            proof {
                assert forall|slots: Seq<Option<Seq<Voxel>>>|
                    #![trigger region_file_bytes_spec(slots)]
                    wf_slots(slots) && bytes@ == region_file_bytes_spec(slots) implies false by {
                    assert(pre_slots == slots.take(i as int));
                    assert(pre_offset == 1 + region_bytes_spec(slots.take(i as int)).len());
                    lemma_decode_step(bytes@, slots, i as int, pre_offset);
                }
            }
            return None;
        }
        let tag = bytes[offset];
        if tag == 0 {
            chunks.push(None);
            offset += 1;
            proof {
                assert(slots_view(chunks@) =~= pre_slots.push(None));
                assert(region_bytes_spec(pre_slots.push(None)) == region_bytes_spec(
                    pre_slots.push(None).drop_last(),
                ) + slot_bytes_spec(pre_slots.push(None).last()));
                assert(pre_slots.push(None).drop_last() =~= pre_slots);
                assert(bytes@.take(offset as int) =~= bytes@.take(pre_offset).push(
                    bytes@[pre_offset],
                ));
                assert(bytes@.take(offset as int) =~= seq![REGION_FORMAT_VERSION]
                    + region_bytes_spec(slots_view(chunks@)));
                assert forall|slots: Seq<Option<Seq<Voxel>>>|
                    #![trigger region_file_bytes_spec(slots)]
                    wf_slots(slots) && bytes@ == region_file_bytes_spec(slots) implies slots_view(
                    chunks@,
                ) == slots.take(i + 1) by {
                    assert(pre_slots == slots.take(i as int));
                    assert(pre_offset == 1 + region_bytes_spec(slots.take(i as int)).len());
                    lemma_decode_step(bytes@, slots, i as int, pre_offset);
                    assert(slots[i as int] is None);
                    assert(slots.take(i + 1) =~= slots.take(i as int).push(slots[i as int]));
                }
            }
        } else if tag == 1 {
            if bytes.len() - offset < 1 + CHUNK_CUBE as usize {
                proof {
                    assert forall|slots: Seq<Option<Seq<Voxel>>>|
                        #![trigger region_file_bytes_spec(slots)]
                        wf_slots(slots) && bytes@ == region_file_bytes_spec(
                            slots,
                        ) implies false by {
                        assert(pre_slots == slots.take(i as int));
                        assert(pre_offset == 1 + region_bytes_spec(slots.take(i as int)).len());
                        lemma_decode_step(bytes@, slots, i as int, pre_offset);
                        assert(slots[i as int] is Some);
                    }
                }
                return None;
            }
            match decode_container(bytes, offset + 1) {
                Some(c) => {
                    chunks.push(Some(c));
                    offset += 1 + CHUNK_CUBE as usize;
                    proof {
                        let window = bytes@.subrange(
                            pre_offset + 1,
                            pre_offset + 1 + CHUNK_CUBE,
                        );
                        assert forall|j: int|
                            0 <= j < CHUNK_CUBE implies container_bytes_spec(c@)[j] == window[j] by {
                            crate::codec::lemma_decode_encode(window[j]);
                        }
                        assert(container_bytes_spec(c@) =~= window);
                        assert(slots_view(chunks@) =~= pre_slots.push(Some(c@)));
                        assert(region_bytes_spec(pre_slots.push(Some(c@)))
                            == region_bytes_spec(pre_slots.push(Some(c@)).drop_last())
                            + slot_bytes_spec(pre_slots.push(Some(c@)).last()));
                        assert(pre_slots.push(Some(c@)).drop_last() =~= pre_slots);
                        assert(bytes@.take(offset as int) =~= bytes@.take(pre_offset) + (seq![
                            1u8,
                        ] + window));
                        assert(bytes@.take(offset as int) =~= seq![REGION_FORMAT_VERSION]
                            + region_bytes_spec(slots_view(chunks@)));
                        assert forall|slots: Seq<Option<Seq<Voxel>>>|
                            #![trigger region_file_bytes_spec(slots)]
                            wf_slots(slots) && bytes@ == region_file_bytes_spec(
                                slots,
                            ) implies slots_view(chunks@) == slots.take(i + 1) by {
                            assert(pre_slots == slots.take(i as int));
                            assert(pre_offset == 1 + region_bytes_spec(
                                slots.take(i as int),
                            ).len());
                            lemma_decode_step(bytes@, slots, i as int, pre_offset);
                            let s = slots[i as int].unwrap();
                            assert(window == container_bytes_spec(s));
                            crate::codec::lemma_container_round_trip(s);
                            assert(c@ == s);
                            assert(slots.take(i + 1) =~= slots.take(i as int).push(
                                slots[i as int],
                            ));
                        }
                    }
                },
                None => {
                    proof {
                        assert forall|slots: Seq<Option<Seq<Voxel>>>|
                            #![trigger region_file_bytes_spec(slots)]
                            wf_slots(slots) && bytes@ == region_file_bytes_spec(
                                slots,
                            ) implies false by {
                            assert(pre_slots == slots.take(i as int));
                            assert(pre_offset == 1 + region_bytes_spec(
                                slots.take(i as int),
                            ).len());
                            lemma_decode_step(bytes@, slots, i as int, pre_offset);
                            let s = slots[i as int].unwrap();
                            let window = bytes@.subrange(
                                pre_offset + 1,
                                pre_offset + 1 + CHUNK_CUBE,
                            );
                            assert(window == container_bytes_spec(s));
                            crate::codec::lemma_container_round_trip(s);
                        }
                    }
                    return None;
                },
            }
        } else {
            proof {
                assert forall|slots: Seq<Option<Seq<Voxel>>>|
                    #![trigger region_file_bytes_spec(slots)]
                    wf_slots(slots) && bytes@ == region_file_bytes_spec(slots) implies false by {
                    assert(pre_slots == slots.take(i as int));
                    assert(pre_offset == 1 + region_bytes_spec(slots.take(i as int)).len());
                    lemma_decode_step(bytes@, slots, i as int, pre_offset);
                }
            }
            return None;
        }
        i += 1;
    }
    if offset != bytes.len() {
        proof {
            assert forall|slots: Seq<Option<Seq<Voxel>>>|
                #![trigger region_file_bytes_spec(slots)]
                wf_slots(slots) && bytes@ == region_file_bytes_spec(slots) implies false by {
                assert(slots_view(chunks@) == slots.take(i as int));
                assert(slots.take(i as int) =~= slots);
                assert(bytes@.take(offset as int).len() == offset);
                assert(bytes@.len() == 1 + region_bytes_spec(slots).len());
            }
        }
        return None;
    }
    let reg = VoxelRegion { chunks };
    proof {
        assert(bytes@.take(offset as int) =~= bytes@);
        assert(reg.wf());
        assert forall|slots: Seq<Option<Seq<Voxel>>>|
            #![trigger region_file_bytes_spec(slots)]
            wf_slots(slots) && bytes@ == region_file_bytes_spec(slots) implies reg@ == slots by {
            assert(reg@ == slots.take(i as int));
            assert(slots.take(i as int) =~= slots);
        }
    }
    Some(reg)
}

/// Serializes and compresses a region into its file image.
pub fn region_to_file_bytes(region: &VoxelRegion) -> (r: Vec<u8>)
    requires
        region.wf(),
    ensures
        r@ == gzip_of(region_file_bytes_spec(region@)),
        gunzip_of(r@) == Some(region_file_bytes_spec(region@)),
{
    let raw = encode_region(region);
    gzip_compress(&raw)
}

/// Decompresses and parses a region file image. A corrupt file yields
/// `None`; callers fall back to regeneration. A file produced by
/// [`region_to_file_bytes`] always parses back to the region it came
/// from: its contract says the file decompresses to the serialized
/// image, and a serialized image always parses to its own slots.
pub fn region_from_file_bytes(bytes: &Vec<u8>) -> (r: Option<VoxelRegion>)
    ensures
        r matches Some(reg) ==> reg.wf() && gunzip_of(bytes@) == Some(
            region_file_bytes_spec(reg@),
        ),
        forall|slots: Seq<Option<Seq<Voxel>>>|
            #![trigger region_file_bytes_spec(slots)]
            wf_slots(slots) && gunzip_of(bytes@) == Some(region_file_bytes_spec(slots)) ==> (
            r matches Some(reg) && reg@ == slots),
{
    match gzip_decompress(bytes) {
        Some(raw) => decode_region(&raw),
        None => None,
    }
}

/// The linear slot index of a chunk within its region.
pub open spec fn region_slot_index(cp: ChunkPos) -> int {
    let o = in_region_offset(cp);
    REGION_SQUARE * o.z + REGION_WIDTH * o.y + o.x
}

/// Keeps the resident regions, keyed by region position.
pub struct RegionHandler {
    pub regions: PosMap<VoxelRegion>,
}

impl RegionHandler {
    pub open spec fn wf(self) -> bool {
        &&& self.regions.wf()
        &&& forall|k: crate::ivec::IVec3|
            self.regions@.contains_key(k) ==> (#[trigger] self.regions@[k]).wf()
    }

    pub open spec fn has_region(self, rp: RegionPos) -> bool {
        self.regions@.contains_key(rp.0)
    }

    pub open spec fn spec_region(self, rp: RegionPos) -> Seq<Option<Seq<Voxel>>> {
        self.regions@[rp.0]@
    }

    /// The voxels persisted for a chunk position, if any.
    pub open spec fn spec_chunk(self, cp: ChunkPos) -> Option<Seq<Voxel>> {
        let rp = region_of_chunk(cp);
        if self.has_region(rp) {
            self.spec_region(rp)[region_slot_index(cp)]
        } else {
            None
        }
    }

    pub fn new() -> (r: Self)
        ensures
            r.wf(),
            forall|rp: RegionPos| !r.has_region(rp),
    {
        RegionHandler { regions: PosMap::new() }
    }

    pub fn region(&self, region_pos: RegionPos) -> (r: Option<&VoxelRegion>)
        requires
            self.wf(),
        ensures
            r matches Some(reg) ==> self.has_region(region_pos) && reg@ == self.spec_region(
                region_pos,
            ),
            r is None ==> !self.has_region(region_pos),
    {
        self.regions.get(region_pos.0)
    }

    /// Makes a region resident, replacing whatever was there.
    pub fn insert_region(&mut self, region_pos: RegionPos, region: VoxelRegion)
        requires
            old(self).wf(),
            region.wf(),
        ensures
            final(self).wf(),
            final(self).regions@ == old(self).regions@.insert(region_pos.0, region),
    {
        self.regions.insert(region_pos.0, region);
    }

    /// The resident voxels for a chunk position, if its region is resident
    /// and the slot is filled.
    pub fn chunk(&self, chunk_pos: ChunkPos) -> (r: Option<&VoxelContainer>)
        requires
            self.wf(),
        ensures
            match r {
                Some(c) => self.spec_chunk(chunk_pos) == Some(c@),
                None => self.spec_chunk(chunk_pos) is None,
            },
    {
        let region_pos = RegionPos::from(chunk_pos);
        match self.regions.get(region_pos.0) {
            Some(region) => region.chunk(InRegionChunkPos::from_world(chunk_pos)),
            None => None,
        }
    }

    /// Writes (or clears) the persisted voxels for a chunk position,
    /// making its region resident if it was not.
    pub fn set_chunk(&mut self, chunk_pos: ChunkPos, chunk: Option<VoxelContainer>)
        requires
            old(self).wf(),
            chunk matches Some(c) ==> c.wf(),
        ensures
            final(self).wf(),
            final(self).spec_chunk(chunk_pos) == opt_view(chunk),
            forall|cp2: ChunkPos|
                cp2 != chunk_pos ==> final(self).spec_chunk(cp2) == old(self).spec_chunk(cp2),
            forall|rp: RegionPos| #[trigger]
                final(self).has_region(rp) == (old(self).has_region(rp) || rp == region_of_chunk(
                    chunk_pos,
                )),
    {
        let region_pos = RegionPos::from(chunk_pos);
        let mut region = match self.regions.remove(region_pos.0) {
            Some(region) => region,
            None => VoxelRegion::new_empty(),
        };
        region.set_chunk(InRegionChunkPos::from_world(chunk_pos), chunk);
        self.regions.insert(region_pos.0, region);
        proof {
            assert forall|cp2: ChunkPos| cp2 != chunk_pos implies self.spec_chunk(cp2) == old(
                self,
            ).spec_chunk(cp2) by {
                lemma_distinct_chunk_slots(chunk_pos, cp2);
            }
        }
    }

    /// Answers whether persisted voxels exist for a chunk, lazily making
    /// the owning region resident first: from the provided file bytes when
    /// the caller found a region file on disk, or as an empty region
    /// otherwise (also when the file bytes are corrupt — regeneration is
    /// the fallback).
    pub fn check_for_chunk(&mut self, chunk_pos: ChunkPos, region_file_bytes: Option<Vec<u8>>)
        -> (r: Option<&VoxelContainer>)
        requires
            old(self).wf(),
        ensures
            final(self).wf(),
            old(self).has_region(region_of_chunk(chunk_pos)) ==> *final(self) == *old(self),
            !old(self).has_region(region_of_chunk(chunk_pos)) ==> {
                &&& final(self).has_region(region_of_chunk(chunk_pos))
                &&& (final(self).spec_region(region_of_chunk(chunk_pos)) == empty_slots()
                    || (region_file_bytes matches Some(b) && gunzip_of(b@) == Some(
                    region_file_bytes_spec(
                        final(self).spec_region(region_of_chunk(chunk_pos)),
                    ),
                )))
                &&& (region_file_bytes is None ==> final(self).spec_region(
                    region_of_chunk(chunk_pos),
                ) == empty_slots())
                &&& forall|rp: RegionPos| #[trigger]
                    final(self).has_region(rp) == (old(self).has_region(rp) || rp
                        == region_of_chunk(chunk_pos))
            },
            match r {
                Some(c) => final(self).spec_chunk(chunk_pos) == Some(c@),
                None => final(self).spec_chunk(chunk_pos) is None,
            },
    {
        let region_pos = RegionPos::from(chunk_pos);
        if !self.regions.contains_key(region_pos.0) {
            let region = match &region_file_bytes {
                Some(bytes) => match region_from_file_bytes(bytes) {
                    Some(region) => region,
                    None => VoxelRegion::new_empty(),
                },
                None => VoxelRegion::new_empty(),
            };
            self.regions.insert(region_pos.0, region);
        }
        self.chunk(chunk_pos)
    }
}

/// Distinct chunk positions either live in distinct regions or occupy
/// distinct slots of the same region.
proof fn lemma_distinct_chunk_slots(a: ChunkPos, b: ChunkPos)
    requires
        a != b,
    ensures
        region_of_chunk(a) != region_of_chunk(b) || region_slot_index(a) != region_slot_index(b),
{
    if region_of_chunk(a) == region_of_chunk(b) && region_slot_index(a) == region_slot_index(b) {
        crate::pos::lemma_chunk_region_round_trip(a);
        crate::pos::lemma_chunk_region_round_trip(b);
        lemma_region_slot_injective(in_region_offset(a), in_region_offset(b));
        assert(a.0.x == b.0.x && a.0.y == b.0.y && a.0.z == b.0.z);
        assert(a.0 == b.0);
        assert(false);
    }
}

/// Distinct in-region offsets have distinct slot indices.
proof fn lemma_region_slot_injective(a: UVec3, b: UVec3)
    requires
        a.x < REGION_WIDTH,
        a.y < REGION_WIDTH,
        a.z < REGION_WIDTH,
        b.x < REGION_WIDTH,
        b.y < REGION_WIDTH,
        b.z < REGION_WIDTH,
        REGION_SQUARE * a.z + REGION_WIDTH * a.y + a.x == REGION_SQUARE * b.z + REGION_WIDTH * b.y
            + b.x,
    ensures
        a == b,
{
    let dx = a.x - b.x;
    let dy = a.y - b.y;
    let dz = a.z - b.z;
    assert(REGION_WIDTH == 16);
    assert(REGION_SQUARE == 256);
    assert(256 * dz + 16 * dy + dx == 0);
    assert(dx == (-16) * (16 * dz + dy));
    let k = 16 * dz + dy;
    if k >= 1 {
        assert((-16) * k <= -16);
        assert(false);
    }
    if k <= -1 {
        assert((-16) * k >= 16);
        assert(false);
    }
    assert(dx == 0 && dy == (-16) * dz);
    if dz >= 1 {
        assert((-16) * dz <= -16);
        assert(false);
    }
    if dz <= -1 {
        assert((-16) * dz >= 16);
        assert(false);
    }
}

} // verus!
