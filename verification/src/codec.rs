//! The canonical byte format for persisted voxel data.
//!
//! A container is one byte per voxel. A region file is a version byte
//! followed by its chunk slots in order: a `0` tag for an empty slot, or a
//! `1` tag followed by the chunk's container bytes.

use crate::container::VoxelContainer;
use crate::voxels::Voxel;
use crate::CHUNK_CUBE;
use vstd::prelude::*;

verus! {

/// The version byte at the start of every region file.
pub const REGION_FORMAT_VERSION: u8 = 1;

/// The bytes a voxel sequence serializes to: one byte per voxel.
pub open spec fn container_bytes_spec(s: Seq<Voxel>) -> Seq<u8> {
    Seq::new(s.len(), |i: int| s[i].encode_spec())
}

/// The voxel sequence a byte sequence parses to: defined exactly when the
/// length is one chunk and every byte is a valid voxel.
pub open spec fn decode_container_spec(bs: Seq<u8>) -> Option<Seq<Voxel>> {
    if bs.len() == CHUNK_CUBE && (forall|i: int|
        0 <= i < bs.len() ==> Voxel::decode_spec(#[trigger] bs[i]) is Some) {
        Some(Seq::new(bs.len(), |i: int| Voxel::decode_spec(bs[i]).unwrap()))
    } else {
        None
    }
}

/// Container round-trip: serializing a full voxel array and parsing the
/// bytes gives the identical array back, whatever the fill pattern.
pub proof fn lemma_container_round_trip(s: Seq<Voxel>)
    requires
        s.len() == CHUNK_CUBE,
    ensures
        decode_container_spec(container_bytes_spec(s)) == Some(s),
{
    let bs = container_bytes_spec(s);
    assert forall|i: int| 0 <= i < bs.len() implies Voxel::decode_spec(#[trigger] bs[i]) is Some by {
        s[i].lemma_encode_decode();
    }
    let d = decode_container_spec(bs).unwrap();
    assert forall|i: int| 0 <= i < s.len() implies d[i] == s[i] by {
        s[i].lemma_encode_decode();
    }
    assert(d =~= s);
}

/// A valid voxel byte re-encodes to itself.
pub proof fn lemma_decode_encode(b: u8)
    requires
        Voxel::decode_spec(b) is Some,
    ensures
        Voxel::decode_spec(b).unwrap().encode_spec() == b,
{
}

/// Serializes a container, one byte per voxel.
pub fn encode_container(c: &VoxelContainer) -> (r: Vec<u8>)
    requires
        c.wf(),
    ensures
        r@ == container_bytes_spec(c@),
{
    let mut out: Vec<u8> = Vec::new();
    let mut i: usize = 0;
    while i < c.0.len()
        invariant
            c.wf(),
            i <= c@.len(),
            out@.len() == i,
            forall|j: int| 0 <= j < i ==> out@[j] == container_bytes_spec(c@)[j],
        decreases c@.len() - i,
    {
        out.push(c.0[i].encode());
        i += 1;
    }
    proof {
        assert(out@ =~= container_bytes_spec(c@));
    }
    out
}

/// Parses one container out of `bytes` starting at `start`; rejects any
/// byte that is not a voxel.
pub fn decode_container(bytes: &Vec<u8>, start: usize) -> (r: Option<VoxelContainer>)
    requires
        start + CHUNK_CUBE <= bytes@.len(),
    ensures
        r matches Some(c) ==> c.wf() && Some(c@) == decode_container_spec(
            bytes@.subrange(start as int, start + CHUNK_CUBE),
        ),
        r is None <==> decode_container_spec(bytes@.subrange(start as int, start + CHUNK_CUBE))
            is None,
{
    let ghost window = bytes@.subrange(start as int, start + CHUNK_CUBE);
    let blen = bytes.len();
    let mut voxels: Vec<Voxel> = Vec::new();
    let mut i: usize = 0;
    while i < CHUNK_CUBE as usize
        invariant
            start + CHUNK_CUBE <= bytes@.len(),
            blen == bytes@.len(),
            window == bytes@.subrange(start as int, start + CHUNK_CUBE),
            i <= CHUNK_CUBE,
            voxels@.len() == i,
            forall|j: int| 0 <= j < i ==> Voxel::decode_spec(#[trigger] window[j]) == Some(
                voxels@[j],
            ),
        decreases CHUNK_CUBE - i,
    {
        let b = bytes[start + i];
        proof {
            assert(window[i as int] == bytes@[start + i]);
        }
        match Voxel::decode(b) {
            Some(v) => voxels.push(v),
            None => {
                return None;
            },
        }
        i += 1;
    }
    let c = match VoxelContainer::from_voxels(voxels) {
        Some(c) => c,
        None => {
            proof {
                assert(false);
            }
            return None;
        },
    };
    proof {
        let d = decode_container_spec(window);
        assert(d is Some);
        assert(c@ =~= d.unwrap());
    }
    Some(c)
}

/// The bytes one region slot serializes to.
pub open spec fn slot_bytes_spec(o: Option<Seq<Voxel>>) -> Seq<u8> {
    match o {
        None => seq![0u8],
        Some(s) => seq![1u8] + container_bytes_spec(s),
    }
}

/// The bytes a sequence of region slots serializes to.
pub open spec fn region_bytes_spec(slots: Seq<Option<Seq<Voxel>>>) -> Seq<u8>
    decreases slots.len(),
{
    if slots.len() == 0 {
        Seq::empty()
    } else {
        region_bytes_spec(slots.drop_last()) + slot_bytes_spec(slots.last())
    }
}

/// The full file image of a region: version byte, then the slots.
pub open spec fn region_file_bytes_spec(slots: Seq<Option<Seq<Voxel>>>) -> Seq<u8> {
    seq![REGION_FORMAT_VERSION] + region_bytes_spec(slots)
}

/// The serialized bytes of the slots from index `n` on.
pub open spec fn region_bytes_from(slots: Seq<Option<Seq<Voxel>>>, n: int) -> Seq<u8>
    decreases slots.len() - n,
{
    if n < 0 || n >= slots.len() {
        Seq::empty()
    } else {
        slot_bytes_spec(slots[n]) + region_bytes_from(slots, n + 1)
    }
}

/// Every slot serializes to at least its tag byte; a filled slot to the
/// tag plus one whole container.
pub proof fn lemma_slot_bytes_len(o: Option<Seq<Voxel>>)
    ensures
        o is None ==> slot_bytes_spec(o).len() == 1,
        o matches Some(s) ==> slot_bytes_spec(o).len() == 1 + s.len(),
{
}

/// A slot sequence serializes to the bytes of any prefix followed by the
/// bytes of the rest.
pub proof fn lemma_region_bytes_split(slots: Seq<Option<Seq<Voxel>>>, n: int)
    requires
        0 <= n <= slots.len(),
    ensures
        region_bytes_spec(slots) == region_bytes_spec(slots.take(n)) + region_bytes_from(
            slots,
            n,
        ),
    decreases slots.len() - n,
{
    if n == slots.len() {
        assert(slots.take(n) =~= slots);
        assert(region_bytes_spec(slots) =~= region_bytes_spec(slots.take(n))
            + region_bytes_from(slots, n));
    } else {
        lemma_region_bytes_split(slots, n + 1);
        lemma_region_bytes_step(slots, n);
        assert(region_bytes_spec(slots) =~= region_bytes_spec(slots.take(n))
            + region_bytes_from(slots, n)) by {
            assert((region_bytes_spec(slots.take(n)) + slot_bytes_spec(slots[n]))
                + region_bytes_from(slots, n + 1) =~= region_bytes_spec(slots.take(n)) + (
            slot_bytes_spec(slots[n]) + region_bytes_from(slots, n + 1)));
        }
    }
}

/// Serialization consumes slots from the front: the bytes of `n + 1` slots
/// are the bytes of the first `n` followed by the bytes of the last.
pub proof fn lemma_region_bytes_step(slots: Seq<Option<Seq<Voxel>>>, n: int)
    requires
        0 <= n < slots.len(),
    ensures
        region_bytes_spec(slots.take(n + 1)) == region_bytes_spec(slots.take(n))
            + slot_bytes_spec(slots[n]),
{
    let t = slots.take(n + 1);
    assert(t.drop_last() =~= slots.take(n));
    assert(t.last() == slots[n]);
}

} // verus!
