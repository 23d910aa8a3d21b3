//! Bit buffers for face-occlusion masks, backed by `bitvec`'s `BitVec`.
//!
//! The buffer type is opaque to the verifier; [`bit_seq`] names the bits it
//! holds, and the wrappers below state how each `bitvec` call acts on that
//! sequence.

use vstd::prelude::*;

verus! {

/// The bit buffer used for occlusion masks. `bitvec`'s generic bounds keep
/// the `BitVec` type itself from being declared to the verifier, so the
/// buffer is held in a field the verifier does not look into.
#[verifier::external_body]
#[derive(Debug)]
pub struct BitBuf {
    inner: bitvec::vec::BitVec<usize, bitvec::order::Lsb0>,
}

/// The bits a buffer holds, as a sequence of booleans.
pub uninterp spec fn bit_seq(bv: BitBuf) -> Seq<bool>;

/// Relies on `BitVec::repeat`: a new buffer of `len` copies of `bit`.
#[verifier::external_body]
pub fn bits_repeat(bit: bool, len: usize) -> (r: BitBuf)
    ensures
        bit_seq(r) == Seq::new(len as nat, |i: int| bit),
{
    BitBuf { inner: bitvec::vec::BitVec::repeat(bit, len) }
}

/// Relies on `BitSlice::len`: the number of live bits in the buffer.
#[verifier::external_body]
pub fn bits_len(bv: &BitBuf) -> (r: usize)
    ensures
        r == bit_seq(*bv).len(),
{
    bv.inner.len()
}

/// Relies on `BitSlice`'s `Index<usize>` impl: reads the bit at `i`.
#[verifier::external_body]
pub fn bits_get(bv: &BitBuf, i: usize) -> (r: bool)
    requires
        i < bit_seq(*bv).len(),
    ensures
        r == bit_seq(*bv)[i as int],
{
    bv.inner[i]
}

/// Relies on `BitSlice::set`: writes the bit at `i`, leaving the rest.
#[verifier::external_body]
pub fn bits_set(bv: &mut BitBuf, i: usize, v: bool)
    requires
        i < bit_seq(*old(bv)).len(),
    ensures
        bit_seq(*final(bv)) == bit_seq(*old(bv)).update(i as int, v),
{
    bv.inner.set(i, v);
}

/// Relies on `BitVec`'s `Clone` impl: the copy holds the same bits.
#[verifier::external_body]
pub fn bits_clone(bv: &BitBuf) -> (r: BitBuf)
    ensures
        bit_seq(r) == bit_seq(*bv),
{
    BitBuf { inner: bv.inner.clone() }
}

} // verus!
