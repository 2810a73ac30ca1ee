//! The bit vector that backs a set, and what is taken on trust about it.
//!
//! Every function of this file is a thin call into the `bitvec` crate. Its
//! contract is believed, not proved: it restates what that crate documents.

use crate::charset::model::all_clear;
use crate::charset::model::count_ones;
use crate::charset::model::flipped;
use crate::charset::model::masked;
use crate::charset::model::merged;
use bitvec::order::Lsb0;
use bitvec::vec::BitVec;
use vstd::prelude::*;

verus! {

/// A `bitvec::vec::BitVec` over bytes, least significant bit first. Verus
/// sees nothing inside it: the parameters of `BitVec` are bound by traits of
/// `bitvec`, so the type is held whole behind this struct.
#[verifier::external_body]
pub struct Bits {
    inner: BitVec<u8, Lsb0>,
}

/// The bits that a bit vector holds, in index order.
pub uninterp spec fn bit_seq(v: Bits) -> Seq<bool>;

/// `BitVec::repeat(false, len)`: a vector of `len` bits, all off. The length
/// asked for stays far below the longest that a bit vector can encode.
#[verifier::external_body]
pub(crate) fn cleared(len: usize) -> (v: Bits)
    requires
        len <= 256,
    ensures
        bit_seq(v) == all_clear(len as nat),
{
    Bits { inner: BitVec::repeat(false, len) }
}

/// `BitVec::len`: the number of bits held.
#[verifier::external_body]
pub(crate) fn length(v: &Bits) -> (n: usize)
    ensures
        n == bit_seq(*v).len(),
{
    v.inner.len()
}

/// Indexing a bit vector by `usize`: the bit at `index`, which must lie
/// within the vector.
#[verifier::external_body]
pub(crate) fn bit_at(v: &Bits, index: usize) -> (bit: bool)
    requires
        index < bit_seq(*v).len(),
    ensures
        bit == bit_seq(*v)[index as int],
{
    v.inner[index]
}

/// `BitSlice::set`: writes `value` at `index`, which must lie within the
/// vector, and leaves every other bit as it was.
#[verifier::external_body]
pub(crate) fn set_bit(v: &mut Bits, index: usize, value: bool)
    requires
        index < bit_seq(*old(v)).len(),
    ensures
        bit_seq(*final(v)) == bit_seq(*old(v)).update(index as int, value),
{
    v.inner.set(index, value);
}

/// Indexing a bit vector by a range, then `BitSlice::count_ones`: the number
/// of bits that are on among those from `low` up to, not including, `high`.
#[verifier::external_body]
pub(crate) fn count_between(v: &Bits, low: usize, high: usize) -> (n: usize)
    requires
        low <= high <= bit_seq(*v).len(),
    ensures
        n == count_ones(bit_seq(*v).subrange(low as int, high as int)),
{
    v.inner[low..high].count_ones()
}

/// Indexing a bit vector by a range, then `BitSlice::to_bitvec`: a new vector
/// that holds the bits from `low` up to, not including, `high`.
#[verifier::external_body]
pub(crate) fn copy_between(v: &Bits, low: usize, high: usize) -> (part: Bits)
    requires
        low <= high <= bit_seq(*v).len(),
    ensures
        bit_seq(part) == bit_seq(*v).subrange(low as int, high as int),
{
    Bits { inner: v.inner[low..high].to_bitvec() }
}

/// `|=` between two bit vectors: each bit of `v` becomes the OR of itself and
/// the bit of `other` at the same index. The length of `v` stays; where
/// `other` is shorter, the bits of `v` beyond it stay too. No pair of
/// vectors makes it panic.
#[verifier::external_body]
pub(crate) fn or_assign(v: &mut Bits, other: Bits)
    ensures
        bit_seq(*final(v)) == merged(bit_seq(*old(v)), bit_seq(other)),
    no_unwind
{
    v.inner |= other.inner;
}

/// `&=` between two bit vectors: each bit of `v` becomes the AND of itself
/// and the bit of `other` at the same index. The length of `v` stays; where
/// `other` is shorter, the bits of `v` beyond it are turned off.
#[verifier::external_body]
pub(crate) fn and_assign(v: &mut Bits, other: Bits)
    ensures
        bit_seq(*final(v)) == masked(bit_seq(*old(v)), bit_seq(other)),
{
    v.inner &= other.inner;
}

/// `!` on a bit vector: the same vector with every bit flipped.
#[verifier::external_body]
pub(crate) fn not(v: Bits) -> (inverse: Bits)
    ensures
        bit_seq(inverse) == flipped(bit_seq(v)),
{
    Bits { inner: !v.inner }
}

} // verus!
