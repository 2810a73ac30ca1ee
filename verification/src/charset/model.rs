//! The mathematical model of a set of bytes: a sequence of bits, one per
//! byte value, and the set of the values whose bit is on.

use vstd::prelude::*;

verus! {

/// How many of the bits of `s` are on.
pub open spec fn count_ones(s: Seq<bool>) -> nat
    decreases s.len(),
{
    if s.len() == 0 {
        0
    } else {
        count_ones(s.drop_last()) + if s.last() { 1nat } else { 0nat }
    }
}

/// The byte values whose bit is on in `bits`.
pub open spec fn members(bits: Seq<bool>) -> Set<u8> {
    Set::new(|b: u8| (b as int) < bits.len() && bits[b as int])
}

/// `len` bits, all off.
pub open spec fn all_clear(len: nat) -> Seq<bool> {
    Seq::new(len, |i: int| false)
}

/// Every bit of `bits` flipped.
pub open spec fn flipped(bits: Seq<bool>) -> Seq<bool> {
    Seq::new(bits.len(), |i: int| !bits[i])
}

/// Bitwise OR of `a` with `b`, where `b` counts as off beyond its end.
pub open spec fn merged(a: Seq<bool>, b: Seq<bool>) -> Seq<bool> {
    Seq::new(a.len(), |i: int| a[i] || (i < b.len() && b[i]))
}

/// Bitwise AND of `a` with `b`, where `b` counts as off beyond its end.
pub open spec fn masked(a: Seq<bool>, b: Seq<bool>) -> Seq<bool> {
    Seq::new(a.len(), |i: int| a[i] && i < b.len() && b[i])
}

/// The bits of a set of bytes over the first `width` byte values: the answer
/// of a membership test for each value in turn.
pub open spec fn membership_bits(s: Set<u8>, width: nat) -> Seq<bool> {
    Seq::new(width, |i: int| s.contains(i as u8))
}

/// Tells whether every member of `s` is below 128.
pub open spec fn fits_small(s: Set<u8>) -> bool {
    forall|b: u8| s.contains(b) ==> b < 128
}

/// The number of bits that are on is the number of members.
pub proof fn lemma_members_len(bits: Seq<bool>)
    requires
        bits.len() <= 256,
    ensures
        members(bits).finite(),
        members(bits).len() == count_ones(bits),
    decreases bits.len(),
{
    if bits.len() == 0 {
        assert(members(bits) =~= Set::<u8>::empty());
    } else {
        let init = bits.drop_last();
        lemma_members_len(init);
        let top = (bits.len() - 1) as u8;
        if bits.last() {
            assert(members(bits) =~= members(init).insert(top));
            assert(!members(init).contains(top));
        } else {
            assert(members(bits) =~= members(init));
        }
    }
}

/// No more bits are on than there are bits.
pub proof fn lemma_count_bound(bits: Seq<bool>)
    ensures
        count_ones(bits) <= bits.len(),
    decreases bits.len(),
{
    if bits.len() > 0 {
        lemma_count_bound(bits.drop_last());
    }
}

/// A bit and its flipped bit are never both on, and one of them is.
pub proof fn lemma_count_flipped(bits: Seq<bool>)
    ensures
        count_ones(flipped(bits)) + count_ones(bits) == bits.len(),
    decreases bits.len(),
{
    if bits.len() > 0 {
        lemma_count_flipped(bits.drop_last());
        assert(flipped(bits).drop_last() =~= flipped(bits.drop_last()));
    }
}

/// No bit is counted exactly when every bit is off.
pub proof fn lemma_count_zero(bits: Seq<bool>)
    ensures
        count_ones(bits) == 0 <==> (forall|i: int| 0 <= i < bits.len() ==> !bits[i]),
    decreases bits.len(),
{
    if bits.len() > 0 {
        let init = bits.drop_last();
        lemma_count_zero(init);
        if count_ones(bits) == 0 {
            assert forall|i: int| 0 <= i < bits.len() implies !bits[i] by {
                if i < init.len() {
                    assert(init[i] == bits[i]);
                }
            }
        } else if forall|i: int| 0 <= i < bits.len() ==> !bits[i] {
            assert forall|i: int| 0 <= i < init.len() implies !init[i] by {
                assert(init[i] == bits[i]);
            }
        }
    }
}

/// Counting the bits below `k` and those from `k` on counts every bit once.
pub proof fn lemma_count_split(bits: Seq<bool>, k: int)
    requires
        0 <= k <= bits.len(),
    ensures
        count_ones(bits) == count_ones(bits.subrange(0, k)) + count_ones(
            bits.subrange(k, bits.len() as int),
        ),
    decreases bits.len(),
{
    let n = bits.len() as int;
    if k == n {
        assert(bits.subrange(0, k) =~= bits);
        assert(bits.subrange(k, n).len() == 0);
    } else {
        let init = bits.drop_last();
        lemma_count_split(init, k);
        assert(init.subrange(0, k) =~= bits.subrange(0, k));
        assert(init.subrange(k, n - 1) =~= bits.subrange(k, n).drop_last());
    }
}

/// Turning on one bit adds its byte value to the members.
pub proof fn lemma_members_update(bits: Seq<bool>, k: int)
    requires
        0 <= k < bits.len() <= 256,
    ensures
        members(bits.update(k, true)) == members(bits).insert(k as u8),
{
    assert(members(bits.update(k, true)) =~= members(bits).insert(k as u8));
}

} // verus!
