//! Laws that relate the operations on sets to each other.

use crate::charset::model::count_ones;
use crate::charset::model::fits_small;
use crate::charset::model::flipped;
use crate::charset::model::lemma_count_split;
use crate::charset::model::lemma_count_zero;
use crate::charset::model::lemma_members_len;
use crate::charset::model::members;
use crate::charset::model::membership_bits;
use crate::charset::NormalSet;
use crate::charset::SmallSet;
use vstd::prelude::*;

verus! {

/// The complement of the complement of a set has the very bits of the set,
/// and so the same members.
pub proof fn lemma_complement_twice(s: NormalSet, once: NormalSet, twice: NormalSet)
    requires
        once.bits() == flipped(s.bits()),
        twice.bits() == flipped(once.bits()),
    ensures
        twice.bits() == s.bits(),
        twice@ == s@,
{
    assert(flipped(flipped(s.bits())) =~= s.bits());
}

/// A set has only members below 128 exactly when its projection on the
/// values below 128 has as many members as the set itself.
pub proof fn lemma_small_keeps_size(s: NormalSet, small: SmallSet)
    requires
        s.bits().len() == 256,
        small.bits() == s.bits().subrange(0, 128),
    ensures
        s@.finite(),
        small@.finite(),
        fits_small(s@) <==> small@.len() == s@.len(),
{
    let all = s.bits();
    let upper = all.subrange(128, 256);
    lemma_members_len(all);
    lemma_members_len(small.bits());
    lemma_count_split(all, 128);
    lemma_count_zero(upper);
    if count_ones(upper) == 0 {
        assert forall|b: u8| s@.contains(b) implies b < 128 by {
            if b >= 128 {
                assert(upper[b - 128] == all[b as int]);
            }
        }
    } else {
        let i = choose|i: int| 0 <= i < upper.len() && upper[i];
        assert(s@.contains((i + 128) as u8));
    }
}

/// The membership tests of the byte values below the width of a set, added
/// up with one for each that succeeds, give the number of its members.
pub proof fn lemma_size_sums_membership(s: Set<u8>, width: nat)
    requires
        width <= 256,
        forall|b: u8| s.contains(b) ==> b < width,
    ensures
        s.finite(),
        count_ones(membership_bits(s, width)) == s.len(),
{
    let bits = membership_bits(s, width);
    lemma_members_len(bits);
    assert(members(bits) =~= s);
}

} // verus!
