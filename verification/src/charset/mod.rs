//! Sets of byte values, one bit per value.
//!
//! [`NormalSet`] covers every byte value, [`SmallSet`] the lower half only.
//! Both are seen in contracts as the mathematical set of their members.

pub mod bits;
pub mod laws;
pub mod model;
pub mod text;

use crate::charset::bits::and_assign;
use crate::charset::bits::bit_at;
use crate::charset::bits::bit_seq;
use crate::charset::bits::Bits;
use crate::charset::bits::cleared;
use crate::charset::bits::copy_between;
use crate::charset::bits::count_between;
use crate::charset::bits::length;
use crate::charset::bits::not;
use crate::charset::bits::or_assign;
use crate::charset::bits::set_bit;
use crate::charset::model::count_ones;
use crate::charset::model::fits_small;
use crate::charset::model::flipped;
use crate::charset::model::lemma_count_bound;
use crate::charset::model::lemma_count_flipped;
use crate::charset::model::lemma_count_split;
use crate::charset::model::lemma_count_zero;
use crate::charset::model::lemma_members_len;
use crate::charset::model::lemma_members_update;
use crate::charset::model::masked;
use crate::charset::model::members;
use crate::charset::model::membership_bits;
use crate::charset::model::merged;
use crate::charset::text::any_before;
use crate::charset::text::decimal_text;
use crate::charset::text::lemma_any_before_step;
use crate::charset::text::piece;
use crate::charset::text::pieces;
use crate::charset::text::set_text;
use vstd::prelude::*;
use vstd::string::StringExecFns;

verus! {

/// A set of byte values: 256 bits, one for each value.
pub struct NormalSet {
    bits: Bits,
}

/// A set of byte values below 128: 128 bits, one for each value.
pub struct SmallSet {
    bits: Bits,
}

/// What both widths of set offer. The view of a set is the set of its
/// members.
pub trait CharSet: Sized + View<V = Set<u8>> {
    /// The number of byte values that the set has a bit for: it can hold the
    /// values below its width.
    spec fn width() -> nat;

    /// Tells whether `r` is a member.
    fn has(&self, r: u8) -> (found: bool)
        ensures
            found == self@.contains(r),
    ;

    /// The set of the values that occur in `chars`, in any order and any
    /// number of times.
    fn new(chars: &[u8]) -> (s: Self)
        requires
            forall|i: int| 0 <= i < chars@.len() ==> (#[trigger] chars@[i] as nat) < Self::width(),
        ensures
            s@ == chars@.to_set(),
            s@.finite(),
            s@.len() == chars@.to_set().len(),
    ;

    /// The number of members.
    fn size(&self) -> (n: usize)
        ensures
            self@.finite(),
            n == self@.len(),
    ;
}

/// The values of the first `n` items of `chars` are the values of the first
/// `n - 1` and that of the last of them.
proof fn lemma_prefix_values(chars: Seq<u8>, n: int)
    requires
        0 < n <= chars.len(),
    ensures
        chars.take(n).to_set() == chars.take(n - 1).to_set().insert(chars[n - 1]),
{
    let longer = chars.take(n);
    let shorter = chars.take(n - 1);
    assert forall|b: u8| longer.to_set().contains(b) <==> shorter.to_set().insert(
        chars[n - 1],
    ).contains(b) by {
        if longer.contains(b) {
            let j = choose|j: int| 0 <= j < longer.len() && longer[j] == b;
            if j < n - 1 {
                assert(shorter[j] == b);
            }
        }
        if shorter.contains(b) {
            let j = choose|j: int| 0 <= j < shorter.len() && shorter[j] == b;
            assert(longer[j] == b);
        }
        if b == chars[n - 1] {
            assert(longer[n - 1] == b);
        }
    }
    assert(longer.to_set() =~= shorter.to_set().insert(chars[n - 1]));
}

/// A vector of `width` bits in which exactly the values of `chars` are on.
fn bits_of_values(chars: &[u8], width: usize) -> (bits: Bits)
    requires
        width <= 256,
        forall|i: int| 0 <= i < chars@.len() ==> (#[trigger] chars@[i] as nat) < width,
    ensures
        bit_seq(bits).len() == width,
        members(bit_seq(bits)) == chars@.to_set(),
{
    let mut bits = cleared(width);
    let mut i: usize = 0;
    proof {
        assert(members(bit_seq(bits)) =~= chars@.take(0).to_set());
    }
    while i < chars.len()
        invariant
            i <= chars.len(),
            width <= 256,
            forall|i: int| 0 <= i < chars@.len() ==> (#[trigger] chars@[i] as nat) < width,
            bit_seq(bits).len() == width,
            members(bit_seq(bits)) == chars@.take(i as int).to_set(),
        decreases chars.len() - i,
    {
        let value = chars[i];
        proof {
            lemma_members_update(bit_seq(bits), value as int);
            lemma_prefix_values(chars@, i + 1);
        }
        set_bit(&mut bits, value as usize, true);
        i += 1;
    }
    proof {
        assert(chars@.take(chars@.len() as int) =~= chars@);
    }
    bits
}

impl View for NormalSet {
    type V = Set<u8>;

    open spec fn view(&self) -> Set<u8> {
        members(self.bits())
    }
}

impl View for SmallSet {
    type V = Set<u8>;

    open spec fn view(&self) -> Set<u8> {
        members(self.bits())
    }
}

impl SmallSet {
    #[verifier::type_invariant]
    spec fn well_formed(self) -> bool {
        bit_seq(self.bits).len() == 128
    }

    /// The bits of the set in index order: bit `b` is on exactly when the
    /// byte value `b` is a member.
    pub closed spec fn bits(&self) -> Seq<bool> {
        bit_seq(self.bits)
    }
}

impl CharSet for SmallSet {
    open spec fn width() -> nat {
        128
    }

    /// No value from 128 on is ever a member.
    fn has(&self, r: u8) -> (found: bool)
        ensures
            r >= 128 ==> !found,
    {
        proof {
            use_type_invariant(self);
        }
        if (r as usize) < length(&self.bits) {
            bit_at(&self.bits, r as usize)
        } else {
            false
        }
    }

    fn new(chars: &[u8]) -> (s: Self)
        ensures
            s.bits().len() == 128,
            count_ones(s.bits()) == chars@.to_set().len(),
    {
        let bits = bits_of_values(chars, 128);
        proof {
            lemma_members_len(bit_seq(bits));
        }
        SmallSet { bits }
    }

    fn size(&self) -> (n: usize)
        ensures
            n == count_ones(self.bits()),
            n <= 128,
    {
        proof {
            use_type_invariant(self);
            lemma_members_len(bit_seq(self.bits));
            lemma_count_bound(bit_seq(self.bits));
            assert(bit_seq(self.bits).subrange(0, 128) =~= bit_seq(self.bits));
        }
        count_between(&self.bits, 0, 128)
    }
}

impl NormalSet {
    #[verifier::type_invariant]
    spec fn well_formed(self) -> bool {
        bit_seq(self.bits).len() == 256
    }

    /// The bits of the set in index order: bit `b` is on exactly when the
    /// byte value `b` is a member.
    pub closed spec fn bits(&self) -> Seq<bool> {
        bit_seq(self.bits)
    }
}

impl CharSet for NormalSet {
    open spec fn width() -> nat {
        256
    }

    fn has(&self, r: u8) -> (found: bool)
        ensures
            found == self.bits()[r as int],
    {
        proof {
            use_type_invariant(self);
        }
        bit_at(&self.bits, r as usize)
    }

    fn new(chars: &[u8]) -> (s: Self)
        ensures
            s.bits().len() == 256,
            count_ones(s.bits()) == chars@.to_set().len(),
    {
        let bits = bits_of_values(chars, 256);
        proof {
            lemma_members_len(bit_seq(bits));
        }
        NormalSet { bits }
    }

    fn size(&self) -> (n: usize)
        ensures
            n == count_ones(self.bits()),
            n <= 256,
    {
        proof {
            use_type_invariant(self);
            lemma_members_len(bit_seq(self.bits));
            lemma_count_bound(bit_seq(self.bits));
            assert(bit_seq(self.bits).subrange(0, 256) =~= bit_seq(self.bits));
        }
        count_between(&self.bits, 0, 256)
    }
}

impl NormalSet {
    /// Makes `self` the union of itself and `s2` (bitwise OR).
    pub fn add(&mut self, s2: NormalSet)
        ensures
            final(self)@ == old(self)@.union(s2@),
            final(self).bits() == merged(old(self).bits(), s2.bits()),
    {
        proof {
            use_type_invariant(&*self);
            use_type_invariant(&s2);
            assert(members(merged(bit_seq(self.bits), bit_seq(s2.bits))) =~= members(
                bit_seq(self.bits),
            ).union(members(bit_seq(s2.bits))));
        }
        or_assign(&mut self.bits, s2.bits);
    }

    /// The set of the byte values that are not members of `self`.
    pub fn complement(&self) -> (c: NormalSet)
        ensures
            c@ == self@.complement(),
            c.bits() == flipped(self.bits()),
            c@.finite(),
            c@.len() == 256 - self@.len(),
    {
        proof {
            use_type_invariant(self);
        }
        let mut bits = cleared(256);
        let mut i: usize = 0;
        while i < 256
            invariant
                i <= 256,
                bit_seq(self.bits).len() == 256,
                bit_seq(bits).len() == 256,
                forall|k: int| 0 <= k < i ==> bit_seq(bits)[k] == !bit_seq(self.bits)[k],
            decreases 256 - i,
        {
            let bit = bit_at(&self.bits, i);
            set_bit(&mut bits, i, !bit);
            i += 1;
        }
        proof {
            assert(bit_seq(bits) =~= flipped(bit_seq(self.bits)));
            assert(members(bit_seq(bits)) =~= members(bit_seq(self.bits)).complement());
            lemma_count_flipped(bit_seq(self.bits));
            lemma_members_len(bit_seq(self.bits));
            lemma_members_len(bit_seq(bits));
        }
        NormalSet { bits }
    }

    /// Tells whether every member is below 128, so that a [`SmallSet`] can
    /// hold the set.
    pub fn is_small(&self) -> (small: bool)
        ensures
            small == fits_small(self@),
    {
        proof {
            use_type_invariant(self);
            let upper = bit_seq(self.bits).subrange(128, 256);
            lemma_count_zero(upper);
            if count_ones(upper) == 0 {
                assert forall|b: u8| self@.contains(b) implies b < 128 by {
                    if b >= 128 {
                        assert(upper[b - 128] == bit_seq(self.bits)[b as int]);
                    }
                }
            } else {
                let i = choose|i: int| 0 <= i < upper.len() && upper[i];
                assert(self@.contains((i + 128) as u8));
            }
        }
        count_between(&self.bits, 128, 256) == 0
    }

    /// The set of the byte values from `low` to `high`, both included. It is
    /// empty where `low` is above `high`.
    pub fn range(low: u8, high: u8) -> (s: NormalSet)
        ensures
            s@ == Set::new(|b: u8| low <= b <= high),
            s.bits().len() == 256,
            s@.finite(),
            low <= high ==> s@.len() == high - low + 1,
            low > high ==> s@.len() == 0,
    {
        let mut bits = cleared(256);
        let mut i: usize = low as usize;
        proof {
            assert(members(bit_seq(bits)) =~= Set::<u8>::empty());
            assert(members(bit_seq(bits)) =~= Set::new(|b: u8| low <= b < i));
        }
        while i <= high as usize
            invariant
                low <= i <= 256,
                low <= high ==> i <= high + 1,
                low > high ==> i == low,
                bit_seq(bits).len() == 256,
                members(bit_seq(bits)) == Set::new(|b: u8| low <= b < i),
                members(bit_seq(bits)).finite(),
                members(bit_seq(bits)).len() == i - low,
            decreases 256 - i,
        {
            proof {
                lemma_members_update(bit_seq(bits), i as int);
                assert(Set::new(|b: u8| low <= b < i).insert(i as u8) =~= Set::new(
                    |b: u8| low <= b < i + 1,
                ));
            }
            set_bit(&mut bits, i, true);
            i += 1;
        }
        proof {
            assert(Set::new(|b: u8| low <= b < i) =~= Set::new(|b: u8| low <= b <= high));
        }
        NormalSet { bits }
    }

    /// The members of `self` that are below 128, as a [`SmallSet`]. Those from
    /// 128 on are dropped.
    pub fn smallset(&self) -> (small: SmallSet)
        ensures
            small@ == self@.filter(|b: u8| b < 128),
            small.bits() == self.bits().subrange(0, 128),
            small@.finite(),
            small@.len() <= self@.len(),
            (small@.len() == self@.len()) == fits_small(self@),
    {
        proof {
            use_type_invariant(self);
        }
        let bits = copy_between(&self.bits, 0, 128);
        proof {
            let all = bit_seq(self.bits);
            let upper = all.subrange(128, 256);
            assert(members(bit_seq(bits)) =~= self@.filter(|b: u8| b < 128));
            lemma_members_len(all);
            lemma_members_len(bit_seq(bits));
            lemma_count_split(all, 128);
            lemma_count_zero(upper);
            if count_ones(upper) == 0 {
                assert forall|b: u8| self@.contains(b) implies b < 128 by {
                    if b >= 128 {
                        assert(upper[b - 128] == all[b as int]);
                    }
                }
            } else {
                let i = choose|i: int| 0 <= i < upper.len() && upper[i];
                assert(self@.contains((i + 128) as u8));
            }
        }
        SmallSet { bits }
    }

    /// The set as text: its runs of consecutive members in ascending order,
    /// as [`set_text`] lays them out.
    pub fn string(&self) -> (text: String)
        ensures
            text@ == set_text(membership_bits(self@, 256)),
    {
        proof {
            use_type_invariant(self);
            assert(bit_seq(self.bits) =~= membership_bits(self@, 256));
            reveal_strlit("{");
            reveal_strlit("}");
        }
        let ghost bits = bit_seq(self.bits);
        let mut out = String::new();
        out.append("{");
        let mut seen = false;
        let mut b: usize = 0;
        assert(out@ =~= seq!['{'] + pieces(bits, 0));
        while b < 256
            invariant
                b <= 256,
                bits == bit_seq(self.bits),
                bits.len() == 256,
                seen == any_before(bits, b as int),
                out@ == seq!['{'] + pieces(bits, b as int),
            decreases 256 - b,
        {
            let ghost before = out@;
            if self.has(b as u8) {
                let starts = b == 0 || !self.has((b - 1) as u8);
                let ends = b == 255 || !self.has((b + 1) as u8);
                if starts {
                    if seen {
                        out.append(",");
                    }
                    if ends && b == 255 {
                        out.append("\u{ff}");
                    } else {
                        let low = decimal_text(b as u8);
                        out.append(low.as_str());
                        if !ends {
                            out.append("..");
                        }
                    }
                } else if ends {
                    if b == 255 {
                        out.append("\u{ff}");
                    } else {
                        let bound = decimal_text((b + 1) as u8);
                        out.append(bound.as_str());
                    }
                }
            }
            proof {
                lemma_any_before_step(bits, b as int);
                reveal_strlit(",");
                reveal_strlit("..");
                reveal_strlit("\u{ff}");
                assert(","@ =~= seq![',']);
                assert(".."@ =~= seq!['.', '.']);
                assert("\u{ff}"@ =~= seq!['\u{ff}']);
                assert(out@ =~= before + piece(bits, b as int));
                assert(out@ =~= seq!['{'] + pieces(bits, b + 1));
            }
            seen = seen || self.has(b as u8);
            b += 1;
        }
        out.append("}");
        proof {
            assert(out@ =~= set_text(bits));
        }
        out
    }

    /// The members of `self` that are not members of `s2`.
    pub fn sub(&self, s2: NormalSet) -> (d: NormalSet)
        ensures
            d@ == self@.difference(s2@),
            d.bits() == masked(flipped(s2.bits()), self.bits()),
            d@.finite(),
            d@.len() <= self@.len(),
            self@.disjoint(s2@) ==> d.bits() == self.bits() && d@.len() == self@.len(),
    {
        proof {
            use_type_invariant(self);
            use_type_invariant(&s2);
        }
        let ghost taken = bit_seq(s2.bits);
        let mut bits = not(s2.bits);
        and_assign(&mut bits, copy_between(&self.bits, 0, 256));
        proof {
            let kept = bit_seq(self.bits);
            assert(kept.subrange(0, 256) =~= kept);
            assert(members(bit_seq(bits)) =~= members(kept).difference(members(taken)));
            lemma_members_len(kept);
            lemma_members_len(bit_seq(bits));
            vstd::set_lib::lemma_len_difference(members(kept), members(taken));
            if members(kept).disjoint(members(taken)) {
                assert forall|i: int| 0 <= i < 256 implies bit_seq(bits)[i] == kept[i] by {
                    if kept[i] {
                        assert(members(kept).contains(i as u8));
                        assert(!members(taken).contains(i as u8));
                    }
                }
                assert(bit_seq(bits) =~= kept);
            }
        }
        NormalSet { bits }
    }
}

} // verus!
