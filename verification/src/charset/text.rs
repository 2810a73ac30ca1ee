//! The textual form of a set: its runs of consecutive members, in ascending
//! order, between braces.

use vstd::prelude::*;

verus! {

/// The character of the decimal digit `d`.
pub open spec fn digit(d: nat) -> char {
    if d == 0 {
        '0'
    } else if d == 1 {
        '1'
    } else if d == 2 {
        '2'
    } else if d == 3 {
        '3'
    } else if d == 4 {
        '4'
    } else if d == 5 {
        '5'
    } else if d == 6 {
        '6'
    } else if d == 7 {
        '7'
    } else if d == 8 {
        '8'
    } else {
        '9'
    }
}

/// `n` in decimal, without sign or leading zeros.
pub open spec fn decimal(n: nat) -> Seq<char>
    decreases n,
{
    if n < 10 {
        seq![digit(n)]
    } else {
        decimal(n / 10).push(digit(n % 10))
    }
}

/// What stands for the upper edge of the byte range: the one character
/// U+00FF.
pub open spec fn edge_mark() -> Seq<char> {
    seq!['\u{ff}']
}

/// The text of the byte value `value` where it stands alone: the edge mark
/// for 255, decimal otherwise.
pub open spec fn value_text(value: int) -> Seq<char> {
    if value == 255 {
        edge_mark()
    } else {
        decimal(value as nat)
    }
}

/// The text of the upper bound of a run whose last member is `last`: one past
/// it in decimal, and the edge mark where that would leave the byte range.
pub open spec fn bound_text(last: int) -> Seq<char> {
    if last == 255 {
        edge_mark()
    } else {
        decimal((last + 1) as nat)
    }
}

/// Tells whether a run of members starts at `at`.
pub open spec fn starts_run(bits: Seq<bool>, at: int) -> bool {
    bits[at] && (at == 0 || !bits[at - 1])
}

/// Tells whether a run of members ends at `at`.
pub open spec fn ends_run(bits: Seq<bool>, at: int) -> bool {
    bits[at] && (at + 1 == bits.len() || !bits[at + 1])
}

/// Tells whether some bit below `at` is on.
pub open spec fn any_before(bits: Seq<bool>, at: int) -> bool {
    exists|j: int| 0 <= j < at && bits[j]
}

/// What the byte value `at` adds to the text. Where a run starts: a comma if
/// a run came before, then the value. Where a run of two or more starts, two
/// dots follow the value; where it ends, its upper bound. Nothing elsewhere.
pub open spec fn piece(bits: Seq<bool>, at: int) -> Seq<char> {
    let comma = if any_before(bits, at) {
        seq![',']
    } else {
        Seq::<char>::empty()
    };
    if starts_run(bits, at) && ends_run(bits, at) {
        comma + value_text(at)
    } else if starts_run(bits, at) {
        comma + decimal(at as nat) + seq!['.', '.']
    } else if ends_run(bits, at) {
        bound_text(at)
    } else {
        Seq::<char>::empty()
    }
}

/// The pieces of the byte values below `upto`, in ascending order.
pub open spec fn pieces(bits: Seq<bool>, upto: int) -> Seq<char>
    decreases upto,
{
    if upto <= 0 {
        Seq::<char>::empty()
    } else {
        pieces(bits, upto - 1) + piece(bits, upto - 1)
    }
}

/// The text of the set with the bits `bits`: a single member as its value, a
/// run of two or more as its first member, two dots and one past its last
/// member, the runs separated by commas, all between braces.
pub open spec fn set_text(bits: Seq<bool>) -> Seq<char> {
    seq!['{'] + pieces(bits, bits.len() as int) + seq!['}']
}

/// `u8::to_string`: the value in decimal, without sign or leading zeros.
#[verifier::external_body]
pub(crate) fn decimal_text(value: u8) -> (text: String)
    ensures
        text@ == decimal(value as nat),
{
    value.to_string()
}

/// One more bit looked at: a bit is on below `at + 1` when one is below `at`
/// or the bit at `at` is.
pub proof fn lemma_any_before_step(bits: Seq<bool>, at: int)
    requires
        0 <= at < bits.len(),
    ensures
        any_before(bits, at + 1) == (any_before(bits, at) || bits[at]),
{
    if any_before(bits, at + 1) {
        let j = choose|j: int| 0 <= j < at + 1 && bits[j];
        if j < at {
            assert(any_before(bits, at));
        }
    }
    if any_before(bits, at) {
        let j = choose|j: int| 0 <= j < at && bits[j];
        assert(0 <= j < at + 1 && bits[j]);
    }
    if bits[at] {
        assert(0 <= at < at + 1 && bits[at]);
    }
}

} // verus!
