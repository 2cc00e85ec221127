//! Modular arithmetic over 32-bit TCP sequence numbers.
//!
//! Sequence numbers live in the wrap-around space of 32-bit integers, so
//! they are never compared with the plain `<` order.  A value `a` is
//! "modularly at most" `b` when the forward distance from `a` to `b`,
//! taken modulo 2^32, is less than half the space.

use vstd::prelude::*;

verus! {

/// One full turn of the 32-bit sequence space.
pub const SEQ_SPACE: u64 = 0x1_0000_0000;

/// Half of the 32-bit sequence space; the comparison horizon.
pub const SEQ_HALF: u64 = 0x8000_0000;

/// `a` precedes or equals `b` in modular order: the wrapped difference
/// `b - a` is in the front half of the sequence space.
pub open spec fn spec_seq_lte(a: u32, b: u32) -> bool {
    (b - a) % (SEQ_SPACE as int) < SEQ_HALF as int
}

/// `a` strictly precedes `b` in modular order.
pub open spec fn spec_seq_lt(a: u32, b: u32) -> bool {
    spec_seq_lte(a, b) && a != b
}

/// Forward distance from `from` to `to`: the wrapped difference when
/// `from` modularly precedes `to`, and otherwise the difference taken
/// after lifting `to` by one full turn of the sequence space.
pub open spec fn spec_seq_distance_forward(from: u32, to: u32) -> u64 {
    if spec_seq_lte(from, to) {
        ((to - from) % (SEQ_SPACE as int)) as u64
    } else {
        (to + SEQ_SPACE - from) as u64
    }
}

/// Modular comparison `a <= b` over the 32-bit wrap-around space.
pub fn seq_lte(a: u32, b: u32) -> (r: bool)
    ensures
        r == spec_seq_lte(a, b),
{
    b.wrapping_sub(a) < SEQ_HALF as u32
}

/// Modular comparison `a < b` over the 32-bit wrap-around space.
pub fn seq_lt(a: u32, b: u32) -> (r: bool)
    ensures
        r == spec_seq_lt(a, b),
{
    let d = b.wrapping_sub(a);
    0 < d && d < SEQ_HALF as u32
}

/// Modular comparison `a > b` over the 32-bit wrap-around space.
pub fn seq_gt(a: u32, b: u32) -> (r: bool)
    ensures
        r == spec_seq_lt(b, a),
{
    let d = a.wrapping_sub(b);
    0 < d && d < SEQ_HALF as u32
}

/// Forward modular distance from `from` to `to`, as the analyzer
/// computes it: the plain difference when `from` modularly precedes
/// `to`, and the wrapped difference otherwise.
pub fn seq_distance_forward(from: u32, to: u32) -> (d: u64)
    ensures
        d == spec_seq_distance_forward(from, to),
{
    if seq_lte(from, to) {
        to.wrapping_sub(from) as u64
    } else {
        ((to as u64) + SEQ_SPACE) - (from as u64)
    }
}

/// The modular order is insensitive to whole turns of the sequence
/// space: truncating `a + k * 2^32` to 32 bits gives the same value as
/// truncating `a`, so every predicate built on the truncations agrees.
pub proof fn lemma_seq_order_wrap_invariant(a: int, b: int, k: int)
    ensures
        ((a + k * (SEQ_SPACE as int)) % (SEQ_SPACE as int)) as u32 == (a % (SEQ_SPACE as int)) as u32,
        spec_seq_lt(
            ((a + k * (SEQ_SPACE as int)) % (SEQ_SPACE as int)) as u32,
            ((b + k * (SEQ_SPACE as int)) % (SEQ_SPACE as int)) as u32,
        ) == spec_seq_lt((a % (SEQ_SPACE as int)) as u32, (b % (SEQ_SPACE as int)) as u32),
        spec_seq_lte(
            ((a + k * (SEQ_SPACE as int)) % (SEQ_SPACE as int)) as u32,
            ((b + k * (SEQ_SPACE as int)) % (SEQ_SPACE as int)) as u32,
        ) == spec_seq_lte((a % (SEQ_SPACE as int)) as u32, (b % (SEQ_SPACE as int)) as u32),
{
    let m = SEQ_SPACE as int;
    vstd::arithmetic::div_mod::lemma_mod_multiples_vanish(k, a, m);
    vstd::arithmetic::div_mod::lemma_mod_multiples_vanish(k, b, m);
    assert(a + k * m == k * m + a);
    assert(b + k * m == k * m + b);
}

} // verus!
