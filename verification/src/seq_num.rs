//! Wraparound-safe arithmetic over the protocol's modular sequence-number
//! space.
//!
//! Sequence numbers live in a 31-bit modular space: the valid values are the
//! non-negative `i32` values `0 ..= i32::MAX`.  The distance between two
//! sequence numbers is measured along the shorter of the two arcs around the
//! circle, signed by direction, so that a number slightly above the maximum
//! value logically precedes a small number near zero.  Every comparison of
//! sequence numbers elsewhere in the crate routes through this module.

use vstd::prelude::*;

verus! {

/// Size of the sequence-number space: sequence numbers are in `[0, SEQ_MODULUS)`.
pub const SEQ_MODULUS: i64 = 0x8000_0000;

/// Half the sequence-number space; signed circular distances are in
/// `[-SEQ_HALF, SEQ_HALF)`.
pub const SEQ_HALF: i64 = 0x4000_0000;

/// A sequence number is any non-negative `i32`.
pub open spec fn seq_valid(a: i32) -> bool {
    0 <= a < SEQ_MODULUS
}

/// Signed circular distance from `b` to `a`: the unique value `d` in
/// `[-SEQ_HALF, SEQ_HALF)` with `a == (b + d) mod SEQ_MODULUS`.
pub open spec fn seq_diff_spec(a: int, b: int) -> int {
    let d = a - b;
    if d >= SEQ_HALF {
        d - SEQ_MODULUS
    } else if d < -SEQ_HALF {
        d + SEQ_MODULUS
    } else {
        d
    }
}

/// Length of the arc that goes upward (in increasing direction, wrapping)
/// from `b` to `a`; in `[0, SEQ_MODULUS)`.  This is the brute-force circular
/// distance in one direction; `arc_up(b, a)` is the distance the other way
/// round.
pub open spec fn arc_up(a: int, b: int) -> int {
    if a >= b {
        a - b
    } else {
        a - b + SEQ_MODULUS
    }
}

/// The next sequence number after `a`, wrapping at the modulus boundary.
pub open spec fn seq_increment_spec(a: int) -> int {
    if a + 1 == SEQ_MODULUS {
        0
    } else {
        a + 1
    }
}

/// `a` advanced by `k` steps, wrapping at the modulus boundary.
pub open spec fn seq_add_spec(a: int, k: int) -> int {
    if a + k < SEQ_MODULUS {
        a + k
    } else {
        a + k - SEQ_MODULUS
    }
}

/// Result of a wraparound-aware comparison of two sequence numbers.
#[derive(Clone, Copy, Debug, PartialEq, Eq, Structural)]
pub enum SeqOrdering {
    Less,
    Equal,
    Greater,
}

/// Wraparound-aware ordering of `a` relative to `b`: the sign of the signed
/// circular distance from `b` to `a`.
pub open spec fn seq_cmp_spec(a: int, b: int) -> SeqOrdering {
    let d = seq_diff_spec(a, b);
    if d < 0 {
        SeqOrdering::Less
    } else if d == 0 {
        SeqOrdering::Equal
    } else {
        SeqOrdering::Greater
    }
}

/// Signed circular distance from `b` to `a`, along the shorter arc.
pub fn seq_diff(a: i32, b: i32) -> (r: i32)
    requires
        seq_valid(a),
        seq_valid(b),
    ensures
        r as int == seq_diff_spec(a as int, b as int),
        -SEQ_HALF <= r as int && (r as int) < SEQ_HALF,
{
    let d: i64 = a as i64 - b as i64;
    let w: i64 = if d >= SEQ_HALF {
        d - SEQ_MODULUS
    } else if d < -SEQ_HALF {
        d + SEQ_MODULUS
    } else {
        d
    };
    w as i32
}

/// Wraparound-aware comparison of two sequence numbers.
pub fn seq_cmp(a: i32, b: i32) -> (r: SeqOrdering)
    requires
        seq_valid(a),
        seq_valid(b),
    ensures
        r == seq_cmp_spec(a as int, b as int),
{
    let d = seq_diff(a, b);
    if d < 0 {
        SeqOrdering::Less
    } else if d == 0 {
        SeqOrdering::Equal
    } else {
        SeqOrdering::Greater
    }
}

/// The next sequence number after `a`, wrapping at the modulus boundary.
pub fn seq_increment(a: i32) -> (r: i32)
    requires
        seq_valid(a),
    ensures
        r as int == seq_increment_spec(a as int),
        seq_valid(r),
{
    if a == i32::MAX {
        0
    } else {
        a + 1
    }
}

/// The sequence number `k` steps after `a`, wrapping at the modulus boundary.
pub fn seq_add(a: i32, k: i32) -> (r: i32)
    requires
        seq_valid(a),
        0 <= k,
    ensures
        r as int == seq_add_spec(a as int, k as int),
        seq_valid(r),
{
    let s: i64 = a as i64 + k as i64;
    if s >= SEQ_MODULUS {
        (s - SEQ_MODULUS) as i32
    } else {
        s as i32
    }
}

/// Stepping `k` positions forward moves the signed circular distance to any
/// reference point forward by exactly `k`, as long as the result stays short
/// of half the space.
pub proof fn lemma_seq_add_diff(a: int, k: int, b: int)
    requires
        0 <= a < SEQ_MODULUS,
        0 <= b < SEQ_MODULUS,
        0 <= k,
        0 <= seq_diff_spec(a, b),
        seq_diff_spec(a, b) + k < SEQ_HALF,
    ensures
        seq_diff_spec(seq_add_spec(a, k), b) == seq_diff_spec(a, b) + k,
        0 <= seq_add_spec(a, k) < SEQ_MODULUS,
{
}

/// The signed circular distance is the distance along the shorter of the two
/// arcs between `b` and `a`: its magnitude is the smaller of the two arc
/// lengths, its sign says which direction that arc runs, and adding it to `b`
/// (mod the modulus) lands exactly on `a`.  This ties `seq_diff_spec` to the
/// brute-force circular-distance reference `arc_up`.
pub proof fn lemma_seq_diff_is_shortest_arc(a: int, b: int)
    requires
        0 <= a < SEQ_MODULUS,
        0 <= b < SEQ_MODULUS,
    ensures
        seq_add_spec(b, if seq_diff_spec(a, b) >= 0 {
            seq_diff_spec(a, b)
        } else {
            (seq_diff_spec(a, b) + SEQ_MODULUS) as int
        }) == a,
        arc_up(a, b) < arc_up(b, a) ==> seq_diff_spec(a, b) == arc_up(a, b),
        arc_up(b, a) < arc_up(a, b) ==> seq_diff_spec(a, b) == -arc_up(b, a),
        arc_up(a, b) == arc_up(b, a) && a != b ==> seq_diff_spec(a, b) == -SEQ_HALF,
        a == b ==> seq_diff_spec(a, b) == 0,
{
}

/// The wraparound-aware comparison agrees with the brute-force circular
/// reference: `a` compares less exactly when the arc from `a` up to `b` is no
/// longer than the arc from `b` up to `a` (and the two differ), greater
/// exactly when the arc from `b` up to `a` is strictly shorter, and equal
/// exactly when the numbers coincide.
pub proof fn lemma_seq_cmp_matches_arcs(a: int, b: int)
    requires
        0 <= a < SEQ_MODULUS,
        0 <= b < SEQ_MODULUS,
    ensures
        (seq_cmp_spec(a, b) == SeqOrdering::Equal) <==> a == b,
        (seq_cmp_spec(a, b) == SeqOrdering::Less) <==> (a != b && arc_up(b, a) <= arc_up(a, b)),
        (seq_cmp_spec(a, b) == SeqOrdering::Greater) <==> arc_up(a, b) < arc_up(b, a),
{
}

/// Except at the antipodal point (distance exactly half the space), the
/// signed circular distance is antisymmetric.
pub proof fn lemma_seq_diff_antisymmetric(a: int, b: int)
    requires
        0 <= a < SEQ_MODULUS,
        0 <= b < SEQ_MODULUS,
        seq_diff_spec(a, b) != -SEQ_HALF,
    ensures
        seq_diff_spec(b, a) == -seq_diff_spec(a, b),
{
}

/// Signed circular distances add up exactly whenever the sum stays within
/// the representable range `[-SEQ_HALF, SEQ_HALF)`.
pub proof fn lemma_seq_diff_additive(a: int, b: int, c: int)
    requires
        0 <= a < SEQ_MODULUS,
        0 <= b < SEQ_MODULUS,
        0 <= c < SEQ_MODULUS,
        -SEQ_HALF <= seq_diff_spec(a, b) + seq_diff_spec(b, c) < SEQ_HALF,
    ensures
        seq_diff_spec(a, c) == seq_diff_spec(a, b) + seq_diff_spec(b, c),
{
}

/// Incrementing advances a sequence number by exactly one step of circular
/// distance, relative to any reference point short of half the space ahead.
pub proof fn lemma_seq_increment_advances(a: int, b: int)
    requires
        0 <= a < SEQ_MODULUS,
        0 <= b < SEQ_MODULUS,
        seq_diff_spec(a, b) < SEQ_HALF - 1,
    ensures
        seq_diff_spec(seq_increment_spec(a), b) == seq_diff_spec(a, b) + 1,
{
}

} // verus!
