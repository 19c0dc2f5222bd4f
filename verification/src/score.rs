//! Similarity scores and the order a query ranks them by.
//!
//! A score is the IEEE-754 single-precision bit pattern of a cosine
//! similarity. The store never does floating-point arithmetic: the numeric
//! kernel reports, per record, either a score or that a magnitude was exactly
//! zero, and the store ranks the reported scores. Ranking uses the numeric
//! order that the bit patterns encode — negative numbers below positive ones,
//! the two zeros equal — with every NaN placed below every number, so that
//! NaN-scored entries sink to the bottom deterministically.

use vstd::prelude::*;

verus! {

/// What the numeric kernel reports for one record whose dimensions admit a
/// comparison: a cosine-similarity score, or a zero magnitude (which would
/// otherwise divide by zero).
#[derive(Clone, Copy, Debug, PartialEq, Eq, Structural)]
pub enum Similarity {
    /// The cosine similarity, as an IEEE-754 single-precision bit pattern.
    Value(u32),
    /// One of the operand vectors has magnitude exactly zero.
    ZeroMagnitude,
}

/// Whether a single-precision bit pattern encodes a NaN: exponent all ones
/// and a non-zero mantissa.
pub open spec fn is_nan_bits(x: u32) -> bool {
    x & 0x7f80_0000u32 == 0x7f80_0000u32 && x & 0x007f_ffffu32 != 0
}

/// The rank of a score: the integer key whose order is the numeric order of
/// the encoded values. Non-negative values rank by their magnitude bits,
/// negative values by the negated magnitude bits (so `-0.0` and `+0.0` tie),
/// and every NaN ranks strictly below every number.
pub open spec fn score_key(x: u32) -> int {
    if is_nan_bits(x) {
        -(0x8000_0000 as int)
    } else if x & 0x8000_0000u32 != 0 {
        -((x & 0x7fff_ffffu32) as int)
    } else {
        (x & 0x7fff_ffffu32) as int
    }
}

/// The ranking order: `a` scores no higher than `b`.
pub open spec fn score_le(a: u32, b: u32) -> bool {
    score_key(a) <= score_key(b)
}

/// The rank of a score, computed. Fits `i64` comfortably: magnitudes are
/// below `2^31`.
fn score_rank(x: u32) -> (k: i64)
    ensures
        k == score_key(x),
{
    let magnitude: u32 = x & 0x7fff_ffff;
    proof {
        assert(x & 0x7fff_ffffu32 <= 0x7fff_ffffu32) by (bit_vector);
    }
    if (x & 0x7f80_0000) == 0x7f80_0000 && (x & 0x007f_ffff) != 0 {
        -0x8000_0000i64
    } else if (x & 0x8000_0000) != 0 {
        -(magnitude as i64)
    } else {
        magnitude as i64
    }
}

/// Whether `a` scores at least as high as `b` in the ranking order.
pub fn score_at_least(a: u32, b: u32) -> (r: bool)
    ensures
        r == score_le(b, a),
{
    score_rank(a) >= score_rank(b)
}

} // verus!
