//! IEEE-754 doubles, carried by their bit patterns.
//!
//! For a double that is not NaN, the sign bit and the remaining 63 bits read
//! as an unsigned magnitude order the values exactly as the floating-point
//! comparison does, with `+0.0` and `-0.0` equal. That order is [`rank`].

use vstd::prelude::*;

verus! {

/// The sign bit of a double.
pub const SIGN_BIT: u64 = 0x8000_0000_0000_0000;

/// The bit pattern of positive infinity; a larger magnitude is a NaN.
pub const INFINITY_BITS: u64 = 0x7FF0_0000_0000_0000;

/// The bits of a double without its sign.
pub open spec fn magnitude(bits: u64) -> int {
    if bits >= SIGN_BIT {
        bits - SIGN_BIT
    } else {
        bits as int
    }
}

pub open spec fn is_nan(bits: u64) -> bool {
    magnitude(bits) > INFINITY_BITS
}

/// `+0.0` or `-0.0`.
pub open spec fn is_zero(bits: u64) -> bool {
    magnitude(bits) == 0
}

/// An integer that orders doubles as `<` and `==` do on every pair of
/// numbers. Every NaN gets the least rank: it ranks below every number and
/// alike with every other NaN.
pub open spec fn rank(bits: u64) -> int {
    if is_nan(bits) {
        i64::MIN as int
    } else if bits >= SIGN_BIT {
        -magnitude(bits)
    } else {
        magnitude(bits)
    }
}

/// The double is below zero (`x < 0.0`): never a zero, never a NaN.
pub open spec fn is_negative(bits: u64) -> bool {
    !is_nan(bits) && rank(bits) < 0
}

pub proof fn lemma_rank_bounds(bits: u64)
    ensures
        i64::MIN <= rank(bits) <= i64::MAX,
{
}

/// Computes [`rank`].
pub fn rank_of(bits: u64) -> (r: i64)
    ensures
        r == rank(bits),
{
    let magnitude: u64 = if bits >= SIGN_BIT {
        bits - SIGN_BIT
    } else {
        bits
    };
    if magnitude > INFINITY_BITS {
        i64::MIN
    } else if bits >= SIGN_BIT {
        -(magnitude as i64)
    } else {
        magnitude as i64
    }
}

/// Decides [`is_negative`].
pub fn is_negative_bits(bits: u64) -> (r: bool)
    ensures
        r == is_negative(bits),
{
    bits > SIGN_BIT && bits - SIGN_BIT <= INFINITY_BITS
}

/// Decides [`is_zero`].
pub fn is_zero_bits(bits: u64) -> (r: bool)
    ensures
        r == is_zero(bits),
{
    bits == 0 || bits == SIGN_BIT
}

} // verus!
