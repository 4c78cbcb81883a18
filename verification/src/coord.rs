//! Single-precision coordinates as IEEE-754 bit patterns.
//!
//! A coordinate is a `u32` holding the bits of a binary32 number. The
//! numeric order of two such numbers is the order of their ranks: the
//! magnitude bits read as an integer, negated when the sign bit is set.

use vstd::prelude::*;

verus! {

/// The sign bit of a bit pattern.
pub const SIGN_BIT: u32 = 0x8000_0000;

/// The magnitude bits of positive infinity.
pub const INFINITY_BITS: u32 = 0x7f80_0000;

/// The bit pattern of negative infinity.
pub const NEG_INFINITY_BITS: u32 = 0xff80_0000;

/// The magnitude of a bit pattern: the pattern with its sign bit cleared.
pub open spec fn magnitude(bits: u32) -> int {
    if bits >= SIGN_BIT {
        bits - SIGN_BIT
    } else {
        bits as int
    }
}

/// Whether a bit pattern encodes a NaN: an all-ones exponent with a
/// non-zero fraction.
pub open spec fn is_nan(bits: u32) -> bool {
    magnitude(bits) > INFINITY_BITS
}

/// The position of a bit pattern in numeric order. For two patterns that
/// are not NaN, the first encodes a smaller number than the second exactly
/// when its rank is smaller; both zeros have rank 0.
pub open spec fn rank(bits: u32) -> int {
    if bits >= SIGN_BIT {
        -magnitude(bits)
    } else {
        magnitude(bits)
    }
}

/// The smaller of two coordinates, ignoring NaN: a NaN argument yields the
/// other argument, and numerically equal arguments yield the first.
pub open spec fn min_spec(a: u32, b: u32) -> u32 {
    if is_nan(b) {
        a
    } else if is_nan(a) {
        b
    } else if rank(b) < rank(a) {
        b
    } else {
        a
    }
}

/// The larger of two coordinates, ignoring NaN: a NaN argument yields the
/// other argument, and numerically equal arguments yield the first.
pub open spec fn max_spec(a: u32, b: u32) -> u32 {
    if is_nan(b) {
        a
    } else if is_nan(a) {
        b
    } else if rank(b) > rank(a) {
        b
    } else {
        a
    }
}

/// Tells whether `bits` encodes a NaN.
pub fn coord_is_nan(bits: u32) -> (r: bool)
    ensures
        r == is_nan(bits),
{
    let mag: u32 = if bits >= SIGN_BIT { bits - SIGN_BIT } else { bits };
    mag > INFINITY_BITS
}

/// Computes the rank of `bits`.
pub fn coord_rank(bits: u32) -> (r: i64)
    ensures
        r == rank(bits),
{
    if bits >= SIGN_BIT {
        let mag: i64 = (bits - SIGN_BIT) as i64;
        -mag
    } else {
        bits as i64
    }
}

/// Returns the smaller of `a` and `b`, ignoring NaN.
pub fn coord_min(a: u32, b: u32) -> (r: u32)
    ensures
        r == min_spec(a, b),
{
    if coord_is_nan(b) {
        a
    } else if coord_is_nan(a) {
        b
    } else if coord_rank(b) < coord_rank(a) {
        b
    } else {
        a
    }
}

/// Returns the larger of `a` and `b`, ignoring NaN.
pub fn coord_max(a: u32, b: u32) -> (r: u32)
    ensures
        r == max_spec(a, b),
{
    if coord_is_nan(b) {
        a
    } else if coord_is_nan(a) {
        b
    } else if coord_rank(b) > coord_rank(a) {
        b
    } else {
        a
    }
}

} // verus!
