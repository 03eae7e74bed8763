//! Ordered, NaN-free doubles carried as their IEEE-754 bit patterns.
//!
//! Rectangles and matrices hold 64-bit IEEE-754 values. The library never
//! does arithmetic on them: it only checks that a value is not a NaN and
//! orders two such values, which is what the `NotNan` wrapper of the
//! `ordered-float` crate does. Both are stated here on the bit pattern.
use vstd::prelude::*;

verus! {

/// Mask of the eleven exponent bits.
pub const EXPONENT_MASK: u64 = 0x7FF0_0000_0000_0000;

/// Mask of the fifty-two fraction bits.
pub const FRACTION_MASK: u64 = 0x000F_FFFF_FFFF_FFFF;

/// The sign bit.
pub const SIGN_BIT: u64 = 0x8000_0000_0000_0000;

/// A bit pattern encodes a NaN when all exponent bits are set and the
/// fraction is not zero.
pub open spec fn is_nan_bits(b: u64) -> bool {
    (b & EXPONENT_MASK) == EXPONENT_MASK && (b & FRACTION_MASK) != 0
}

/// The position of a non-NaN value on the number line, as an integer key:
/// keys compare as the values do. Positive values (and +0) are ordered by
/// their bits; a negative value sits at minus its magnitude bits, so that
/// -0 and +0 share the key 0, as they compare equal.
pub open spec fn order_key(b: u64) -> int {
    if b < SIGN_BIT {
        b as int
    } else {
        -((b - SIGN_BIT) as int)
    }
}

/// The pattern of +0 is not a NaN.
pub proof fn lemma_zero_is_number()
    ensures
        !is_nan_bits(0),
{
    assert((0u64 & 0x7FF0_0000_0000_0000u64) == 0u64) by (bit_vector);
}

/// Whether the bit pattern encodes a NaN.
pub fn is_nan(b: u64) -> (r: bool)
    ensures
        r == is_nan_bits(b),
{
    (b & EXPONENT_MASK) == EXPONENT_MASK && (b & FRACTION_MASK) != 0
}

/// Whether the value `a` is at most the value `b`.
pub fn le(a: u64, b: u64) -> (r: bool)
    ensures
        r == (order_key(a) <= order_key(b)),
{
    if a < SIGN_BIT {
        if b < SIGN_BIT {
            a <= b
        } else {
            // b is negative or -0: a <= b only when both are zeros.
            a == 0 && b == SIGN_BIT
        }
    } else {
        if b < SIGN_BIT {
            true
        } else {
            a >= b
        }
    }
}

/// The larger of two values; of two equal values, the second (the rule
/// of `Ord::max`).
pub fn max(a: u64, b: u64) -> (r: u64)
    ensures
        r == (if order_key(a) <= order_key(b) { b } else { a }),
{
    if le(a, b) {
        b
    } else {
        a
    }
}

/// The smaller of two values; of two equal values, the first (the rule
/// of `Ord::min`).
pub fn min(a: u64, b: u64) -> (r: u64)
    ensures
        r == (if order_key(a) <= order_key(b) { a } else { b }),
{
    if le(a, b) {
        a
    } else {
        b
    }
}

} // verus!
