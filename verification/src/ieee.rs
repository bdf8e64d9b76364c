//! Order and classification of IEEE 754 values, read from their bit patterns.
//!
//! Contracts in this crate are stated over integers, so a real number travels
//! through it as the bits of its binary32 or binary64 encoding (what
//! `to_bits` gives). Every value except a NaN has a *rank*: an integer whose
//! order is the numeric order of the values it stands for. Both zeros have
//! rank 0.

use vstd::prelude::*;

verus! {

/// The sign bit of a binary64 value.
pub const SIGN_64: u64 = 0x8000_0000_0000_0000;

/// The bits of positive infinity in binary64; every larger magnitude is a
/// NaN.
pub const INFINITY_64: u64 = 0x7FF0_0000_0000_0000;

/// The sign bit of a binary32 value.
pub const SIGN_32: u32 = 0x8000_0000;

/// The bits of positive infinity in binary32; every larger magnitude is a
/// NaN.
pub const INFINITY_32: u32 = 0x7F80_0000;

/// Whether the sign bit of a binary64 value is set.
pub open spec fn negative64(bits: u64) -> bool {
    bits >= SIGN_64
}

/// The bits of a binary64 value without its sign: exponent and fraction,
/// which order the absolute values.
pub open spec fn magnitude64(bits: u64) -> int {
    bits as int % (SIGN_64 as int)
}

/// Whether a binary64 value is a NaN: the exponent is all ones and the
/// fraction is not zero.
pub open spec fn is_nan64(bits: u64) -> bool {
    magnitude64(bits) > INFINITY_64
}

/// The place of a binary64 value in numeric order. For two values that are
/// not NaN, `a < b` as numbers exactly when `rank64(a) < rank64(b)`.
pub open spec fn rank64(bits: u64) -> int {
    if negative64(bits) {
        -magnitude64(bits)
    } else {
        magnitude64(bits)
    }
}

/// `x > 0` for a binary64 value; false of a NaN.
pub open spec fn positive64(bits: u64) -> bool {
    !is_nan64(bits) && rank64(bits) > 0
}

/// `x >= 0` for a binary64 value; false of a NaN, true of both zeros.
pub open spec fn non_negative64(bits: u64) -> bool {
    !is_nan64(bits) && rank64(bits) >= 0
}

/// `x == 0` for a binary64 value; true of both zeros.
pub open spec fn zero64(bits: u64) -> bool {
    rank64(bits) == 0
}

/// `a <= b` for two binary64 values; false if either is a NaN.
pub open spec fn at_most64(a: u64, b: u64) -> bool {
    !is_nan64(a) && !is_nan64(b) && rank64(a) <= rank64(b)
}

/// The bits of a binary32 value without its sign.
pub open spec fn magnitude32(bits: u32) -> int {
    bits as int % (SIGN_32 as int)
}

/// Whether a binary32 value is neither a NaN nor an infinity.
pub open spec fn is_finite32(bits: u32) -> bool {
    magnitude32(bits) < INFINITY_32
}

/// The encoding that stands for a binary32 value where two values are
/// compared for equality: negative zero becomes positive zero, every other
/// value is kept. Two values that are not NaN are equal as numbers exactly
/// when their canonical encodings are the same bits.
pub open spec fn canonical32(bits: u32) -> u32 {
    if bits == SIGN_32 {
        0
    } else {
        bits
    }
}

/// Whether a binary64 value is a NaN.
pub fn f64_is_nan(bits: u64) -> (r: bool)
    ensures
        r == is_nan64(bits),
{
    if bits >= SIGN_64 {
        bits - SIGN_64 > INFINITY_64
    } else {
        bits > INFINITY_64
    }
}

/// `x > 0` on the bits of a binary64 value.
pub fn f64_is_positive(bits: u64) -> (r: bool)
    ensures
        r == positive64(bits),
{
    0 < bits && bits <= INFINITY_64
}

/// `x >= 0` on the bits of a binary64 value.
pub fn f64_is_non_negative(bits: u64) -> (r: bool)
    ensures
        r == non_negative64(bits),
{
    bits <= INFINITY_64 || bits == SIGN_64
}

/// `x == 0` on the bits of a binary64 value.
pub fn f64_is_zero(bits: u64) -> (r: bool)
    ensures
        r == zero64(bits),
{
    bits == 0 || bits == SIGN_64
}

/// `a <= b` on the bits of two binary64 values.
pub fn f64_at_most(a: u64, b: u64) -> (r: bool)
    ensures
        r == at_most64(a, b),
{
    if f64_is_nan(a) || f64_is_nan(b) {
        false
    } else if a >= SIGN_64 {
        // a is negative or negative zero: below every value that is not
        // negative, and below the negative values of smaller magnitude.
        b < SIGN_64 || b <= a
    } else {
        if b >= SIGN_64 {
            a == 0 && b == SIGN_64
        } else {
            a <= b
        }
    }
}

/// Whether a binary32 value is neither a NaN nor an infinity.
pub fn f32_is_finite(bits: u32) -> (r: bool)
    ensures
        r == is_finite32(bits),
{
    if bits >= SIGN_32 {
        bits - SIGN_32 < INFINITY_32
    } else {
        bits < INFINITY_32
    }
}

/// The canonical encoding of a binary32 value: negative zero is replaced by
/// positive zero.
pub fn f32_canonical(bits: u32) -> (r: u32)
    ensures
        r == canonical32(bits),
{
    if bits == SIGN_32 {
        0
    } else {
        bits
    }
}

} // verus!
