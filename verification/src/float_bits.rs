//! Comparisons of IEEE-754 binary32 and binary64 numbers given by their bit
//! patterns, as the `<=` and `partial_cmp` of `f32` and `f64` order them.
//!
//! A number is NaN when its exponent bits are all ones and its mantissa is not
//! zero, that is when its magnitude bits exceed those of infinity. Any other
//! number is ordered by the key `magnitude` (sign bit clear) or `-magnitude`
//! (sign bit set): both zeros get key 0 and compare equal.
use vstd::prelude::*;

verus! {

pub open spec fn f32_magnitude(bits: u32) -> int {
    bits as int % 0x8000_0000
}

pub open spec fn f32_is_nan(bits: u32) -> bool {
    f32_magnitude(bits) > 0x7f80_0000
}

/// The integer whose order is the order of the non-NaN number `bits`.
pub open spec fn f32_key(bits: u32) -> int {
    if bits >= 0x8000_0000 {
        -f32_magnitude(bits)
    } else {
        f32_magnitude(bits)
    }
}

/// `a <= b` on binary32 numbers: false when either is NaN.
pub open spec fn f32_le(a: u32, b: u32) -> bool {
    !f32_is_nan(a) && !f32_is_nan(b) && f32_key(a) <= f32_key(b)
}

/// Whether the binary32 number with bits `bits` is NaN.
pub fn f32_bits_is_nan(bits: u32) -> (r: bool)
    ensures
        r == f32_is_nan(bits),
{
    bits % 0x8000_0000 > 0x7f80_0000
}

fn f32_bits_key(bits: u32) -> (r: i64)
    ensures
        r == f32_key(bits),
{
    let magnitude = (bits % 0x8000_0000) as i64;
    if bits >= 0x8000_0000 {
        -magnitude
    } else {
        magnitude
    }
}

/// `a <= b` on the binary32 numbers with bits `a` and `b`.
pub fn f32_bits_le(a: u32, b: u32) -> (r: bool)
    ensures
        r == f32_le(a, b),
{
    !f32_bits_is_nan(a) && !f32_bits_is_nan(b) && f32_bits_key(a) <= f32_bits_key(b)
}

/// `a > b` on two non-NaN binary32 numbers (the `Greater` of `partial_cmp`).
pub fn f32_bits_gt(a: u32, b: u32) -> (r: bool)
    requires
        !f32_is_nan(a),
        !f32_is_nan(b),
    ensures
        r == (f32_key(a) > f32_key(b)),
{
    f32_bits_key(a) > f32_bits_key(b)
}

pub open spec fn f64_magnitude(bits: u64) -> int {
    bits as int % 0x8000_0000_0000_0000
}

pub open spec fn f64_is_nan(bits: u64) -> bool {
    f64_magnitude(bits) > 0x7ff0_0000_0000_0000
}

/// The integer whose order is the order of the non-NaN number `bits`.
pub open spec fn f64_key(bits: u64) -> int {
    if bits >= 0x8000_0000_0000_0000 {
        -f64_magnitude(bits)
    } else {
        f64_magnitude(bits)
    }
}

/// `a <= b` on binary64 numbers: false when either is NaN.
pub open spec fn f64_le(a: u64, b: u64) -> bool {
    !f64_is_nan(a) && !f64_is_nan(b) && f64_key(a) <= f64_key(b)
}

/// Whether the binary64 number with bits `bits` is NaN.
pub fn f64_bits_is_nan(bits: u64) -> (r: bool)
    ensures
        r == f64_is_nan(bits),
{
    bits % 0x8000_0000_0000_0000 > 0x7ff0_0000_0000_0000
}

fn f64_bits_key(bits: u64) -> (r: i128)
    ensures
        r == f64_key(bits),
{
    let magnitude = (bits % 0x8000_0000_0000_0000) as i128;
    if bits >= 0x8000_0000_0000_0000 {
        -magnitude
    } else {
        magnitude
    }
}

/// `a <= b` on the binary64 numbers with bits `a` and `b`.
pub fn f64_bits_le(a: u64, b: u64) -> (r: bool)
    ensures
        r == f64_le(a, b),
{
    !f64_bits_is_nan(a) && !f64_bits_is_nan(b) && f64_bits_key(a) <= f64_bits_key(b)
}

/// `a > b` on two non-NaN binary64 numbers (the `Greater` of `partial_cmp`).
pub fn f64_bits_gt(a: u64, b: u64) -> (r: bool)
    requires
        !f64_is_nan(a),
        !f64_is_nan(b),
    ensures
        r == (f64_key(a) > f64_key(b)),
{
    f64_bits_key(a) > f64_bits_key(b)
}

/// Positive and negative zero compare equal, and `<=` is reflexive on every
/// number but NaN.
pub proof fn lemma_f32_zero_and_reflexive(x: u32)
    ensures
        f32_le(0, 0x8000_0000) && f32_le(0x8000_0000, 0),
        !f32_is_nan(x) ==> f32_le(x, x),
        f32_is_nan(x) ==> !f32_le(x, x),
{
}

/// `<=` on non-NaN binary64 numbers is total and transitive.
pub proof fn lemma_f64_le_total_order(a: u64, b: u64, c: u64)
    requires
        !f64_is_nan(a),
        !f64_is_nan(b),
        !f64_is_nan(c),
    ensures
        f64_le(a, b) || f64_le(b, a),
        f64_le(a, b) && f64_le(b, c) ==> f64_le(a, c),
{
}

/// How `<=` orders binary32 numbers that are not NaN, by their bit patterns:
/// a negative number (sign bit set) is at most any number whose sign bit is
/// clear; two numbers with the sign bit clear compare as their bit patterns
/// do; two numbers with the sign bit set compare the other way round; and a
/// number with the sign bit clear is above one with the sign bit set unless
/// both are zeros.
pub proof fn lemma_f32_le_by_sign(a: u32, b: u32)
    requires
        !f32_is_nan(a),
        !f32_is_nan(b),
    ensures
        a >= 0x8000_0000 && b < 0x8000_0000 ==> f32_le(a, b),
        a < 0x8000_0000 && b < 0x8000_0000 ==> (f32_le(a, b) <==> a <= b),
        a >= 0x8000_0000 && b >= 0x8000_0000 ==> (f32_le(a, b) <==> a >= b),
        a < 0x8000_0000 && b >= 0x8000_0000 ==> (f32_le(a, b) <==> (a == 0 && b == 0x8000_0000)),
{
}

/// How `<=` orders binary64 numbers that are not NaN, by their bit patterns:
/// as for binary32, negatives (sign bit set) below non-negatives, the
/// non-negatives in the order of their bit patterns and the negatives in the
/// reverse order, the two zeros equal.
pub proof fn lemma_f64_le_by_sign(a: u64, b: u64)
    requires
        !f64_is_nan(a),
        !f64_is_nan(b),
    ensures
        a >= 0x8000_0000_0000_0000 && b < 0x8000_0000_0000_0000 ==> f64_le(a, b),
        a < 0x8000_0000_0000_0000 && b < 0x8000_0000_0000_0000 ==> (f64_le(a, b) <==> a <= b),
        a >= 0x8000_0000_0000_0000 && b >= 0x8000_0000_0000_0000 ==> (f64_le(a, b) <==> a >= b),
        a < 0x8000_0000_0000_0000 && b >= 0x8000_0000_0000_0000 ==> (f64_le(a, b) <==> (a == 0 && b == 0x8000_0000_0000_0000)),
{
}

} // verus!
