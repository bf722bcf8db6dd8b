//! IEEE 754 binary64 values as bit patterns.
//!
//! A pattern has a sign bit, eleven exponent bits and fifty-two fraction
//! bits. Without the sign bit, the patterns of the values that are not NaN
//! are ordered as the magnitudes of the values are, the two infinities
//! included; the two zeros are equal and every comparison with a NaN is
//! false.

use vstd::prelude::*;

verus! {

/// The sign bit.
pub const SIGN_BIT: u64 = 0x8000_0000_0000_0000;

/// The pattern of positive infinity: every pattern whose magnitude is
/// greater is a NaN.
pub const INFINITY_BITS: u64 = 0x7ff0_0000_0000_0000;

/// The pattern without its sign bit.
pub open spec fn magnitude(bits: u64) -> int {
    if bits >= SIGN_BIT {
        bits - SIGN_BIT
    } else {
        bits as int
    }
}

/// Whether the pattern is a NaN.
pub open spec fn is_nan(bits: u64) -> bool {
    magnitude(bits) > INFINITY_BITS
}

/// The place of a pattern that is not a NaN in the order of the values:
/// the magnitude, negative where the sign bit is set.
pub open spec fn ordinal(bits: u64) -> int {
    if bits >= SIGN_BIT {
        -magnitude(bits)
    } else {
        magnitude(bits)
    }
}

/// The pattern of the negated value: the sign bit flipped.
pub open spec fn negated(bits: u64) -> u64 {
    if bits >= SIGN_BIT {
        (bits - SIGN_BIT) as u64
    } else {
        (bits + SIGN_BIT) as u64
    }
}

/// `a == b` on the values.
pub open spec fn equal(a: u64, b: u64) -> bool {
    !is_nan(a) && !is_nan(b) && ordinal(a) == ordinal(b)
}

/// `a < b` on the values.
pub open spec fn less(a: u64, b: u64) -> bool {
    !is_nan(a) && !is_nan(b) && ordinal(a) < ordinal(b)
}

/// `a <= b` on the values.
pub open spec fn less_equal(a: u64, b: u64) -> bool {
    !is_nan(a) && !is_nan(b) && ordinal(a) <= ordinal(b)
}

/// Negating twice gives the value back, and a NaN stays a NaN.
pub proof fn lemma_negation(bits: u64)
    ensures
        negated(negated(bits)) == bits,
        is_nan(negated(bits)) == is_nan(bits),
        !is_nan(bits) ==> ordinal(negated(bits)) == -ordinal(bits),
{
}

/// The comparisons are those of a total order on the values that are not
/// NaN, with the two zeros as one value; a NaN compares to nothing.
pub proof fn lemma_order(a: u64, b: u64, c: u64)
    ensures
        equal(a, a) <==> !is_nan(a),
        equal(a, b) == equal(b, a),
        equal(a, b) && equal(b, c) ==> equal(a, c),
        less(a, b) ==> !less(b, a) && !equal(a, b),
        less(a, b) && less(b, c) ==> less(a, c),
        less_equal(a, b) <==> less(a, b) || equal(a, b),
        !is_nan(a) && !is_nan(b) ==> less(a, b) || equal(a, b) || less(b, a),
        is_nan(a) || is_nan(b) ==> !equal(a, b) && !less(a, b) && !less_equal(a, b),
        equal(0, SIGN_BIT),
{
}

fn place(bits: u64) -> (p: i128)
    ensures
        p == ordinal(bits),
{
    if bits >= SIGN_BIT {
        let m: u64 = bits - SIGN_BIT;
        let wide: i128 = m as i128;
        -wide
    } else {
        bits as i128
    }
}

/// Tells whether `bits` is a NaN.
pub fn nan(bits: u64) -> (r: bool)
    ensures
        r == is_nan(bits),
{
    if bits >= SIGN_BIT {
        bits - SIGN_BIT > INFINITY_BITS
    } else {
        bits > INFINITY_BITS
    }
}

/// Flips the sign.
pub fn negate(bits: u64) -> (r: u64)
    ensures
        r == negated(bits),
{
    if bits >= SIGN_BIT {
        bits - SIGN_BIT
    } else {
        bits + SIGN_BIT
    }
}

/// Compares two values for equality.
pub fn eq(a: u64, b: u64) -> (r: bool)
    ensures
        r == equal(a, b),
{
    !nan(a) && !nan(b) && place(a) == place(b)
}

/// Tells whether the first value is less than the second.
pub fn lt(a: u64, b: u64) -> (r: bool)
    ensures
        r == less(a, b),
{
    !nan(a) && !nan(b) && place(a) < place(b)
}

/// Tells whether the first value is at most the second.
pub fn le(a: u64, b: u64) -> (r: bool)
    ensures
        r == less_equal(a, b),
{
    !nan(a) && !nan(b) && place(a) <= place(b)
}

} // verus!
