//! Numbers as IEEE-754 binary64 bit patterns.
//!
//! A number is kept as the 64 bits of a double: one sign bit, eleven
//! exponent bits, fifty-two fraction bits. Read as an unsigned integer
//! without the sign bit, the remaining 63 bits grow with the absolute value
//! of the double, which gives comparison and negation in integer terms.
use vstd::prelude::*;

verus! {

/// The sign bit of a double.
pub const SIGN_BIT: u64 = 0x8000_0000_0000_0000;

/// The bits of positive infinity: every larger magnitude is a NaN.
pub const INFINITY_BITS: u64 = 0x7FF0_0000_0000_0000;

/// The 63 bits below the sign bit.
pub open spec fn magnitude(bits: u64) -> int {
    if bits >= SIGN_BIT {
        bits - SIGN_BIT
    } else {
        bits as int
    }
}

/// Whether the sign bit is set.
pub open spec fn is_negative(bits: u64) -> bool {
    bits >= SIGN_BIT
}

/// Whether the bits encode a NaN: exponent all ones, fraction not zero.
pub open spec fn is_nan(bits: u64) -> bool {
    magnitude(bits) > INFINITY_BITS
}

/// An integer that orders the doubles that are not NaN as their values are
/// ordered; the two zeros share the rank 0.
pub open spec fn rank(bits: u64) -> int {
    if is_negative(bits) {
        -magnitude(bits)
    } else {
        magnitude(bits)
    }
}

/// IEEE equality: a NaN equals nothing, the two zeros are equal.
pub open spec fn number_eq(a: u64, b: u64) -> bool {
    !is_nan(a) && !is_nan(b) && rank(a) == rank(b)
}

/// IEEE `<`: false when either side is a NaN.
pub open spec fn number_lt(a: u64, b: u64) -> bool {
    !is_nan(a) && !is_nan(b) && rank(a) < rank(b)
}

/// The double with the sign bit flipped.
pub open spec fn negated(bits: u64) -> u64 {
    if bits >= SIGN_BIT {
        (bits - SIGN_BIT) as u64
    } else {
        (bits + SIGN_BIT) as u64
    }
}

fn split(bits: u64) -> (r: (bool, u64))
    ensures
        r.0 == is_negative(bits),
        r.1 == magnitude(bits),
        r.1 < SIGN_BIT,
{
    if bits >= SIGN_BIT {
        (true, bits - SIGN_BIT)
    } else {
        (false, bits)
    }
}

/// Tells whether `bits` is a NaN.
pub fn number_is_nan(bits: u64) -> (r: bool)
    ensures
        r == is_nan(bits),
{
    let (_, m) = split(bits);
    m > INFINITY_BITS
}

/// Compares two doubles for equality as IEEE-754 does.
pub fn number_equal(a: u64, b: u64) -> (r: bool)
    ensures
        r == number_eq(a, b),
{
    let (sa, ma) = split(a);
    let (sb, mb) = split(b);
    if ma > INFINITY_BITS || mb > INFINITY_BITS {
        false
    } else if sa == sb {
        ma == mb
    } else {
        ma == 0 && mb == 0
    }
}

/// Tells whether `a < b` as IEEE-754 does.
pub fn number_less(a: u64, b: u64) -> (r: bool)
    ensures
        r == number_lt(a, b),
{
    let (sa, ma) = split(a);
    let (sb, mb) = split(b);
    if ma > INFINITY_BITS || mb > INFINITY_BITS {
        false
    } else if sa && sb {
        mb < ma
    } else if sa {
        ma != 0 || mb != 0
    } else if sb {
        false
    } else {
        ma < mb
    }
}

/// Tells whether `a > b` as IEEE-754 does.
pub fn number_greater(a: u64, b: u64) -> (r: bool)
    ensures
        r == number_lt(b, a),
{
    number_less(b, a)
}

/// Flips the sign of a double, a NaN included.
pub fn number_negate(bits: u64) -> (r: u64)
    ensures
        r == negated(bits),
{
    if bits >= SIGN_BIT {
        bits - SIGN_BIT
    } else {
        bits + SIGN_BIT
    }
}

/// Negation flips the sign and keeps the magnitude, so negating twice gives
/// the bits back, and a NaN stays a NaN.
pub proof fn lemma_negation(bits: u64)
    ensures
        negated(negated(bits)) == bits,
        magnitude(negated(bits)) == magnitude(bits),
        is_negative(negated(bits)) == !is_negative(bits),
        is_nan(negated(bits)) == is_nan(bits),
        !is_nan(bits) ==> rank(negated(bits)) == -rank(bits),
{
}

/// On numbers that are not NaN, `<` is a strict order that agrees with
/// equality: exactly one of `a < b`, `a == b`, `b < a` holds.
pub proof fn lemma_order_trichotomy(a: u64, b: u64)
    requires
        !is_nan(a),
        !is_nan(b),
    ensures
        number_lt(a, b) || number_eq(a, b) || number_lt(b, a),
        !(number_lt(a, b) && number_eq(a, b)),
        !(number_lt(a, b) && number_lt(b, a)),
        !(number_eq(a, b) && number_lt(b, a)),
{
}

} // verus!
