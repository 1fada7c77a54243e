//! Order and sign of IEEE-754 double-precision numbers, read off their bit
//! patterns.
//!
//! A number is held as the 64 bits of a double: the sign in the highest bit,
//! below it eleven bits of exponent and fifty-two bits of fraction.  Without
//! the sign, the patterns of the numbers that are no NaN are ordered as the
//! magnitudes that they stand for, which makes comparing a matter of
//! integers.  Arithmetic and the conversion from and to decimal text are not
//! done here.

use vstd::prelude::*;

verus! {

/// The highest bit: the sign.
pub const SIGN: u64 = 0x8000_0000_0000_0000;

/// The pattern of positive infinity.  Every pattern whose magnitude is above
/// it is a NaN.
pub const INFINITY: u64 = 0x7FF0_0000_0000_0000;

/// Whether the sign bit is set.
pub open spec fn is_negative(bits: u64) -> bool {
    bits >= SIGN
}

/// The pattern without its sign bit.
pub open spec fn magnitude(bits: u64) -> u64 {
    if bits >= SIGN {
        (bits - SIGN) as u64
    } else {
        bits
    }
}

/// Whether the pattern is a NaN.
pub open spec fn is_nan(bits: u64) -> bool {
    magnitude(bits) > INFINITY
}

/// The place of a number in the order of the numbers: the magnitude, counted
/// downwards from zero under a negative sign.  Both zeros have the place 0.
pub open spec fn ordinal(bits: u64) -> int {
    if is_negative(bits) {
        -(magnitude(bits) as int)
    } else {
        magnitude(bits) as int
    }
}

/// `a < b`: neither is a NaN, and `a` comes before `b`.
pub open spec fn less_spec(a: u64, b: u64) -> bool {
    !is_nan(a) && !is_nan(b) && ordinal(a) < ordinal(b)
}

/// `a <= b`: neither is a NaN, and `a` does not come behind `b`.
pub open spec fn less_equal_spec(a: u64, b: u64) -> bool {
    !is_nan(a) && !is_nan(b) && ordinal(a) <= ordinal(b)
}

/// `a == b`: neither is a NaN, and both have the same place.  A NaN equals
/// nothing, itself included; the two zeros are equal.
pub open spec fn equal_spec(a: u64, b: u64) -> bool {
    !is_nan(a) && !is_nan(b) && ordinal(a) == ordinal(b)
}

/// `x > 0.0`.
pub open spec fn is_positive(bits: u64) -> bool {
    !is_nan(bits) && ordinal(bits) > 0
}

/// `-x`: the same pattern with the other sign.
pub open spec fn negate_spec(bits: u64) -> u64 {
    if bits >= SIGN {
        (bits - SIGN) as u64
    } else {
        (bits + SIGN) as u64
    }
}

fn nan(bits: u64) -> (b: bool)
    ensures
        b == is_nan(bits),
{
    if bits >= SIGN {
        bits - SIGN > INFINITY
    } else {
        bits > INFINITY
    }
}

/// `a < b`
pub fn less(a: u64, b: u64) -> (r: bool)
    ensures
        r == less_spec(a, b),
{
    if nan(a) || nan(b) {
        false
    } else if a >= SIGN {
        if b >= SIGN {
            // both negative: the larger magnitude is the smaller number
            a > b
        } else {
            a - SIGN > 0 || b > 0
        }
    } else {
        if b >= SIGN {
            false
        } else {
            a < b
        }
    }
}

/// `a == b`
pub fn equal(a: u64, b: u64) -> (r: bool)
    ensures
        r == equal_spec(a, b),
{
    if nan(a) || nan(b) {
        false
    } else {
        a == b || (zero(a) && zero(b))
    }
}

fn zero(bits: u64) -> (b: bool)
    ensures
        b == (ordinal(bits) == 0),
{
    bits == 0 || bits == SIGN
}

/// `a <= b`
pub fn less_equal(a: u64, b: u64) -> (r: bool)
    ensures
        r == less_equal_spec(a, b),
{
    less(a, b) || equal(a, b)
}

/// `a > b`
pub fn greater(a: u64, b: u64) -> (r: bool)
    ensures
        r == less_spec(b, a),
{
    less(b, a)
}

/// `a >= b`
pub fn greater_equal(a: u64, b: u64) -> (r: bool)
    ensures
        r == less_equal_spec(b, a),
{
    less_equal(b, a)
}

/// `x > 0.0`
pub fn positive(bits: u64) -> (r: bool)
    ensures
        r == is_positive(bits),
{
    0 < bits && bits <= INFINITY
}

/// `-x`
pub fn negate(bits: u64) -> (r: u64)
    ensures
        r == negate_spec(bits),
{
    if bits >= SIGN {
        bits - SIGN
    } else {
        bits + SIGN
    }
}

/// A number is not below itself, and of two numbers at most one is below the
/// other.
pub proof fn lemma_less_is_strict(a: u64, b: u64)
    ensures
        !less_spec(a, a),
        !(less_spec(a, b) && less_spec(b, a)),
{
}

/// Of two numbers of which neither is a NaN exactly one holds: the first is
/// below the second, they are equal, or the second is below the first.
pub proof fn lemma_trichotomy(a: u64, b: u64)
    requires
        !is_nan(a),
        !is_nan(b),
    ensures
        less_spec(a, b) || equal_spec(a, b) || less_spec(b, a),
        !(less_spec(a, b) && equal_spec(a, b)),
        !(less_spec(b, a) && equal_spec(a, b)),
        less_equal_spec(a, b) == (less_spec(a, b) || equal_spec(a, b)),
{
}

/// Changing the sign twice gives the number back, and it turns the order
/// round.
pub proof fn lemma_negate(a: u64, b: u64)
    ensures
        negate_spec(negate_spec(a)) == a,
        is_nan(negate_spec(a)) == is_nan(a),
        ordinal(negate_spec(a)) == -ordinal(a),
        less_spec(negate_spec(a), negate_spec(b)) == less_spec(b, a),
{
}

} // verus!
