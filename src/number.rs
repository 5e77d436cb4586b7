//! Numbers of the language, held as IEEE-754 binary64 bit patterns. The
//! operations here need no rounding and are exact on the bits.
use vstd::prelude::*;

verus! {

/// The sign bit of a binary64 value.
pub const SIGN_BIT: u64 = 0x8000_0000_0000_0000;

/// The bits of positive infinity; a larger magnitude is a NaN.
pub const INFINITY_BITS: u64 = 0x7FF0_0000_0000_0000;

/// The bits of a number but its sign.
pub open spec fn magnitude(b: u64) -> int {
    if b >= SIGN_BIT {
        b - SIGN_BIT
    } else {
        b as int
    }
}

pub open spec fn spec_is_nan(b: u64) -> bool {
    magnitude(b) > INFINITY_BITS
}

/// Positive or negative zero.
pub open spec fn spec_is_zero(b: u64) -> bool {
    magnitude(b) == 0
}

/// The position of a number that is not NaN on the real line: binary64 values
/// of one sign are ordered as their magnitude bits are, and both zeros meet.
pub open spec fn ordinal(b: u64) -> int {
    if b >= SIGN_BIT {
        -magnitude(b)
    } else {
        magnitude(b)
    }
}

/// `==` on binary64 values: NaN equals nothing, the two zeros are equal.
pub open spec fn spec_number_eq(a: u64, b: u64) -> bool {
    !spec_is_nan(a) && !spec_is_nan(b) && ordinal(a) == ordinal(b)
}

/// `<` on binary64 values: false whenever a NaN takes part.
pub open spec fn spec_number_lt(a: u64, b: u64) -> bool {
    !spec_is_nan(a) && !spec_is_nan(b) && ordinal(a) < ordinal(b)
}

/// `<=` on binary64 values: false whenever a NaN takes part.
pub open spec fn spec_number_le(a: u64, b: u64) -> bool {
    !spec_is_nan(a) && !spec_is_nan(b) && ordinal(a) <= ordinal(b)
}

/// Unary minus on binary64 values flips the sign bit, of NaN too.
pub open spec fn spec_negate(b: u64) -> u64 {
    if b >= SIGN_BIT {
        (b - SIGN_BIT) as u64
    } else {
        (b + SIGN_BIT) as u64
    }
}

fn magnitude_of(b: u64) -> (r: u64)
    ensures
        r as int == magnitude(b),
        r < SIGN_BIT,
{
    if b >= SIGN_BIT {
        b - SIGN_BIT
    } else {
        b
    }
}

/// The number is NaN.
pub fn is_nan(b: u64) -> (r: bool)
    ensures
        r == spec_is_nan(b),
{
    magnitude_of(b) > INFINITY_BITS
}

/// The number is positive or negative zero.
pub fn is_zero(b: u64) -> (r: bool)
    ensures
        r == spec_is_zero(b),
{
    magnitude_of(b) == 0
}

/// Unary minus.
pub fn negate(b: u64) -> (r: u64)
    ensures
        r == spec_negate(b),
{
    if b >= SIGN_BIT {
        b - SIGN_BIT
    } else {
        b + SIGN_BIT
    }
}

/// `a == b`.
pub fn number_eq(a: u64, b: u64) -> (r: bool)
    ensures
        r == spec_number_eq(a, b),
{
    if is_nan(a) || is_nan(b) {
        return false;
    }
    let ma = magnitude_of(a);
    let mb = magnitude_of(b);
    if ma == 0 && mb == 0 {
        true
    } else {
        a == b
    }
}

/// `a < b`.
pub fn number_lt(a: u64, b: u64) -> (r: bool)
    ensures
        r == spec_number_lt(a, b),
{
    if is_nan(a) || is_nan(b) {
        return false;
    }
    let ma = magnitude_of(a);
    let mb = magnitude_of(b);
    let na = a >= SIGN_BIT;
    let nb = b >= SIGN_BIT;
    if !na && !nb {
        ma < mb
    } else if na && nb {
        ma > mb
    } else if na {
        !(ma == 0 && mb == 0)
    } else {
        false
    }
}

/// `a <= b`.
pub fn number_le(a: u64, b: u64) -> (r: bool)
    ensures
        r == spec_number_le(a, b),
{
    if is_nan(a) || is_nan(b) {
        return false;
    }
    number_lt(a, b) || number_eq(a, b)
}

} // verus!
