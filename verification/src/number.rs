//! A number of the language is a binary64 value of IEEE 754, held as its 64
//! bits: the sign in the top bit, then eleven bits of exponent and fifty-two
//! of fraction. What can be read off the bits is computed here. Sums,
//! differences, products and quotients, and the passage between numbers and
//! their decimal writing, are the work of the host: the machine asks for
//! them.

use vstd::prelude::*;

verus! {

/// The weight of the sign bit.
pub const SIGN: u64 = 0x8000_0000_0000_0000;

/// The bits of positive infinity: the largest magnitude that is a number.
pub const INFINITY: u64 = 0x7ff0_0000_0000_0000;

/// The bits below the sign.
pub open spec fn magnitude(bits: u64) -> int {
    if bits >= SIGN {
        bits - SIGN
    } else {
        bits as int
    }
}

/// Whether the bits hold no number at all (a NaN).
pub open spec fn is_nan(bits: u64) -> bool {
    magnitude(bits) > INFINITY
}

/// Whether the bits hold zero, of either sign.
pub open spec fn is_zero(bits: u64) -> bool {
    magnitude(bits) == 0
}

/// The place of a number on the line: magnitudes grow with the values they
/// stand for, and the sign bit mirrors them. Both zeros share a place.
pub open spec fn place(bits: u64) -> int {
    if bits >= SIGN {
        -magnitude(bits)
    } else {
        magnitude(bits)
    }
}

/// Equality of numbers: a NaN equals nothing, itself included; the two zeros
/// are equal.
pub open spec fn same(left: u64, right: u64) -> bool {
    !is_nan(left) && !is_nan(right) && place(left) == place(right)
}

/// The order of numbers; a NaN is neither below nor above anything.
pub open spec fn below(left: u64, right: u64) -> bool {
    !is_nan(left) && !is_nan(right) && place(left) < place(right)
}

/// The bits with the sign turned over.
pub open spec fn negated(bits: u64) -> u64 {
    if bits >= SIGN {
        (bits - SIGN) as u64
    } else {
        (bits + SIGN) as u64
    }
}

/// Whether `bits` hold a NaN.
pub fn nan(bits: u64) -> (yes: bool)
    ensures
        yes == is_nan(bits),
{
    let low = if bits >= SIGN {
        bits - SIGN
    } else {
        bits
    };
    low > INFINITY
}

/// Whether `bits` hold a zero.
pub fn zero(bits: u64) -> (yes: bool)
    ensures
        yes == is_zero(bits),
{
    bits == 0 || bits == SIGN
}

/// Turns the sign of a number over.
pub fn negate(bits: u64) -> (result: u64)
    ensures
        result == negated(bits),
{
    if bits >= SIGN {
        bits - SIGN
    } else {
        bits + SIGN
    }
}

/// Whether two numbers are equal.
pub fn equal(left: u64, right: u64) -> (yes: bool)
    ensures
        yes == same(left, right),
{
    if nan(left) || nan(right) {
        false
    } else {
        left == right || (zero(left) && zero(right))
    }
}

/// Whether `left` is below `right`.
pub fn less(left: u64, right: u64) -> (yes: bool)
    ensures
        yes == below(left, right),
{
    if nan(left) || nan(right) {
        false
    } else if left >= SIGN {
        if right >= SIGN {
            left > right
        } else {
            !(zero(left) && zero(right))
        }
    } else {
        right < SIGN && left < right
    }
}

/// Negating twice gives the bits back, and keeps what kind of number they
/// hold.
pub proof fn law_negated_twice(bits: u64)
    ensures
        negated(negated(bits)) == bits,
        is_nan(negated(bits)) == is_nan(bits),
        is_zero(negated(bits)) == is_zero(bits),
        place(negated(bits)) == -place(bits),
{
}

} // verus!
