//! IEEE-754 comparisons of `f64` values held by their bit patterns
//! (`f64::to_bits`). Holding the bits keeps every value, NaN included,
//! exactly; the comparisons below are the ones `f64`'s `<`, `<=`, `==` and
//! `partial_cmp` perform.
use vstd::prelude::*;

verus! {

pub open spec fn exponent_bits(b: u64) -> int {
    (b as int / 0x10_0000_0000_0000) % 0x800
}

pub open spec fn mantissa_bits(b: u64) -> int {
    b as int % 0x10_0000_0000_0000
}

/// The bits encode a NaN.
pub open spec fn is_nan(b: u64) -> bool {
    exponent_bits(b) == 0x7ff && mantissa_bits(b) != 0
}

/// An integer that orders non-NaN values as their numeric order does
/// (both zeros map to 0; infinities are the extremes).
pub open spec fn order_key(b: u64) -> int {
    if b < 0x8000_0000_0000_0000 {
        b as int
    } else {
        0x8000_0000_0000_0000 - b as int
    }
}

/// `a < b` on the values.
pub open spec fn f64_lt(a: u64, b: u64) -> bool {
    !is_nan(a) && !is_nan(b) && order_key(a) < order_key(b)
}

/// `a <= b` on the values.
pub open spec fn f64_le(a: u64, b: u64) -> bool {
    !is_nan(a) && !is_nan(b) && order_key(a) <= order_key(b)
}

/// `a == b` on the values (false when either is NaN; `0.0 == -0.0`).
pub open spec fn f64_eq(a: u64, b: u64) -> bool {
    !is_nan(a) && !is_nan(b) && order_key(a) == order_key(b)
}

/// The sign of `partial_cmp(a, b).unwrap_or(Equal)`: -1, 0 or 1.
pub open spec fn order_sign(a: u64, b: u64) -> int {
    if f64_lt(a, b) {
        -1
    } else if f64_lt(b, a) {
        1
    } else {
        0
    }
}

/// Bits of `0.0`.
pub const ZERO_BITS: u64 = 0;

/// Bits of `1.0`.
pub const ONE_BITS: u64 = 0x3ff0_0000_0000_0000;

/// The bits encode a NaN.
pub fn bits_is_nan(b: u64) -> (r: bool)
    ensures
        r == is_nan(b),
{
    (b / 0x10_0000_0000_0000) % 0x800 == 0x7ff && b % 0x10_0000_0000_0000 != 0
}

/// The order key of a value.
pub fn bits_order_key(b: u64) -> (k: i128)
    ensures
        k as int == order_key(b),
{
    if b < 0x8000_0000_0000_0000 {
        b as i128
    } else {
        0x8000_0000_0000_0000i128 - b as i128
    }
}

/// `a < b`.
pub fn bits_lt(a: u64, b: u64) -> (r: bool)
    ensures
        r == f64_lt(a, b),
{
    !bits_is_nan(a) && !bits_is_nan(b) && bits_order_key(a) < bits_order_key(b)
}

/// `a <= b`.
pub fn bits_le(a: u64, b: u64) -> (r: bool)
    ensures
        r == f64_le(a, b),
{
    !bits_is_nan(a) && !bits_is_nan(b) && bits_order_key(a) <= bits_order_key(b)
}

/// The values are strictly increasing (hence none is NaN).
pub open spec fn strictly_increasing(s: Seq<u64>) -> bool {
    forall|i: int, j: int| 0 <= i < j < s.len() ==> f64_lt(s[i], s[j])
}

} // verus!
