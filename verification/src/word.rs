//! Single-precision numbers carried as their IEEE-754 bit patterns.
//!
//! Every parameter value, every preset value and every gain the lookahead
//! window compares is an `f32`. The library holds each one as the `u32` word
//! that encodes it, which is exactly what the saved state stores, and orders
//! words as the numbers they encode are ordered.

use vstd::prelude::*;

verus! {

/// The sign bit of a single-precision word.
pub const SIGN_BIT: u32 = 0x8000_0000;

/// The word of positive infinity; a larger magnitude is a NaN.
pub const INFINITY_MAGNITUDE: u32 = 0x7F80_0000;

/// The word without its sign: the encoded number's magnitude, in an order
/// that matches the magnitudes of the numbers.
pub open spec fn magnitude(w: u32) -> int {
    if w >= SIGN_BIT { w - SIGN_BIT } else { w as int }
}

/// Whether the word encodes a NaN.
pub open spec fn is_nan(w: u32) -> bool {
    magnitude(w) > INFINITY_MAGNITUDE
}

/// An integer that orders the non-NaN words as their numbers are ordered;
/// both zeroes map to zero.
pub open spec fn order_key(w: u32) -> int {
    if w >= SIGN_BIT { -magnitude(w) } else { magnitude(w) }
}

/// `a <= b` for the numbers the words encode, false where either is a NaN.
pub open spec fn spec_at_most(a: u32, b: u32) -> bool {
    !is_nan(a) && !is_nan(b) && order_key(a) <= order_key(b)
}

/// The order key of a word, computed.
pub fn key(w: u32) -> (k: i64)
    ensures
        k == order_key(w),
{
    if w >= SIGN_BIT {
        -((w - SIGN_BIT) as i64)
    } else {
        w as i64
    }
}

/// Whether the word encodes a NaN, computed.
pub fn nan(w: u32) -> (b: bool)
    ensures
        b == is_nan(w),
{
    let m = if w >= SIGN_BIT { w - SIGN_BIT } else { w };
    m > INFINITY_MAGNITUDE
}

/// `a <= b` on the encoded numbers, as the float comparison answers it.
pub fn at_most(a: u32, b: u32) -> (r: bool)
    ensures
        r == spec_at_most(a, b),
{
    !nan(a) && !nan(b) && key(a) <= key(b)
}

} // verus!
