//! Saturating arithmetic: a derived bound that would pass the machine's range stays at its end.

use vstd::arithmetic::power2::pow2;
use vstd::prelude::*;

verus! {

/// `value` held to what a `u64` can carry.
pub open spec fn clamp_u64(value: int) -> u64 {
    if value > u64::MAX {
        u64::MAX
    } else if value < 0 {
        0
    } else {
        value as u64
    }
}

/// `value` held to what a `usize` can carry.
pub open spec fn clamp_usize(value: int) -> usize {
    if value > usize::MAX {
        usize::MAX
    } else if value < 0 {
        0
    } else {
        value as usize
    }
}

/// `value` held to what a `u32` can carry.
pub open spec fn clamp_u32(value: int) -> u32 {
    if value > u32::MAX {
        u32::MAX
    } else if value < 0 {
        0
    } else {
        value as u32
    }
}

/// `value` held to the range of `u16`.
pub open spec fn clamp_u16(value: int) -> u16 {
    if value > u16::MAX {
        u16::MAX
    } else {
        value as u16
    }
}

/// The larger of two integers.
pub open spec fn larger(a: int, b: int) -> int {
    if a >= b {
        a
    } else {
        b
    }
}

/// The smaller of two integers.
pub open spec fn smaller(a: int, b: int) -> int {
    if a <= b {
        a
    } else {
        b
    }
}

/// The product, held to the range.
pub fn times(a: u64, b: u64) -> (product: u64)
    ensures
        product == clamp_u64(a * b),
{
    proof {
        assert(a * b >= 0) by (nonlinear_arith);
    }
    match a.checked_mul(b) {
        Some(product) => product,
        None => u64::MAX,
    }
}

/// The product of two sizes, held to the range.
pub fn times_size(a: usize, b: usize) -> (product: usize)
    ensures
        product == clamp_usize(a * b),
{
    proof {
        assert(a * b >= 0) by (nonlinear_arith);
    }
    match a.checked_mul(b) {
        Some(product) => product,
        None => usize::MAX,
    }
}

/// The larger of two values.
pub fn max_u64(a: u64, b: u64) -> (m: u64)
    ensures
        m == larger(a as int, b as int),
{
    if a >= b {
        a
    } else {
        b
    }
}

/// The smaller of two values.
pub fn min_u64(a: u64, b: u64) -> (m: u64)
    ensures
        m == smaller(a as int, b as int),
{
    if a <= b {
        a
    } else {
        b
    }
}

/// A `u64` as a size: the largest size where it does not fit.
pub fn to_size(value: u64) -> (size: usize)
    ensures
        size == clamp_usize(value as int),
{
    if value <= usize::MAX as u64 {
        value as usize
    } else {
        usize::MAX
    }
}

/// A `u64` as a `u32`: the largest `u32` where it does not fit.
pub fn to_u32(value: u64) -> (narrow: u32)
    ensures
        narrow == clamp_u32(value as int),
{
    if value <= u32::MAX as u64 {
        value as u32
    } else {
        u32::MAX
    }
}

/// `value` is the least power of two that is at least `floor`.
pub open spec fn is_next_power_of_two(floor: int, value: int) -> bool {
    exists|k: nat| #[trigger] pow2(k) == value && floor <= value && (k == 0 || 2 * floor > value)
}

/// The least power of two at or above `floor`.
pub fn next_power_of_two(floor: u32) -> (value: u32)
    requires
        floor <= 0x8000_0000,
    ensures
        is_next_power_of_two(floor as int, value as int),
{
    let mut value: u32 = 1;
    let ghost mut k: nat = 0;
    proof {
        vstd::arithmetic::power2::lemma2_to64();
    }
    while value < floor
        invariant
            pow2(k) == value,
            value <= 0x8000_0000,
            floor <= 0x8000_0000,
            k == 0 || 2 * floor > value,
            k <= 31,
            value == 0x8000_0000 || k < 31,
        decreases 0x8000_0000 - value,
    {
        proof {
            vstd::arithmetic::power2::lemma2_to64();
            vstd::arithmetic::power2::lemma_pow2_unfold(k + 1);
            if value > 0x4000_0000 {
                if k < 30 {
                    vstd::arithmetic::power2::lemma_pow2_strictly_increases(k, 30);
                }
                assert(false);
            }
            if k == 30 {
                assert(value == 0x4000_0000);
            }
        }
        value = value * 2;
        proof {
            k = k + 1;
        }
    }
    value
}

/// A clamped value is the value where it fits, and the nearer end of the range where it does not.
pub proof fn a_clamp_is_the_nearest_that_fits(value: int)
    ensures
        0 <= value <= u64::MAX ==> clamp_u64(value) == value,
        value > u64::MAX ==> clamp_u64(value) == u64::MAX,
        value < 0 ==> clamp_u64(value) == 0,
        0 <= value <= usize::MAX ==> clamp_usize(value) == value,
        value > usize::MAX ==> clamp_usize(value) == usize::MAX,
        value < 0 ==> clamp_usize(value) == 0,
        0 <= value <= u32::MAX ==> clamp_u32(value) == value,
        value > u32::MAX ==> clamp_u32(value) == u32::MAX,
        value < 0 ==> clamp_u32(value) == 0,
        0 <= value <= u16::MAX ==> clamp_u16(value) == value,
        value > u16::MAX ==> clamp_u16(value) == u16::MAX,
{
}

/// The larger of two numbers bounds both from above and the smaller from below, and each is one of
/// them.
pub proof fn the_larger_and_the_smaller_bound_both(a: int, b: int)
    ensures
        larger(a, b) >= a && larger(a, b) >= b && (larger(a, b) == a || larger(a, b) == b),
        smaller(a, b) <= a && smaller(a, b) <= b && (smaller(a, b) == a || smaller(a, b) == b),
        larger(a, b) + smaller(a, b) == a + b,
{
}

} // verus!
