//! Bit-level helpers behind the scan engines: find-first-set, mask
//! bit extraction, and the word-at-a-time zero-byte test.

use vstd::prelude::*;
use vstd::std_specs::bits::{
    axiom_u32_leading_zeros, axiom_u32_trailing_zeros, u32_leading_zeros, u32_trailing_zeros,
};

verus! {

/// Find the first (least significant) set bit of `i`: its 1-based
/// position, or 0 when `i == 0`.
pub fn ffs(i: i32) -> (r: i32)
    ensures
        i == 0 ==> r == 0,
        i != 0 ==> r == u32_trailing_zeros(i as u32) + 1 && 1 <= r <= 32,
{
    if i == 0 {
        0
    } else {
        let u: u32 = i as u32;
        proof {
            axiom_u32_trailing_zeros(u);
            assert(u != 0) by (bit_vector)
                requires
                    u == i as u32 && i != 0i32,
            ;
        }
        (u.trailing_zeros() as i32) + 1
    }
}

/// Index of the least significant set bit of a comparison mask.
pub fn first_set_bit(mask: i32) -> (r: usize)
    requires
        mask != 0,
    ensures
        r == u32_trailing_zeros(mask as u32),
        r < 32,
{
    let u: u32 = mask as u32;
    proof {
        axiom_u32_trailing_zeros(u);
        assert(u != 0) by (bit_vector)
            requires
                u == mask as u32 && mask != 0i32,
        ;
    }
    u.trailing_zeros() as usize
}

/// Index of the most significant set bit of a comparison mask.
pub fn last_set_bit(mask: i32) -> (r: usize)
    requires
        mask != 0,
    ensures
        r == 31 - u32_leading_zeros(mask as u32),
        r < 32,
{
    let u: u32 = mask as u32;
    proof {
        axiom_u32_leading_zeros(u);
        assert(u != 0) by (bit_vector)
            requires
                u == mask as u32 && mask != 0i32,
        ;
    }
    31 - (u.leading_zeros() as usize)
}

/// Some byte of the word `x` is zero.
pub open spec fn word_has_zero_byte(x: u64) -> bool {
    ||| x & 0xff == 0
    ||| (x >> 8) & 0xff == 0
    ||| (x >> 16) & 0xff == 0
    ||| (x >> 24) & 0xff == 0
    ||| (x >> 32) & 0xff == 0
    ||| (x >> 40) & 0xff == 0
    ||| (x >> 48) & 0xff == 0
    ||| (x >> 56) & 0xff == 0
}

/// The word-at-a-time zero-byte test the widened scan tier uses: borrows
/// propagate through the subtraction exactly when some byte is zero.
pub fn has_zero_byte_u64(x: u64) -> (r: bool)
    ensures
        r == word_has_zero_byte(x),
{
    let y = x.wrapping_sub(0x0101_0101_0101_0101);
    let r = (y & !x & 0x8080_8080_8080_8080) != 0;
    proof {
        let z = vstd::wrapping::u64_specs::wrapping_sub(x, 0x0101_0101_0101_0101u64);
        assert(((z & !x & 0x8080_8080_8080_8080u64) != 0) == word_has_zero_byte(x))
            by (bit_vector)
            requires
                z == if x - 0x0101_0101_0101_0101u64 < 0 {
                    (x - 0x0101_0101_0101_0101u64 + 0x1_0000_0000_0000_0000) as u64
                } else {
                    (x - 0x0101_0101_0101_0101u64) as u64
                },
        ;
    }
    r
}

} // verus!
