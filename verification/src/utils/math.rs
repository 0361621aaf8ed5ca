//! Bit and byte-order arithmetic on 32-bit addresses.

use vstd::prelude::*;
use vstd::arithmetic::power2::{pow2, lemma_pow2_unfold, lemma_pow2_pos, lemma_pow2_strictly_increases, lemma2_to64};

verus! {

/// The least exponent `e` with `x <= 2^e`.
pub open spec fn log2_ceil_spec(x: nat) -> nat
    decreases x,
{
    if x <= 1 {
        0
    } else {
        1 + log2_ceil_spec((x + 1) / 2)
    }
}

/// `log2_ceil_spec(x)` is an exponent whose power of two reaches `x`, and no
/// smaller exponent does.
pub proof fn lemma_log2_ceil_bounds(x: nat)
    requires
        x >= 1,
    ensures
        x <= pow2(log2_ceil_spec(x)),
        log2_ceil_spec(x) > 0 ==> pow2((log2_ceil_spec(x) - 1) as nat) < x,
    decreases x,
{
    lemma2_to64();
    if x > 1 {
        let h = (x + 1) / 2;
        lemma_log2_ceil_bounds(h);
        let e = log2_ceil_spec(h);
        lemma_pow2_unfold(e + 1);
        if e > 0 {
            lemma_pow2_unfold(e);
        }
    }
}

/// Any exponent whose power of two reaches `x` is at least `log2_ceil_spec(x)`.
pub proof fn lemma_log2_ceil_least(x: nat, e: nat)
    requires
        x >= 1,
        x <= pow2(e),
    ensures
        log2_ceil_spec(x) <= e,
{
    lemma_log2_ceil_bounds(x);
    let l = log2_ceil_spec(x);
    if l > e {
        if e < (l - 1) as nat {
            lemma_pow2_strictly_increases(e, (l - 1) as nat);
        }
    }
}

/// `2^e` as a machine integer.
pub fn pow2_u64(e: u32) -> (r: u64)
    requires
        e < 64,
    ensures
        r == pow2(e as nat),
{
    let mut r: u64 = 1;
    let mut i: u32 = 0;
    proof {
        lemma2_to64();
    }
    while i < e
        invariant
            i <= e,
            e < 64,
            r == pow2(i as nat),
        decreases e - i,
    {
        proof {
            lemma_pow2_unfold((i + 1) as nat);
            lemma_pow2_strictly_increases((i + 1) as nat, 64);
            vstd::arithmetic::power2::lemma2_to64_rest();
        }
        r = r * 2;
        i = i + 1;
    }
    r
}

/// Ceiling of the base-2 logarithm of a positive integer.
pub fn log2_ceil(x: i32) -> (r: usize)
    requires
        x > 0,
    ensures
        r == log2_ceil_spec(x as nat),
        r <= 31,
{
    let mut r: usize = 0;
    let mut p: u64 = 1;
    let target: u64 = x as u64;
    proof {
        lemma2_to64();
        lemma_log2_ceil_bounds(x as nat);
    }
    while p < target
        invariant
            target == x as nat,
            x > 0,
            r <= 31,
            p == pow2(r as nat),
            r > 0 ==> pow2((r - 1) as nat) < target,
            p <= 0x8000_0000u64,
        decreases 0x1_0000_0000u64 - p,
    {
        proof {
            lemma2_to64();
            lemma_pow2_pos(r as nat);
            lemma_pow2_unfold((r + 1) as nat);
            if r + 1 < 31 {
                lemma_pow2_strictly_increases((r + 1) as nat, 31);
            }
        }
        p = p * 2;
        r = r + 1;
    }
    proof {
        lemma_log2_ceil_least(x as nat, r as nat);
        let l = log2_ceil_spec(x as nat);
        if l < r {
            if l < (r - 1) as nat {
                lemma_pow2_strictly_increases(l, (r - 1) as nat);
            }
        }
    }
    r
}

/// A mask whose `num` lowest bits are set; all 32 bits once `num` reaches 32.
pub open spec fn right_bitmask_spec(num: nat) -> nat {
    if num >= 32 {
        0xFFFF_FFFF
    } else {
        (pow2(num) - 1) as nat
    }
}

/// Builds the mask with the `num` rightmost bits set.
pub fn generate_right_bitmask(num: u32) -> (r: u32)
    ensures
        r == right_bitmask_spec(num as nat),
{
    let mut r: u32 = 0;
    let mut i: u32 = 0;
    proof {
        lemma2_to64();
    }
    while i < num && i < 32
        invariant
            i <= 32,
            i <= num,
            r == pow2(i as nat) - 1,
        decreases 32 - i,
    {
        proof {
            lemma2_to64();
            lemma_pow2_unfold((i + 1) as nat);
            if i + 1 < 32 {
                lemma_pow2_strictly_increases((i + 1) as nat, 32);
            }
        }
        r = r * 2 + 1;
        i = i + 1;
    }
    proof {
        lemma2_to64();
    }
    r
}

/// Adds `2^index` to `num`.
pub fn increment_at_bit_index(num: u32, index: u32) -> (r: u32)
    requires
        index < 32,
        num + pow2(index as nat) <= u32::MAX,
    ensures
        r == num + pow2(index as nat),
{
    let bit: u64 = pow2_u64(index);
    num + (bit as u32)
}

/// The number that four bytes spell when the first is the most significant.
pub open spec fn be_value(b0: u8, b1: u8, b2: u8, b3: u8) -> nat {
    (b0 as nat) * 0x100_0000 + (b1 as nat) * 0x1_0000 + (b2 as nat) * 0x100 + (b3 as nat)
}

/// Reads four bytes in network order as one number.
pub fn be_arr_as_be_u32(arr: [u8; 4]) -> (r: u32)
    ensures
        r == be_value(arr[0], arr[1], arr[2], arr[3]),
{
    let b0: u32 = arr[0] as u32;
    let b1: u32 = arr[1] as u32;
    let b2: u32 = arr[2] as u32;
    let b3: u32 = arr[3] as u32;
    b0 * 0x100_0000 + b1 * 0x1_0000 + b2 * 0x100 + b3
}

/// Splits a number into its four bytes in network order.
pub fn u32_as_be_arr(num: u32) -> (r: [u8; 4])
    ensures
        r[0] == num / 0x100_0000,
        r[1] == (num / 0x1_0000) % 0x100,
        r[2] == (num / 0x100) % 0x100,
        r[3] == num % 0x100,
        be_value(r[0], r[1], r[2], r[3]) == num,
{
    let b0: u8 = (num / 0x100_0000) as u8;
    let b1: u8 = ((num / 0x1_0000) % 0x100) as u8;
    let b2: u8 = ((num / 0x100) % 0x100) as u8;
    let b3: u8 = (num % 0x100) as u8;
    [b0, b1, b2, b3]
}

/// Splitting what four bytes spell gives the four bytes back.
pub proof fn lemma_be_round_trip(b0: u8, b1: u8, b2: u8, b3: u8)
    ensures
        be_value(b0, b1, b2, b3) <= u32::MAX,
        be_value(b0, b1, b2, b3) / 0x100_0000 == b0,
        (be_value(b0, b1, b2, b3) / 0x1_0000) % 0x100 == b1,
        (be_value(b0, b1, b2, b3) / 0x100) % 0x100 == b2,
        be_value(b0, b1, b2, b3) % 0x100 == b3,
{
    let v = be_value(b0, b1, b2, b3) as int;
    let low3 = (b1 as int) * 0x1_0000 + (b2 as int) * 0x100 + (b3 as int);
    let low2 = (b2 as int) * 0x100 + (b3 as int);
    assert(v == (b0 as int) * 0x100_0000 + low3);
    assert(0 <= low3 < 0x100_0000);
    assert(v / 0x100_0000 == b0 as int);
    let top2 = (b0 as int) * 0x100 + (b1 as int);
    assert(v == top2 * 0x1_0000 + low2);
    assert(0 <= low2 < 0x1_0000);
    assert(v / 0x1_0000 == top2);
    let top3 = top2 * 0x100 + (b2 as int);
    assert(v == top3 * 0x100 + (b3 as int));
    assert(v / 0x100 == top3);
}

} // verus!
