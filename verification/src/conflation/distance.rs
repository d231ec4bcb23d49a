//! Distances between a store and a map entity.
//!
//! A distance is a length in metres, held as the bits of a double-precision
//! number: eleven bits of exponent above fifty-two bits of fraction. For
//! lengths, which are never negative, the order of the bits as unsigned
//! integers is the order of the numbers, and whatever is not a length (a
//! negative number, an infinity, a NaN) lies above every length that matters
//! here.

use vstd::prelude::*;
use vstd::arithmetic::div_mod::{lemma_basic_div, lemma_small_mod};
use vstd::arithmetic::power2::{
    lemma2_to64, lemma2_to64_rest, lemma_pow2_strictly_increases, lemma_pow2_unfold, pow2,
};

verus! {

/// Five hundred metres: an entity this far from a store, or farther, is no
/// candidate for it.
pub const MATCH_RADIUS: u64 = 0x407F_4000_0000_0000;

/// Four hundred metres: a match on the first pass over a greater distance is
/// noted in the report.
pub const WARNING_RADIUS: u64 = 0x4079_0000_0000_0000;

/// Two to the power of fifty-two: where the exponent of a distance begins.
pub const FRACTION_RANGE: u64 = 0x10_0000_0000_0000;

/// The quotient of `m` by `d`, rounded to the nearest whole number, and to the
/// even one where two are as near.
pub open spec fn rounded_half_even(m: int, d: int) -> int
    recommends
        d > 0,
{
    let q = m / d;
    let r = m % d;
    if 2 * r > d || (2 * r == d && q % 2 == 1) {
        q + 1
    } else {
        q
    }
}

/// The exponent field of a distance.
pub open spec fn exponent_of(bits: u64) -> int {
    bits as int / FRACTION_RANGE as int
}

/// The fraction field of a distance.
pub open spec fn fraction_of(bits: u64) -> int {
    bits as int % FRACTION_RANGE as int
}

/// The whole number of metres nearest to a distance below the match radius.
/// With the exponent field `e` above zero the distance is
/// `(2^52 + fraction) / 2^(1075 - e)` metres; with it at zero the distance is
/// less than any length that can be measured.
pub open spec fn metres_of(bits: u64) -> int
    recommends
        bits < MATCH_RADIUS,
{
    let e = exponent_of(bits);
    if e == 0 {
        0
    } else {
        rounded_half_even(
            FRACTION_RANGE as int + fraction_of(bits),
            pow2((1075 - e) as nat) as int,
        )
    }
}

/// Two to the power of `n`.
fn power_of_two(n: u64) -> (r: u64)
    requires
        n <= 53,
    ensures
        r == pow2(n as nat),
        r <= 0x20_0000_0000_0000,
{
    let mut r: u64 = 1;
    let mut i: u64 = 0;
    proof {
        lemma2_to64();
        lemma2_to64_rest();
    }
    while i < n
        invariant
            i <= n <= 53,
            r == pow2(i as nat),
            pow2(53) == 0x20_0000_0000_0000,
        decreases n - i,
    {
        proof {
            lemma_pow2_unfold((i + 1) as nat);
            if i + 1 < 53 {
                lemma_pow2_strictly_increases((i + 1) as nat, 53);
            }
        }
        r = r * 2;
        i += 1;
    }
    proof {
        if n < 53 {
            lemma_pow2_strictly_increases(n as nat, 53);
        }
    }
    r
}

/// The whole number of metres nearest to a distance below the match radius.
pub fn whole_metres(bits: u64) -> (r: u64)
    requires
        bits < MATCH_RADIUS,
    ensures
        r == metres_of(bits),
{
    let e: u64 = bits / FRACTION_RANGE;
    let f: u64 = bits % FRACTION_RANGE;
    if e == 0 {
        return 0;
    }
    let shift: u64 = 1075 - e;
    let m: u64 = FRACTION_RANGE + f;
    if shift >= 54 {
        proof {
            lemma2_to64_rest();
            if shift > 54 {
                lemma_pow2_strictly_increases(54, shift as nat);
            }
            let d = pow2(shift as nat) as int;
            lemma_basic_div(m as int, d);
            lemma_small_mod(m as nat, d as nat);
        }
        return 0;
    }
    let d = power_of_two(shift);
    proof {
        vstd::arithmetic::power2::lemma_pow2_pos(shift as nat);
    }
    let q = m / d;
    let r = m % d;
    if 2 * r > d || (2 * r == d && q % 2 == 1) {
        q + 1
    } else {
        q
    }
}

} // verus!
