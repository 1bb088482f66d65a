//! Whole square roots and fifth roots, found bit by bit.

use crate::fixed::{saturated, Fixed};
use vstd::prelude::*;

verus! {

/// Whether `r` is the whole part of the square root of `v`.
pub open spec fn is_floor_sqrt(v: nat, r: nat) -> bool {
    r * r <= v < (r + 1) * (r + 1)
}

/// The whole part of the square root of `v`.
pub open spec fn floor_sqrt(v: nat) -> nat {
    choose|r: nat| is_floor_sqrt(v, r)
}

/// Squaring keeps the order of natural numbers.
pub proof fn lemma_square_monotonic(a: nat, b: nat)
    by (nonlinear_arith)
    requires
        a <= b,
    ensures
        a * a <= b * b,
{
}

/// At most one number is the whole square root of `v`.
pub proof fn lemma_floor_sqrt_unique(v: nat, a: nat, b: nat)
    requires
        is_floor_sqrt(v, a),
        is_floor_sqrt(v, b),
    ensures
        a == b,
{
    if a < b {
        lemma_square_monotonic(a + 1, b);
    } else if b < a {
        lemma_square_monotonic(b + 1, a);
    }
}

/// Every natural number has a whole square root.
pub proof fn lemma_floor_sqrt_exists(v: nat)
    ensures
        is_floor_sqrt(v, floor_sqrt(v)),
    decreases v,
{
    if v == 0 {
        assert(0 * 0 <= 0 < (0 + 1) * (0 + 1)) by (nonlinear_arith);
        assert(is_floor_sqrt(0, 0));
    } else {
        lemma_floor_sqrt_exists((v - 1) as nat);
        let r = floor_sqrt((v - 1) as nat);
        if (r + 1) * (r + 1) <= v {
            assert((r + 1) * (r + 1) < (r + 1 + 1) * (r + 1 + 1)) by (nonlinear_arith);
            assert(is_floor_sqrt(v, r + 1));
        } else {
            assert(is_floor_sqrt(v, r));
        }
    }
}

/// The whole square root is the only number that squares to at most `v`
/// while its successor squares to more.
pub proof fn lemma_floor_sqrt_is(v: nat, r: nat)
    requires
        is_floor_sqrt(v, r),
    ensures
        floor_sqrt(v) == r,
{
    lemma_floor_sqrt_exists(v);
    lemma_floor_sqrt_unique(v, r, floor_sqrt(v));
}

/// The whole square root keeps the order of natural numbers.
pub proof fn lemma_floor_sqrt_monotonic(a: nat, b: nat)
    requires
        a <= b,
    ensures
        floor_sqrt(a) <= floor_sqrt(b),
{
    lemma_floor_sqrt_exists(a);
    lemma_floor_sqrt_exists(b);
    let ra = floor_sqrt(a);
    let rb = floor_sqrt(b);
    if rb < ra {
        lemma_square_monotonic(rb + 1, ra);
    }
}

/// A square of a number below 2^64 is below 2^128.
proof fn lemma_square_fits(c: int)
    by (nonlinear_arith)
    requires
        0 <= c <= 0xffff_ffff_ffff_ffff,
    ensures
        c * c <= 0xffff_ffff_ffff_fffe_0000_0000_0000_0001,
{
}

/// The square of 2^64 is 2^128, and a sum squared is what it is.
proof fn lemma_square_of_sum(r: int, s: int)
    by (nonlinear_arith)
    ensures
        (r + s + s) * (r + s + s) == (r + 2 * s) * (r + 2 * s),
        0x1_0000_0000_0000_0000 * 0x1_0000_0000_0000_0000
            == 0x1_0000_0000_0000_0000_0000_0000_0000_0000,
{
}

/// The whole part of the square root of `v`.
pub fn sqrt_floor(v: u128) -> (r: u64)
    ensures
        r == floor_sqrt(v as nat),
        is_floor_sqrt(v as nat, r as nat),
{
    let mut r: u128 = 0;
    let mut step: u128 = 0x1_0000_0000_0000_0000;
    let mut k: u32 = 64;
    proof {
        lemma_square_of_sum(0, 0);
    }
    assert(1u128 << 64u32 == 0x1_0000_0000_0000_0000) by (bit_vector);
    while k > 0
        invariant
            k <= 64,
            step == 1u128 << k,
            1 <= step <= 0x1_0000_0000_0000_0000,
            r + step <= 0x1_0000_0000_0000_0000,
            r * r <= v,
            v < (r + step) * (r + step),
        decreases k,
    {
        let ghost old_step = step;
        assert(((1u128 << k) / 2 == 1u128 << ((k - 1) as u32)) && (1u128 << k) % 2 == 0 && (1u128
            << ((k - 1) as u32)) >= 1) by (bit_vector)
            requires
                1 <= k <= 64,
        ;
        k = k - 1;
        step = step / 2;
        let cand = r + step;
        proof {
            lemma_square_fits(cand as int);
            lemma_square_of_sum(r as int, step as int);
        }
        if cand * cand <= v {
            r = cand;
        }
    }
    assert(1u128 << 0u32 == 1) by (bit_vector);
    proof {
        lemma_floor_sqrt_is(v as nat, r as nat);
    }
    r as u64
}

/// The fifth power of `x`.
pub open spec fn pow5(x: nat) -> nat {
    x * x * x * x * x
}

/// Whether `r` is the whole part of the fifth root of `v`.
pub open spec fn is_floor_root5(v: nat, r: nat) -> bool {
    pow5(r) <= v < pow5(r + 1)
}

/// The whole part of the fifth root of `v`.
pub open spec fn floor_root5(v: nat) -> nat {
    choose|r: nat| is_floor_root5(v, r)
}

/// Taking the fifth power keeps the order of natural numbers.
pub proof fn lemma_pow5_monotonic(a: nat, b: nat)
    requires
        a <= b,
    ensures
        pow5(a) <= pow5(b),
{
    lemma_square_monotonic(a, b);
    let a2 = a * a;
    let b2 = b * b;
    assert(a2 * a <= b2 * b) by (nonlinear_arith)
        requires
            a2 <= b2,
            a <= b,
    ;
    let a3 = a2 * a;
    let b3 = b2 * b;
    assert(a3 * a <= b3 * b) by (nonlinear_arith)
        requires
            a3 <= b3,
            a <= b,
    ;
    let a4 = a3 * a;
    let b4 = b3 * b;
    assert(a4 * a <= b4 * b) by (nonlinear_arith)
        requires
            a4 <= b4,
            a <= b,
    ;
}

/// The fifth power of a successor is larger.
pub proof fn lemma_pow5_successor(a: nat)
    ensures
        pow5(a) < pow5(a + 1),
{
    let a2 = a * a;
    let b = a + 1;
    let b2 = b * b;
    assert(a2 < b2) by (nonlinear_arith)
        requires
            b == a + 1,
            a2 == a * a,
            b2 == b * b,
    ;
    let a3 = a2 * a;
    let b3 = b2 * b;
    assert(a3 < b3) by (nonlinear_arith)
        requires
            a2 < b2,
            a < b,
            a3 == a2 * a,
            b3 == b2 * b,
    ;
    let a4 = a3 * a;
    let b4 = b3 * b;
    assert(a4 < b4) by (nonlinear_arith)
        requires
            a3 < b3,
            a < b,
            a4 == a3 * a,
            b4 == b3 * b,
    ;
    assert(a4 * a < b4 * b) by (nonlinear_arith)
        requires
            a4 < b4,
            a < b,
    ;
}

/// At most one number is the whole fifth root of `v`.
pub proof fn lemma_floor_root5_unique(v: nat, a: nat, b: nat)
    requires
        is_floor_root5(v, a),
        is_floor_root5(v, b),
    ensures
        a == b,
{
    if a < b {
        lemma_pow5_monotonic(a + 1, b);
    } else if b < a {
        lemma_pow5_monotonic(b + 1, a);
    }
}

/// Every natural number has a whole fifth root.
pub proof fn lemma_floor_root5_exists(v: nat)
    ensures
        is_floor_root5(v, floor_root5(v)),
    decreases v,
{
    if v == 0 {
        assert(pow5(0) == 0) by (nonlinear_arith);
        assert(pow5(1) == 1) by (nonlinear_arith);
        assert(is_floor_root5(0, 0));
    } else {
        lemma_floor_root5_exists((v - 1) as nat);
        let r = floor_root5((v - 1) as nat);
        if pow5(r + 1) <= v {
            lemma_pow5_successor(r + 1);
            assert(is_floor_root5(v, r + 1));
        } else {
            assert(is_floor_root5(v, r));
        }
    }
}

/// The whole fifth root is the only number whose fifth power is at most `v`
/// while that of its successor is more.
pub proof fn lemma_floor_root5_is(v: nat, r: nat)
    requires
        is_floor_root5(v, r),
    ensures
        floor_root5(v) == r,
{
    lemma_floor_root5_exists(v);
    lemma_floor_root5_unique(v, r, floor_root5(v));
}

/// The largest number whose fifth power is below 2^128.
pub const ROOT5_LIMIT: u128 = 50_859_008;

/// The fifth power of the largest such number, and that of its successor.
proof fn lemma_root5_limit()
    ensures
        pow5(ROOT5_LIMIT as nat) == 0xffff_ff3c_d1df_7dab_abcc_0000_0000_0000,
        pow5((ROOT5_LIMIT + 1) as nat) > 0xffff_ffff_ffff_ffff_ffff_ffff_ffff_ffff,
{
    assert(50_859_008int * 50_859_008 * 50_859_008 * 50_859_008 * 50_859_008
        == 0xffff_ff3c_d1df_7dab_abcc_0000_0000_0000) by (nonlinear_arith);
    assert(50_859_009int * 50_859_009 * 50_859_009 * 50_859_009 * 50_859_009
        > 0xffff_ffff_ffff_ffff_ffff_ffff_ffff_ffff) by (nonlinear_arith);
}

/// The fifth power of a number that is not above the limit.
fn fifth_power(c: u128) -> (p: u128)
    requires
        c <= ROOT5_LIMIT,
    ensures
        p == pow5(c as nat),
{
    proof {
        lemma_root5_limit();
        lemma_pow5_monotonic(c as nat, ROOT5_LIMIT as nat);
        let l = ROOT5_LIMIT as nat;
        lemma_square_monotonic(c as nat, l);
        assert(c * c * c <= l * l * l) by (nonlinear_arith)
            requires
                c * c <= l * l,
                c <= l,
        ;
        assert(c * c * c * c <= l * l * l * l) by (nonlinear_arith)
            requires
                c * c * c <= l * l * l,
                c <= l,
        ;
        assert(l * l == 2_586_638_694_744_064) by (nonlinear_arith)
            requires
                l == 50_859_008,
        ;
        assert(l * l * l == 131_553_878_069_097_908_928_512) by (nonlinear_arith)
            requires
                l == 50_859_008,
        ;
        assert(l * l * l * l == 6_690_699_737_147_275_102_978_463_236_096) by (nonlinear_arith)
            requires
                l == 50_859_008,
        ;
    }
    let c2 = c * c;
    let c3 = c2 * c;
    let c4 = c3 * c;
    c4 * c
}

/// The whole part of the fifth root of `v`.
pub fn root5_floor(v: u128) -> (r: u64)
    ensures
        r == floor_root5(v as nat),
        is_floor_root5(v as nat, r as nat),
{
    let mut r: u128 = 0;
    let mut step: u128 = 0x400_0000;
    let mut k: u32 = 26;
    proof {
        assert(pow5(0) == 0) by (nonlinear_arith);
        lemma_root5_limit();
        lemma_pow5_monotonic((ROOT5_LIMIT + 1) as nat, 0x400_0000);
    }
    assert(1u128 << 26u32 == 0x400_0000) by (bit_vector);
    while k > 0
        invariant
            k <= 26,
            step == 1u128 << k,
            1 <= step <= 0x400_0000,
            r + step <= 0x400_0000,
            pow5(r as nat) <= v,
            v < pow5((r + step) as nat),
        decreases k,
    {
        assert(((1u128 << k) / 2 == 1u128 << ((k - 1) as u32)) && (1u128 << k) % 2 == 0 && (1u128
            << ((k - 1) as u32)) >= 1) by (bit_vector)
            requires
                1 <= k <= 26,
        ;
        k = k - 1;
        step = step / 2;
        let cand = r + step;
        if cand <= ROOT5_LIMIT {
            if fifth_power(cand) <= v {
                r = cand;
            }
        } else {
            proof {
                lemma_root5_limit();
                lemma_pow5_monotonic((ROOT5_LIMIT + 1) as nat, cand as nat);
            }
        }
    }
    assert(1u128 << 0u32 == 1) by (bit_vector);
    proof {
        lemma_floor_root5_is(v as nat, r as nat);
    }
    r as u64
}

impl Fixed {
    pub open spec fn spec_sqrt(self) -> Fixed {
        if self.raw <= 0 {
            Fixed::zero()
        } else {
            saturated(floor_sqrt((self@ * 0x1_0000_0000) as nat) as int)
        }
    }

    /// The square root, rounded down; zero for a number below zero.
    #[verifier::when_used_as_spec(spec_sqrt)]
    pub fn sqrt(self) -> (r: Fixed)
        ensures
            r == self.spec_sqrt(),
    {
        if self.raw <= 0 {
            Fixed::zero()
        } else {
            let v: u128 = (self.raw as u128) * 0x1_0000_0000u128;
            crate::fixed::narrow(sqrt_floor(v) as i128)
        }
    }
}

} // verus!
