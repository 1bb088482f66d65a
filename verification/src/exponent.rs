//! Powers of two with a fractional exponent, and the amplitude that a gain in
//! decibels stands for.

use crate::fixed::{saturated, Fixed, SCALE};
use vstd::arithmetic::power2::{lemma_pow2_pos, lemma_pow2_unfold, pow2};
use vstd::prelude::*;

verus! {

/// Raw value of the natural logarithm of 2.
pub const LN2_RAW: i64 = 2_977_044_472;

/// Raw value of `log2(10) / 40`.
pub const DECIBEL_EXPONENT_RAW: i64 = 356_689_313;

/// Terms of the exponential series beyond the leading one.
pub const EXP_TERMS: i32 = 13;

/// The largest whole exponent, in magnitude, that `exp2` tells apart.
pub const EXPONENT_LIMIT: i64 = 64;

/// The exponential series in nested form, from its `k`-th factor on: the
/// factor is `1 + t / k * (next factor)`, and the factor after the last is 1.
pub open spec fn exp_series(t: Fixed, k: int) -> Fixed
    decreases EXP_TERMS + 1 - k,
{
    if k < 1 || k > EXP_TERMS {
        Fixed::one()
    } else {
        Fixed::one().add(t.div(Fixed::from_int(k as i32)).mul(exp_series(t, k + 1)))
    }
}

/// Two to the power `f`, for `f` from 0 up to 1: the exponential series of
/// `f ln 2`.
pub open spec fn exp2_fraction(f: Fixed) -> Fixed {
    exp_series(f.mul(Fixed::from_raw(LN2_RAW)), 1)
}

/// The whole part of `e`, kept between -64 and 64.
pub open spec fn limited_exponent(e: Fixed) -> int {
    let n = e@ / (SCALE as int);
    if n < -EXPONENT_LIMIT {
        -EXPONENT_LIMIT as int
    } else if n > EXPONENT_LIMIT {
        EXPONENT_LIMIT as int
    } else {
        n
    }
}

/// `m` times two to the whole power `n`, rounded down.
pub open spec fn scale_by_power(m: Fixed, n: int) -> Fixed {
    if n >= 0 {
        saturated(m@ * pow2(n as nat))
    } else {
        Fixed { raw: (m@ / (pow2((-n) as nat) as int)) as i64 }
    }
}

/// The series for two to the power `e`: the exponential series of the
/// fractional part of `e` times `ln 2`, fourteen terms, times two to the
/// whole part of `e`. How close it comes to the power is not stated here.
pub open spec fn series_power_of_two(e: Fixed) -> Fixed {
    scale_by_power(exp2_fraction(e.frac()), limited_exponent(e))
}

/// The series for the amplitude `10^(gain_db / 40)`.
pub open spec fn series_amplitude(gain_db: Fixed) -> Fixed {
    series_power_of_two(gain_db.mul(Fixed::from_raw(DECIBEL_EXPONENT_RAW)))
}

/// Two to the power zero is one, and so is the amplitude of zero decibels,
/// with no error.
pub proof fn lemma_power_of_zero()
    ensures
        series_power_of_two(Fixed::zero()) == Fixed::one(),
        series_amplitude(Fixed::zero()) == Fixed::one(),
{
    let zero = Fixed::zero();
    assert(0 * LN2_RAW == 0);
    assert(0 * DECIBEL_EXPONENT_RAW == 0);
    assert(zero.mul(Fixed::from_raw(LN2_RAW)) == zero);
    assert(zero.mul(Fixed::from_raw(DECIBEL_EXPONENT_RAW)) == zero);
    assert(zero.frac() == zero);
    assert(zero.div(Fixed::from_int(1)) == zero);
    assert forall|y: Fixed| (#[trigger] zero.mul(y)) == zero by {
        assert(0 * y@ == 0);
    }
    assert(exp_series(zero, 1) == Fixed::one());
    vstd::arithmetic::power2::lemma2_to64();
    assert(limited_exponent(zero) == 0);
    assert(SCALE * pow2(0) == SCALE) by (nonlinear_arith)
        requires
            pow2(0) == 1,
    ;
}

/// For an argument from 0 to 0.7 every factor of the exponential series
/// lies from 1 to 4.
pub proof fn lemma_exp_series_range(t: Fixed, k: int)
    requires
        0 <= t@ <= 3_006_477_107,
    ensures
        SCALE <= exp_series(t, k)@ <= 4 * SCALE,
    decreases EXP_TERMS + 1 - k,
{
    if 1 <= k <= EXP_TERMS {
        lemma_exp_series_range(t, k + 1);
        let next = exp_series(t, k + 1);
        let den = Fixed::from_int(k as i32);
        assert(den@ == k * SCALE);
        assert(den@ >= SCALE) by (nonlinear_arith)
            requires
                den@ == k * SCALE,
                k >= 1,
        ;
        crate::fixed::lemma_div_bound(t, den, 3_006_477_107, SCALE as int);
        let step = t.div(den);
        crate::fixed::lemma_mul_bound(step, next, 3_006_477_107, 4 * SCALE);
    }
}

/// For a gain from -40 to 40 decibels the series for the amplitude lies
/// from 1/16 to 32.
pub proof fn lemma_amplitude_range(gain_db: Fixed)
    requires
        -40 * SCALE <= gain_db@ <= 40 * SCALE,
    ensures
        SCALE / 16 <= series_amplitude(gain_db)@ <= 32 * SCALE,
{
    let e = gain_db.mul(Fixed::from_raw(DECIBEL_EXPONENT_RAW));
    crate::fixed::lemma_mul_bound(
        gain_db,
        Fixed::from_raw(DECIBEL_EXPONENT_RAW),
        40 * SCALE,
        DECIBEL_EXPONENT_RAW as int,
    );
    assert(-14_267_572_520 <= e@ <= 14_267_572_520);
    let n = limited_exponent(e);
    assert(-4 <= n <= 3);
    let f = e.frac();
    assert(0 <= f@ < SCALE);
    crate::fixed::lemma_mul_bound(f, Fixed::from_raw(LN2_RAW), SCALE as int, LN2_RAW as int);
    let t = f.mul(Fixed::from_raw(LN2_RAW));
    lemma_exp_series_range(t, 1);
    let m = exp2_fraction(f);
    assert(SCALE <= m@ <= 4 * SCALE);
    vstd::arithmetic::power2::lemma2_to64();
    if n >= 0 {
        assert(m@ <= m@ * pow2(n as nat) <= 8 * m@) by (nonlinear_arith)
            requires
                1 <= pow2(n as nat) <= 8,
                m@ >= 0,
        ;
    } else {
        let p = pow2((-n) as nat) as int;
        assert(2 <= p <= 16);
        vstd::arithmetic::div_mod::lemma_div_is_ordered_by_denominator(m@, p, 16);
        vstd::arithmetic::div_mod::lemma_div_is_ordered(SCALE as int, m@, 16);
        vstd::arithmetic::div_mod::lemma_div_is_ordered_by_denominator(m@, 1, p);
    }
}

/// Two to the power `f`, for `f` from 0 up to 1.
fn exp2_frac(f: Fixed) -> (m: Fixed)
    requires
        0 <= f@ < SCALE,
    ensures
        m == exp2_fraction(f),
        m@ >= SCALE,
{
    let t = f.mul(Fixed::from_raw(LN2_RAW));
    assert(t@ >= 0) by {
        assert(f@ * LN2_RAW >= 0) by (nonlinear_arith)
            requires
                f@ >= 0,
                LN2_RAW >= 0,
        ;
    }
    let mut m = Fixed::one();
    let mut k: i32 = EXP_TERMS;
    while k >= 1
        invariant
            0 <= k <= EXP_TERMS,
            t@ >= 0,
            m == exp_series(t, k + 1),
            m@ >= SCALE,
        decreases k,
    {
        let step = t.div(Fixed::from_int(k));
        assert(step@ >= 0) by {
            let d = Fixed::from_int(k)@;
            assert(d > 0);
            assert((t@ * SCALE) / d >= 0) by (nonlinear_arith)
                requires
                    t@ >= 0,
                    SCALE > 0,
                    d > 0,
            ;
        }
        assert(step@ * m@ >= 0) by (nonlinear_arith)
            requires
                step@ >= 0,
                m@ >= 0,
        ;
        m = Fixed::one().add(step.mul(m));
        k = k - 1;
    }
    m
}

/// `m` times two to the power `n`.
fn scale_up(m: Fixed, n: i64) -> (r: Fixed)
    requires
        0 <= n <= EXPONENT_LIMIT,
        m@ >= 0,
    ensures
        r == scale_by_power(m, n as int),
{
    let mut r = m;
    let mut i: i64 = 0;
    proof {
        vstd::arithmetic::power2::lemma2_to64();
        assert(m@ * pow2(0) == m@) by (nonlinear_arith)
            requires
                pow2(0) == 1,
        ;
    }
    while i < n
        invariant
            0 <= i <= n <= EXPONENT_LIMIT,
            r == saturated(m@ * pow2(i as nat)),
        decreases n - i,
    {
        proof {
            lemma_pow2_unfold((i + 1) as nat);
            let p = pow2(i as nat) as int;
            assert(m@ * (2 * p) == 2 * (m@ * p)) by (nonlinear_arith);
        }
        r = r.add(r);
        i = i + 1;
    }
    r
}

/// `m` divided by two to the power `n`, rounded down.
fn scale_down(m: Fixed, n: i64) -> (r: Fixed)
    requires
        0 < n <= EXPONENT_LIMIT,
        m@ >= 0,
    ensures
        r == scale_by_power(m, -n as int),
{
    let mut r = m;
    let mut i: i64 = 0;
    proof {
        vstd::arithmetic::power2::lemma2_to64();
        assert(m@ / (pow2(0) as int) == m@) by (nonlinear_arith)
            requires
                pow2(0) == 1,
        ;
    }
    while i < n
        invariant
            0 <= i <= n <= EXPONENT_LIMIT,
            m@ >= 0,
            r@ == m@ / (pow2(i as nat) as int),
            r@ >= 0,
        decreases n - i,
    {
        proof {
            lemma_pow2_unfold((i + 1) as nat);
            lemma_pow2_pos(i as nat);
            let p = pow2(i as nat) as int;
            vstd::arithmetic::div_mod::lemma_div_denominator(m@, p, 2);
            assert(p * 2 == 2 * p);
        }
        r = Fixed { raw: r.raw / 2 };
        i = i + 1;
    }
    r
}

/// Two to the power `e`.
pub fn exp2(e: Fixed) -> (r: Fixed)
    ensures
        r == series_power_of_two(e),
{
    let m = exp2_frac(e.frac());
    let whole = match e.raw.checked_div_euclid(SCALE) {
        Some(q) => q,
        None => 0,
    };
    if whole < -EXPONENT_LIMIT {
        scale_down(m, EXPONENT_LIMIT)
    } else if whole > EXPONENT_LIMIT {
        scale_up(m, EXPONENT_LIMIT)
    } else if whole < 0 {
        scale_down(m, -whole)
    } else {
        scale_up(m, whole)
    }
}

/// The amplitude `10^(gain_db / 40)` of a shelving filter.
pub fn amplitude(gain_db: Fixed) -> (a: Fixed)
    ensures
        a == series_amplitude(gain_db),
{
    exp2(gain_db.mul(Fixed::from_raw(DECIBEL_EXPONENT_RAW)))
}

} // verus!
