//! How far the sine, cosine and exponential series, evaluated in the
//! arithmetic of `Fixed`, lie from the exact values of their polynomials.
//!
//! The polynomials are the power series of the cosine and of the sine over
//! the angle, cut after the power 16 of the angle, in the squared angle,
//! and the power series of the exponential function, cut after the power
//! 13. Their exact values are fractions; a fraction is given here by its
//! numerator and its denominator, both whole numbers. How far the
//! polynomials lie from the functions themselves is a matter of analysis
//! and is not stated here.

use crate::fixed::{lemma_div_bound, lemma_mul_bound, lemma_rescale_error, rescale, Fixed, SCALE};
use crate::exponent::{exp2_fraction, exp_series, EXP_TERMS, LN2_RAW};
use crate::trig::{cos_series, sin_series, HALF_PI_RAW, SERIES_TERMS};
use vstd::prelude::*;

verus! {

/// The divisor in the `k`-th factor of a series: `(2k - 1) 2k` for the
/// cosine, `2k (2k + 1)` for the sine.
pub open spec fn series_divisor(sine: bool, k: int) -> int {
    if sine {
        (2 * k) * (2 * k + 1)
    } else {
        (2 * k - 1) * (2 * k)
    }
}

/// The `k`-th factor of a series as the arithmetic of `Fixed` gives it.
pub open spec fn series_factor(sine: bool, x2: Fixed, k: int) -> Fixed {
    if sine {
        sin_series(x2, k)
    } else {
        cos_series(x2, k)
    }
}

/// The denominator of the exact value of the `k`-th factor, in units of
/// 2^-32: the product of `divisor * 2^32` over the factors from the `k`-th
/// on.
pub open spec fn exact_den(sine: bool, k: int) -> int
    decreases SERIES_TERMS + 1 - k,
{
    if k < 1 || k > SERIES_TERMS {
        1
    } else {
        series_divisor(sine, k) * SCALE * exact_den(sine, k + 1)
    }
}

/// The numerator of the exact value of the `k`-th factor for the squared
/// angle of `x2` units: the factor is `1 - x2 / divisor * (next factor)`
/// with no rounding, and the last factor is 1.
pub open spec fn exact_num(sine: bool, x2: int, k: int) -> int
    decreases SERIES_TERMS + 1 - k,
{
    if k < 1 || k > SERIES_TERMS {
        SCALE as int
    } else {
        SCALE * exact_den(sine, k) - x2 * exact_num(sine, x2, k + 1)
    }
}

/// The most that a factor may lie from its exact value, in units of
/// 2^-32: 2 units, and 4 units for the first factor.
pub open spec fn series_slack(k: int) -> int {
    if k <= 1 {
        4
    } else {
        2
    }
}

/// The product of two numbers is bounded by the product of their bounds.
proof fn lemma_bounded_product(p: int, q: int, pb: int, qb: int)
    by (nonlinear_arith)
    requires
        -pb <= p <= pb,
        -qb <= q <= qb,
    ensures
        -(pb * qb) <= p * q <= pb * qb,
{
}

/// One step of the error bound, over plain integers: `tn`, `nn`, `dn`
/// stand for the next factor, its exact numerator and denominator, `q` for
/// the rounded quotient of the squared angle by the divisor `d`, `m` for
/// the rounded product.
proof fn lemma_series_core(
    s: int,
    d: int,
    dn: int,
    nn: int,
    tn: int,
    en: int,
    x2: int,
    q: int,
    phi: int,
    m: int,
    rho: int,
    e: int,
)
    requires
        s > 0,
        d > 0,
        dn > 0,
        0 <= tn <= s,
        0 <= en,
        -(en * dn) <= tn * dn - nn <= en * dn,
        x2 >= 0,
        x2 == q * d + phi,
        0 <= phi < d,
        s * m == q * tn + rho,
        -s <= 2 * rho <= s,
        2 * (x2 * en) + 3 * (d * s) <= 2 * (e * (d * s)),
    ensures
        -(e * (d * s * dn)) <= (s - m) * (d * s * dn) - (s * (d * s * dn) - x2 * nn) <= e * (d * s
            * dn),
{
    let big = d * s * dn;
    let hn = tn * dn - nn;
    let u = tn * dn;
    let v = d * dn;
    let goal = (s - m) * big - (s * big - x2 * nn);
    // the goal is x2 * nn - m * big
    assert(goal == x2 * nn - m * big) by (nonlinear_arith)
        requires
            goal == (s - m) * big - (s * big - x2 * nn),
    ;
    // m * big is (x2 - phi) * u + rho * v
    assert(m * big == (s * m) * v) by (nonlinear_arith)
        requires
            big == d * s * dn,
            v == d * dn,
    ;
    assert((s * m) * v == (q * tn) * v + rho * v) by (nonlinear_arith)
        requires
            s * m == q * tn + rho,
    ;
    assert((q * tn) * v == (q * d) * u) by (nonlinear_arith)
        requires
            v == d * dn,
            u == tn * dn,
    ;
    assert((q * d) * u == x2 * u - phi * u) by (nonlinear_arith)
        requires
            x2 == q * d + phi,
    ;
    assert(x2 * nn - x2 * u == -(x2 * hn)) by (nonlinear_arith)
        requires
            hn == u - nn,
    ;
    assert(goal == -(x2 * hn) + phi * u - rho * v);
    // the three parts
    assert(v > 0) by (nonlinear_arith)
        requires
            v == d * dn,
            d > 0,
            dn > 0,
    ;
    lemma_bounded_product(x2, hn, x2, en * dn);
    assert(0 <= u <= s * dn) by (nonlinear_arith)
        requires
            u == tn * dn,
            0 <= tn <= s,
            dn > 0,
    ;
    assert(0 <= phi * u <= d * (s * dn)) by (nonlinear_arith)
        requires
            0 <= phi < d,
            0 <= u <= s * dn,
    ;
    assert(-(s * v) <= 2 * (rho * v) <= s * v) by (nonlinear_arith)
        requires
            -s <= 2 * rho <= s,
            v > 0,
    ;
    assert(d * (s * dn) == s * v && d * s * dn == s * v) by (nonlinear_arith)
        requires
            v == d * dn,
    ;
    assert(x2 * (en * dn) == (x2 * en) * dn) by (nonlinear_arith);
    // together: 2 |goal| <= dn * (2 x2 en + 3 d s) <= 2 e big
    let part = 2 * (x2 * en) + 3 * (d * s);
    assert(2 * ((x2 * en) * dn) + 3 * (s * v) == part * dn) by (nonlinear_arith)
        requires
            part == 2 * (x2 * en) + 3 * (d * s),
            v == d * dn,
    ;
    assert(part * dn <= (2 * (e * (d * s))) * dn) by (nonlinear_arith)
        requires
            part <= 2 * (e * (d * s)),
            dn > 0,
    ;
    assert((2 * (e * (d * s))) * dn == 2 * (e * big)) by (nonlinear_arith)
        requires
            big == d * s * dn,
    ;
    assert(-(2 * (e * big)) <= 2 * goal <= 2 * (e * big));
}

/// The denominators of the exact values are above zero.
pub proof fn lemma_exact_den_positive(sine: bool, k: int)
    ensures
        exact_den(sine, k) > 0,
    decreases SERIES_TERMS + 1 - k,
{
    if 1 <= k <= SERIES_TERMS {
        lemma_exact_den_positive(sine, k + 1);
        let d = series_divisor(sine, k);
        assert(d >= 2) by (nonlinear_arith)
            requires
                k >= 1,
                d == (2 * k) * (2 * k + 1) || d == (2 * k - 1) * (2 * k),
        ;
        assert(d * SCALE * exact_den(sine, k + 1) > 0) by (nonlinear_arith)
            requires
                d >= 2,
                SCALE > 0,
                exact_den(sine, k + 1) > 0,
        ;
    }
}

/// Every factor of a series lies within its slack of its exact value: for
/// a squared angle from 0 to 2.5, the `k`-th factor `t` as the arithmetic
/// gives it and its exact value `n / d` satisfy `|t * d - n| <= slack * d`.
/// From the second on the factors lie from 0 to 1.
#[verifier::rlimit(40)]
pub proof fn lemma_series_error(sine: bool, x2: Fixed, k: int)
    requires
        0 <= x2@ <= 10_737_418_240,
        1 <= k <= SERIES_TERMS + 1,
    ensures
        exact_den(sine, k) > 0,
        -(series_slack(k) * exact_den(sine, k)) <= series_factor(sine, x2, k)@ * exact_den(sine, k)
            - exact_num(sine, x2@, k) <= series_slack(k) * exact_den(sine, k),
        k >= 2 ==> 0 <= series_factor(sine, x2, k)@ <= SCALE,
        -SCALE <= series_factor(sine, x2, k)@ <= SCALE,
    decreases SERIES_TERMS + 1 - k,
{
    let s = SCALE as int;
    lemma_exact_den_positive(sine, k);
    if k > SERIES_TERMS {
        assert(series_factor(sine, x2, k) == Fixed::one());
        assert(s * 1 - s == 0);
    } else {
        lemma_series_error(sine, x2, k + 1);
        let d = series_divisor(sine, k);
        assert(2 <= d <= 272 && (k >= 2 ==> d >= 12)) by (nonlinear_arith)
            requires
                1 <= k <= 8,
                d == (2 * k) * (2 * k + 1) || d == (2 * k - 1) * (2 * k),
        ;
        let den = Fixed::from_int(d as i32);
        assert(den@ == d * s);
        let next = series_factor(sine, x2, k + 1);
        let dn = exact_den(sine, k + 1);
        let nn = exact_num(sine, x2@, k + 1);
        let en = series_slack(k + 1);
        // the quotient of the squared angle by the divisor
        let quotient = x2.div(den);
        assert(d * s >= 2 * s) by (nonlinear_arith)
            requires
                d >= 2,
                s > 0,
        ;
        lemma_div_bound(x2, den, 10_737_418_240, 2 * s);
        vstd::arithmetic::div_mod::lemma_div_multiples_vanish_quotient(s, x2@, d);
        assert(x2@ * s == s * x2@ && d * s == s * d) by (nonlinear_arith);
        let q = quotient@;
        assert(q == x2@ / d);
        vstd::arithmetic::div_mod::lemma_fundamental_div_mod(x2@, d);
        vstd::arithmetic::div_mod::lemma_mod_bound(x2@, d);
        let phi = x2@ % d;
        assert(x2@ == q * d + phi) by (nonlinear_arith)
            requires
                x2@ == d * q + phi,
        ;
        assert(0 <= q <= 5_368_709_120);
        if k >= 2 {
            vstd::arithmetic::div_mod::lemma_div_is_ordered_by_denominator(x2@, 12, d);
            assert(q <= 894_784_853);
        }
        // the product with the next factor
        lemma_mul_bound(quotient, next, q, s);
        crate::fixed::lemma_times_unit(q);
        let product = quotient.mul(next);
        let m = product@;
        assert(m == rescale(q * next@));
        assert(0 <= m <= q);
        lemma_rescale_error(q * next@);
        let rho = s * m - q * next@;
        let factor = series_factor(sine, x2, k);
        assert(factor == Fixed::one().sub(product));
        assert(factor@ == s - m);
        let e = series_slack(k);
        assert(2 * (x2@ * en) + 3 * (d * s) <= 2 * (e * (d * s))) by (nonlinear_arith)
            requires
                0 <= x2@ <= 10_737_418_240,
                0 <= en <= 2,
                s == 0x1_0000_0000,
                (e == 4 && d >= 2) || (e == 2 && d >= 12),
        ;
        lemma_series_core(s, d, dn, nn, next@, en, x2@, q, phi, m, rho, e);
        assert(exact_den(sine, k) == d * s * dn);
        assert(exact_num(sine, x2@, k) == s * (d * s * dn) - x2@ * nn);
    }
}

/// The cosine series of an angle in the first quarter lies within 4 units
/// of 2^-32 of the exact value of its polynomial at the squared angle, as
/// the arithmetic rounds the square.
pub proof fn lemma_cosine_series_error(x: Fixed)
    requires
        0 <= x@ <= HALF_PI_RAW,
    ensures
        ({
            let x2 = x.mul(x);
            let d = exact_den(false, 1);
            let n = exact_num(false, x2@, 1);
            &&& d > 0
            &&& -(4 * d) <= cos_series(x2, 1)@ * d - n <= 4 * d
        }),
{
    lemma_mul_bound(x, x, HALF_PI_RAW as int, HALF_PI_RAW as int);
    lemma_series_error(false, x.mul(x), 1);
}

/// The sine series of an angle in the first quarter, before it is
/// multiplied by the angle, lies within 4 units of 2^-32 of the exact
/// value of its polynomial at the squared angle.
pub proof fn lemma_sine_series_error(x: Fixed)
    requires
        0 <= x@ <= HALF_PI_RAW,
    ensures
        ({
            let x2 = x.mul(x);
            let d = exact_den(true, 1);
            let n = exact_num(true, x2@, 1);
            &&& d > 0
            &&& -(4 * d) <= sin_series(x2, 1)@ * d - n <= 4 * d
        }),
{
    lemma_mul_bound(x, x, HALF_PI_RAW as int, HALF_PI_RAW as int);
    lemma_series_error(true, x.mul(x), 1);
}

/// The denominator of the exact value of the `k`-th factor of the
/// exponential series, in units of 2^-32: the product of `j * 2^32` over
/// the factors from the `k`-th on.
pub open spec fn exp_exact_den(k: int) -> int
    decreases EXP_TERMS + 1 - k,
{
    if k < 1 || k > EXP_TERMS {
        1
    } else {
        k * SCALE * exp_exact_den(k + 1)
    }
}

/// The numerator of the exact value of the `k`-th factor of the
/// exponential series for the argument of `t` units: the factor is
/// `1 + t / k * (next factor)` with no rounding, and the last factor is 1.
pub open spec fn exp_exact_num(t: int, k: int) -> int
    decreases EXP_TERMS + 1 - k,
{
    if k < 1 || k > EXP_TERMS {
        SCALE as int
    } else {
        SCALE * exp_exact_den(k) + t * exp_exact_num(t, k + 1)
    }
}

/// One step of the error bound of the exponential series, over plain
/// integers.
proof fn lemma_exp_core(
    s: int,
    d: int,
    dn: int,
    nn: int,
    tn: int,
    t: int,
    q: int,
    phi: int,
    m: int,
    rho: int,
)
    requires
        s > 0,
        d > 0,
        dn > 0,
        0 <= tn <= 4 * s,
        -(15 * dn) <= tn * dn - nn <= 15 * dn,
        0 <= t,
        10 * t <= 7 * s,
        t == q * d + phi,
        0 <= phi < d,
        s * m == q * tn + rho,
        -s <= 2 * rho <= s,
    ensures
        -(15 * (d * s * dn)) <= (s + m) * (d * s * dn) - (s * (d * s * dn) + t * nn) <= 15 * (d * s
            * dn),
{
    let big = d * s * dn;
    let hn = tn * dn - nn;
    let u = tn * dn;
    let v = d * dn;
    let goal = (s + m) * big - (s * big + t * nn);
    assert(goal == m * big - t * nn) by (nonlinear_arith)
        requires
            goal == (s + m) * big - (s * big + t * nn),
    ;
    assert(m * big == (s * m) * v) by (nonlinear_arith)
        requires
            big == d * s * dn,
            v == d * dn,
    ;
    assert((s * m) * v == (q * tn) * v + rho * v) by (nonlinear_arith)
        requires
            s * m == q * tn + rho,
    ;
    assert((q * tn) * v == (q * d) * u) by (nonlinear_arith)
        requires
            v == d * dn,
            u == tn * dn,
    ;
    assert((q * d) * u == t * u - phi * u) by (nonlinear_arith)
        requires
            t == q * d + phi,
    ;
    assert(t * u - t * nn == t * hn) by (nonlinear_arith)
        requires
            hn == u - nn,
    ;
    assert(goal == t * hn - phi * u + rho * v);
    assert(v > 0) by (nonlinear_arith)
        requires
            v == d * dn,
            d > 0,
            dn > 0,
    ;
    lemma_bounded_product(t, hn, t, 15 * dn);
    assert(0 <= u <= (4 * s) * dn) by (nonlinear_arith)
        requires
            u == tn * dn,
            0 <= tn <= 4 * s,
            dn > 0,
    ;
    assert(0 <= phi * u <= d * ((4 * s) * dn)) by (nonlinear_arith)
        requires
            0 <= phi < d,
            0 <= u <= (4 * s) * dn,
    ;
    assert(-(s * v) <= 2 * (rho * v) <= s * v) by (nonlinear_arith)
        requires
            -s <= 2 * rho <= s,
            v > 0,
    ;
    assert(d * ((4 * s) * dn) == 4 * (s * v) && big == s * v) by (nonlinear_arith)
        requires
            v == d * dn,
            big == d * s * dn,
    ;
    // t * 15 * dn <= 10.5 * s * dn <= 10.5 * s * v
    assert(10 * (t * (15 * dn)) <= 105 * (s * v)) by (nonlinear_arith)
        requires
            0 <= 10 * t <= 7 * s,
            v == d * dn,
            d >= 1,
            dn > 0,
            s > 0,
    ;
    assert(-(15 * big) <= goal <= 15 * big);
}

/// The denominators of the exact values of the exponential series are
/// above zero.
pub proof fn lemma_exp_exact_den_positive(k: int)
    ensures
        exp_exact_den(k) > 0,
    decreases EXP_TERMS + 1 - k,
{
    if 1 <= k <= EXP_TERMS {
        lemma_exp_exact_den_positive(k + 1);
        assert(k * SCALE * exp_exact_den(k + 1) > 0) by (nonlinear_arith)
            requires
                k >= 1,
                SCALE > 0,
                exp_exact_den(k + 1) > 0,
        ;
    }
}

/// Every factor of the exponential series lies within 15 units of 2^-32
/// of its exact value, for an argument from 0 to 0.7: the `k`-th factor
/// `v` as the arithmetic gives it and its exact value `n / d` satisfy
/// `|v * d - n| <= 15 d`.
#[verifier::rlimit(40)]
pub proof fn lemma_exp_series_error(t: Fixed, k: int)
    requires
        0 <= t@ <= 3_006_477_107,
        1 <= k <= EXP_TERMS + 1,
    ensures
        exp_exact_den(k) > 0,
        -(15 * exp_exact_den(k)) <= exp_series(t, k)@ * exp_exact_den(k) - exp_exact_num(t@, k)
            <= 15 * exp_exact_den(k),
        SCALE <= exp_series(t, k)@ <= 4 * SCALE,
    decreases EXP_TERMS + 1 - k,
{
    let s = SCALE as int;
    lemma_exp_exact_den_positive(k);
    crate::exponent::lemma_exp_series_range(t, k);
    if k > EXP_TERMS {
        assert(exp_series(t, k) == Fixed::one());
        assert(s * 1 - s == 0);
    } else {
        lemma_exp_series_error(t, k + 1);
        let den = Fixed::from_int(k as i32);
        assert(den@ == k * s);
        let next = exp_series(t, k + 1);
        let dn = exp_exact_den(k + 1);
        let nn = exp_exact_num(t@, k + 1);
        assert(k * s >= s) by (nonlinear_arith)
            requires
                k >= 1,
                s > 0,
        ;
        lemma_div_bound(t, den, 3_006_477_107, s);
        vstd::arithmetic::div_mod::lemma_div_multiples_vanish_quotient(s, t@, k);
        assert(t@ * s == s * t@ && k * s == s * k) by (nonlinear_arith);
        let quotient = t.div(den);
        let q = quotient@;
        assert(q == t@ / k);
        vstd::arithmetic::div_mod::lemma_fundamental_div_mod(t@, k);
        vstd::arithmetic::div_mod::lemma_mod_bound(t@, k);
        let phi = t@ % k;
        assert(t@ == q * k + phi) by (nonlinear_arith)
            requires
                t@ == k * q + phi,
        ;
        lemma_mul_bound(quotient, next, 3_006_477_107, 4 * s);
        let product = quotient.mul(next);
        let m = product@;
        assert(m == rescale(q * next@));
        lemma_rescale_error(q * next@);
        let rho = s * m - q * next@;
        assert(exp_series(t, k) == Fixed::one().add(product));
        assert(exp_series(t, k)@ == s + m);
        lemma_exp_core(s, k, dn, nn, next@, t@, q, phi, m, rho);
        assert(exp_exact_den(k) == k * s * dn);
        assert(exp_exact_num(t@, k) == s * (k * s * dn) + t@ * nn);
    }
}

/// Two to a power from 0 up to 1, as the series gives it, lies within 15
/// units of 2^-32 of the exact value of the exponential polynomial at the
/// power times `ln 2`, as the arithmetic rounds that product.
pub proof fn lemma_power_series_error(f: Fixed)
    requires
        0 <= f@ < SCALE,
    ensures
        ({
            let t = f.mul(Fixed::from_raw(LN2_RAW));
            let d = exp_exact_den(1);
            let n = exp_exact_num(t@, 1);
            &&& d > 0
            &&& -(15 * d) <= exp2_fraction(f)@ * d - n <= 15 * d
        }),
{
    lemma_mul_bound(f, Fixed::from_raw(LN2_RAW), SCALE as int, LN2_RAW as int);
    lemma_exp_series_error(f.mul(Fixed::from_raw(LN2_RAW)), 1);
}

} // verus!
