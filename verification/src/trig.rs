//! Sine and cosine by their power series, after the angle is brought into
//! the first quarter of the circle.

use crate::fixed::Fixed;
use vstd::prelude::*;

verus! {

/// Raw value of π/2.
pub const HALF_PI_RAW: i64 = 6_746_518_852;

/// Terms of each series beyond the leading one.
pub const SERIES_TERMS: i32 = 8;

/// The cosine series in nested form, from its `k`-th factor on: with
/// `x2` the square of the angle, the factor is
/// `1 - x2 / ((2k - 1) 2k) * (next factor)`, and the factor after the last
/// is 1.
pub open spec fn cos_series(x2: Fixed, k: int) -> Fixed
    decreases SERIES_TERMS + 1 - k,
{
    if k < 1 || k > SERIES_TERMS {
        Fixed::one()
    } else {
        Fixed::one().sub(
            x2.div(Fixed::from_int(((2 * k - 1) * (2 * k)) as i32)).mul(cos_series(x2, k + 1)),
        )
    }
}

/// The sine series divided by the angle, in nested form, from its `k`-th
/// factor on: the factor is `1 - x2 / (2k (2k + 1)) * (next factor)`.
pub open spec fn sin_series(x2: Fixed, k: int) -> Fixed
    decreases SERIES_TERMS + 1 - k,
{
    if k < 1 || k > SERIES_TERMS {
        Fixed::one()
    } else {
        Fixed::one().sub(
            x2.div(Fixed::from_int(((2 * k) * (2 * k + 1)) as i32)).mul(sin_series(x2, k + 1)),
        )
    }
}

/// Cosine of an angle in the first quarter, kept between 0 and 1.
pub open spec fn quarter_cos(x: Fixed) -> Fixed {
    cos_series(x.mul(x), 1).clamp(Fixed::zero(), Fixed::one())
}

/// Sine of an angle in the first quarter, kept between 0 and 1.
pub open spec fn quarter_sin(x: Fixed) -> Fixed {
    x.mul(sin_series(x.mul(x), 1)).clamp(Fixed::zero(), Fixed::one())
}

/// The quarter of the circle that the angle `x` lies in: 0, 1, 2 or 3.
pub open spec fn quadrant(x: Fixed) -> int {
    (x@ / (HALF_PI_RAW as int)) % 4
}

/// What the angle `x` exceeds the start of its quarter by.
pub open spec fn quarter_angle(x: Fixed) -> Fixed {
    Fixed { raw: (x@ % (HALF_PI_RAW as int)) as i64 }
}

/// The cosine series of the angle `x` in radians: the first nine terms of
/// the power series of the cosine, evaluated factor by factor in the
/// arithmetic of `Fixed`, after the angle is brought into the first
/// quarter. How close it comes to the cosine is not stated here.
pub open spec fn series_cosine(x: Fixed) -> Fixed {
    let q = quadrant(x);
    let r = quarter_angle(x);
    if q == 0 {
        quarter_cos(r)
    } else if q == 1 {
        quarter_sin(r).neg()
    } else if q == 2 {
        quarter_cos(r).neg()
    } else {
        quarter_sin(r)
    }
}

/// The sine series of the angle `x` in radians: the first nine terms of the
/// power series of the sine, evaluated like the cosine series.
pub open spec fn series_sine(x: Fixed) -> Fixed {
    let q = quadrant(x);
    let r = quarter_angle(x);
    if q == 0 {
        quarter_sin(r)
    } else if q == 1 {
        quarter_cos(r)
    } else if q == 2 {
        quarter_sin(r).neg()
    } else {
        quarter_cos(r).neg()
    }
}

/// Sine and cosine lie between -1 and 1, and both lie between 0 and 1 in
/// the first quarter.
pub proof fn lemma_sine_cosine_range(x: Fixed)
    ensures
        -0x1_0000_0000 <= series_cosine(x)@ <= 0x1_0000_0000,
        -0x1_0000_0000 <= series_sine(x)@ <= 0x1_0000_0000,
        0 <= quarter_cos(x)@ <= 0x1_0000_0000,
        0 <= quarter_sin(x)@ <= 0x1_0000_0000,
{
}

/// The cosine of zero is one and its sine is zero, with no error.
pub proof fn lemma_sine_cosine_at_zero()
    ensures
        series_cosine(Fixed::zero()) == Fixed::one(),
        series_sine(Fixed::zero()) == Fixed::zero(),
{
    let zero = Fixed::zero();
    assert(zero.mul(zero) == zero);
    // with the square zero, the first factor of each series is one
    assert forall|y: Fixed| (#[trigger] zero.mul(y)) == zero by {
        assert(0 * y@ == 0);
    }
    assert(zero.div(Fixed::from_int(2)) == zero);
    assert(zero.div(Fixed::from_int(6)) == zero);
    assert(cos_series(zero, 1) == Fixed::one());
    assert(sin_series(zero, 1) == Fixed::one());
    assert(quadrant(zero) == 0);
    assert(quarter_angle(zero) == zero);
}

fn cos_quarter(x: Fixed) -> (c: Fixed)
    ensures
        c == quarter_cos(x),
        0 <= c@ <= 0x1_0000_0000,
{
    let x2 = x.mul(x);
    let mut t = Fixed::one();
    let mut k: i32 = SERIES_TERMS;
    while k >= 1
        invariant
            0 <= k <= SERIES_TERMS,
            t == cos_series(x2, k + 1),
        decreases k,
    {
        assert(0 <= (2 * k - 1) * (2 * k) <= 240) by (nonlinear_arith)
            requires
                1 <= k <= 8,
        ;
        let den = Fixed::from_int((2 * k - 1) * (2 * k));
        t = Fixed::one().sub(x2.div(den).mul(t));
        k = k - 1;
    }
    t.clamp(Fixed::zero(), Fixed::one())
}

fn sin_quarter(x: Fixed) -> (s: Fixed)
    ensures
        s == quarter_sin(x),
        0 <= s@ <= 0x1_0000_0000,
{
    let x2 = x.mul(x);
    let mut t = Fixed::one();
    let mut k: i32 = SERIES_TERMS;
    while k >= 1
        invariant
            0 <= k <= SERIES_TERMS,
            t == sin_series(x2, k + 1),
        decreases k,
    {
        assert(0 <= (2 * k) * (2 * k + 1) <= 272) by (nonlinear_arith)
            requires
                1 <= k <= 8,
        ;
        let den = Fixed::from_int((2 * k) * (2 * k + 1));
        t = Fixed::one().sub(x2.div(den).mul(t));
        k = k - 1;
    }
    x.mul(t).clamp(Fixed::zero(), Fixed::one())
}

/// The quarter of the circle that `x` lies in and what `x` exceeds its start
/// by.
fn split_angle(x: Fixed) -> (qr: (i64, Fixed))
    ensures
        qr.0 == quadrant(x),
        qr.1 == quarter_angle(x),
        0 <= qr.0 < 4,
        0 <= qr.1@ < HALF_PI_RAW,
{
    let whole = match x.raw.checked_div_euclid(HALF_PI_RAW) {
        Some(q) => q,
        None => 0,
    };
    let part = match x.raw.checked_rem_euclid(HALF_PI_RAW) {
        Some(r) => r,
        None => 0,
    };
    let q = match whole.checked_rem_euclid(4) {
        Some(q) => q,
        None => 0,
    };
    (q, Fixed { raw: part })
}

/// The cosine series of the angle `x` in radians, between -1 and 1.
pub fn cos(x: Fixed) -> (c: Fixed)
    ensures
        c == series_cosine(x),
        -0x1_0000_0000 <= c@ <= 0x1_0000_0000,
{
    let (q, r) = split_angle(x);
    if q == 0 {
        cos_quarter(r)
    } else if q == 1 {
        sin_quarter(r).neg()
    } else if q == 2 {
        cos_quarter(r).neg()
    } else {
        sin_quarter(r)
    }
}

/// The sine series of the angle `x` in radians, between -1 and 1.
pub fn sin(x: Fixed) -> (s: Fixed)
    ensures
        s == series_sine(x),
        -0x1_0000_0000 <= s@ <= 0x1_0000_0000,
{
    let (q, r) = split_angle(x);
    if q == 0 {
        sin_quarter(r)
    } else if q == 1 {
        cos_quarter(r)
    } else if q == 2 {
        sin_quarter(r).neg()
    } else {
        cos_quarter(r).neg()
    }
}

} // verus!
