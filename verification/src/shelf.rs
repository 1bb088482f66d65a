//! The low shelf within its working range: for a valid cutoff and a gain
//! within forty decibels no coefficient comes near the ends of the range,
//! and the gain at zero frequency is the square of the amplitude.

use crate::exponent::{lemma_amplitude_range, series_amplitude};
use crate::filter::{
    angular_frequency, lemma_shelf_dc_gain, low_shelf_model, shelf_beta, shelf_in_range,
    shelf_root, SHELF_SLOPE_RAW, TWO_PI_RAW,
};
use crate::fixed::{
    lemma_div_bound, lemma_mul_bound, lemma_rescale_error, lemma_rescale_ordered,
    lemma_times_unit, rescale, Fixed, SCALE,
};
use crate::roots::{floor_sqrt, lemma_floor_sqrt_exists, lemma_square_monotonic};
use crate::trig::{
    lemma_sine_cosine_range, quadrant, quarter_angle, series_cosine, series_sine, HALF_PI_RAW,
};
use vstd::prelude::*;

verus! {

/// Whether a sample rate and a cutoff are ones that the shelf laws take:
/// the cutoff above zero and below half the sample rate, the sample rate
/// at most 2^28 hertz.
pub open spec fn band_valid(sample_rate: Fixed, cutoff: Fixed) -> bool {
    0 < cutoff@ && 2 * cutoff@ < sample_rate@ && sample_rate@ <= 0x1000_0000_0000_0000
}

/// For a valid cutoff the angular frequency lies from 0 up to π, so the
/// sine series of it is not below zero.
pub proof fn lemma_half_turn(sample_rate: Fixed, cutoff: Fixed)
    requires
        band_valid(sample_rate, cutoff),
    ensures
        0 <= angular_frequency(sample_rate, cutoff)@ < 2 * HALF_PI_RAW,
        series_sine(angular_frequency(sample_rate, cutoff))@ >= 0,
{
    let s = SCALE as int;
    let pi = 2 * HALF_PI_RAW as int;
    let f = sample_rate@;
    let p = TWO_PI_RAW * cutoff@;
    assert(0 <= p <= pi * (f - 1)) by (nonlinear_arith)
        requires
            p == TWO_PI_RAW * cutoff@,
            TWO_PI_RAW == 2 * pi,
            0 < cutoff@,
            2 * cutoff@ <= f - 1,
            pi > 0,
    ;
    assert(pi * (f - 1) <= 13_493_037_704 * 0x1000_0000_0000_0000) by (nonlinear_arith)
        requires
            pi == 13_493_037_704,
            0 < f <= 0x1000_0000_0000_0000,
    ;
    lemma_rescale_ordered(0, p);
    lemma_rescale_error(p);
    let rate = Fixed::from_raw(TWO_PI_RAW).mul(cutoff);
    assert(rate@ == rescale(p));
    assert(rate@ * s < pi * f) by (nonlinear_arith)
        requires
            s * rate@ - p <= 0x8000_0000,
            p <= pi * (f - 1),
            pi == 13_493_037_704,
            s == 0x1_0000_0000,
    ;
    assert(rate@ * s >= 0) by (nonlinear_arith)
        requires
            rate@ >= 0,
            s > 0,
    ;
    vstd::arithmetic::div_mod::lemma_fundamental_div_mod(rate@ * s, f);
    vstd::arithmetic::div_mod::lemma_mod_bound(rate@ * s, f);
    vstd::arithmetic::div_mod::lemma_div_is_ordered(0, rate@ * s, f);
    let q = (rate@ * s) / f;
    assert(q < pi) by (nonlinear_arith)
        requires
            rate@ * s == f * q + (rate@ * s) % f,
            0 <= (rate@ * s) % f,
            rate@ * s < pi * f,
            f > 0,
    ;
    let w = angular_frequency(sample_rate, cutoff);
    assert(w@ == q);
    assert(quadrant(w) == 0 || quadrant(w) == 1);
    lemma_sine_cosine_range(quarter_angle(w));
}

/// The square root of a number from 0 to a bound is at most a number whose
/// square is above the bound.
proof fn lemma_sqrt_bound(x: Fixed, xb: int, rb: int)
    requires
        x@ <= xb,
        0 <= rb <= i64::MAX,
        xb * SCALE < rb * rb,
    ensures
        0 <= x.sqrt()@ <= rb,
{
    if x@ > 0 {
        let v = (x@ * SCALE) as nat;
        assert(x@ * SCALE <= xb * SCALE) by (nonlinear_arith)
            requires
                x@ <= xb,
                SCALE > 0,
        ;
        lemma_floor_sqrt_exists(v);
        let r = floor_sqrt(v);
        if r > rb {
            lemma_square_monotonic(rb as nat, r);
        }
    }
}

/// For a valid cutoff and a gain from -40 to 40 decibels, every
/// coefficient of the low shelf is within 2^28 of zero.
#[verifier::rlimit(100)]
pub proof fn lemma_shelf_in_range(sample_rate: Fixed, cutoff: Fixed, gain_db: Fixed)
    requires
        band_valid(sample_rate, cutoff),
        -40 * SCALE <= gain_db@ <= 40 * SCALE,
    ensures
        shelf_in_range(
            low_shelf_model(sample_rate, cutoff, gain_db),
            series_amplitude(gain_db).mul(series_amplitude(gain_db)),
        ),
{
    reveal(low_shelf_model);
    let s = SCALE as int;
    let one = Fixed::one();
    let two = Fixed::from_int(2);
    let a = series_amplitude(gain_db);
    lemma_amplitude_range(gain_db);
    assert(268_435_456 <= a@ <= 137_438_953_472);
    let w = angular_frequency(sample_rate, cutoff);
    lemma_half_turn(sample_rate, cutoff);
    lemma_sine_cosine_range(w);
    let c = series_cosine(w);
    let up = a.add(one);
    let down = a.sub(one);
    assert(up@ == a@ + s && down@ == a@ - s);
    // products with the cosine are no larger than the other factor
    let down_size = if down@ < 0 {
        -down@
    } else {
        down@
    };
    lemma_times_unit(down_size);
    lemma_mul_bound(down, c, down_size, s);
    lemma_times_unit(up@);
    lemma_mul_bound(up, c, up@, s);
    let dc = down.mul(c);
    let uc = up.mul(c);
    assert(-down_size <= dc@ <= down_size);
    assert(-up@ <= uc@ <= up@);
    // beta and its root
    lemma_div_bound(one, a, s, 268_435_456);
    let inv = one.div(a);
    assert(0 <= inv@ <= 68_719_476_736);
    lemma_mul_bound(
        a.add(inv),
        Fixed::from_raw(SHELF_SLOPE_RAW),
        206_158_430_208,
        SHELF_SLOPE_RAW as int,
    );
    let beta = shelf_beta(a);
    assert(8_589_934_592 <= beta@ <= 94_027_586_720);
    lemma_sqrt_bound(beta.max(Fixed::zero()), 94_027_586_720, 21_474_836_480);
    let root_beta = beta.max(Fixed::zero()).sqrt();
    // alpha and 2 √A alpha
    lemma_div_bound(series_sine(w), two, s, 8_589_934_592);
    let half_sine = series_sine(w).div(two);
    assert(0 <= half_sine@ <= 2_147_483_648);
    lemma_mul_bound(half_sine, root_beta, 2_147_483_648, 21_474_836_480);
    let alpha = half_sine.mul(root_beta);
    assert(0 <= alpha@ <= 10_737_418_240);
    lemma_sqrt_bound(a, 137_438_953_472, 25_769_803_776);
    lemma_mul_bound(two, a.sqrt(), 8_589_934_592, 25_769_803_776);
    let twice_root = two.mul(a.sqrt());
    assert(0 <= twice_root@ <= 51_539_607_552);
    lemma_mul_bound(twice_root, alpha, 51_539_607_552, 10_737_418_240);
    let r = shelf_root(a, w);
    assert(r == twice_root.mul(alpha));
    assert(0 <= r@ <= 128_849_018_880);
    // the leading coefficient is at least 1/8
    let a0 = up.add(dc).add(r);
    assert(up@ - down_size >= 536_870_912);
    assert(536_870_912 <= a0@ <= 403_726_925_824);
    let x0 = up.sub(dc).add(r);
    let x2 = up.sub(dc).sub(r);
    let y2 = up.add(dc).sub(r);
    assert(-403_726_925_824 <= x0@ <= 403_726_925_824);
    assert(-403_726_925_824 <= x2@ <= 403_726_925_824);
    assert(-403_726_925_824 <= y2@ <= 403_726_925_824);
    // the coefficients before the division
    lemma_mul_bound(a, x0, 137_438_953_472, 403_726_925_824);
    lemma_mul_bound(a, x2, 137_438_953_472, 403_726_925_824);
    let inner = down.add(uc);
    assert(-274_877_906_944 <= inner@ <= 274_877_906_944);
    lemma_mul_bound(two.neg(), inner, 8_589_934_592, 274_877_906_944);
    let b0n = a.mul(x0);
    let b2n = a.mul(x2);
    let a1n = two.neg().mul(inner);
    assert(-12_919_261_626_368 <= b0n@ <= 12_919_261_626_368);
    assert(-12_919_261_626_368 <= b2n@ <= 12_919_261_626_368);
    assert(-549_755_813_888 <= a1n@ <= 549_755_813_888);
    // and after it
    lemma_div_bound(b0n, a0, 12_919_261_626_368, 536_870_912);
    lemma_div_bound(b2n, a0, 12_919_261_626_368, 536_870_912);
    lemma_div_bound(a1n, a0, 549_755_813_888, 536_870_912);
    lemma_div_bound(y2, a0, 403_726_925_824, 536_870_912);
    let m = low_shelf_model(sample_rate, cutoff, gain_db);
    assert(m.b0 == b0n.div(a0));
    assert(m.b2 == b2n.div(a0));
    assert(m.a1 == a1n.div(a0));
    assert(m.a2 == y2.div(a0));
    assert(-103_354_093_010_945 <= m.b0@ <= 103_354_093_010_944);
    assert(-103_354_093_010_945 <= m.b2@ <= 103_354_093_010_944);
    assert(-4_398_046_511_105 <= m.a1@ <= 4_398_046_511_104);
    assert(-3_229_815_406_593 <= m.a2@ <= 3_229_815_406_592);
    // the square of the amplitude times the sum of the denominator
    lemma_mul_bound(a, a, 137_438_953_472, 137_438_953_472);
    let gain = a.mul(a);
    assert(0 <= gain@ <= 4_398_046_511_104);
    let sum = one.add(m.a1).add(m.a2);
    assert(-7_636_451_852_288 <= sum@ <= 7_636_451_852_288);
    lemma_mul_bound(gain, sum, 4_398_046_511_104, 7_636_451_852_288);
}

/// For a valid cutoff and a gain from -40 to 40 decibels, the gain of the
/// low shelf at zero frequency is the square of its amplitude: the sum of
/// its numerator coefficients is `A^2` times the sum of its denominator
/// coefficients, rounded to the nearest unit of 2^-32.
pub proof fn lemma_shelf_gain(sample_rate: Fixed, cutoff: Fixed, gain_db: Fixed)
    requires
        band_valid(sample_rate, cutoff),
        -40 * SCALE <= gain_db@ <= 40 * SCALE,
    ensures
        ({
            let m = low_shelf_model(sample_rate, cutoff, gain_db);
            let gain = series_amplitude(gain_db).mul(series_amplitude(gain_db));
            let numerator = m.b0@ + m.b1@ + m.b2@;
            let denominator = SCALE + m.a1@ + m.a2@;
            &&& numerator == rescale(gain@ * denominator)
            &&& -0x8000_0000 <= SCALE * numerator - gain@ * denominator <= 0x8000_0000
        }),
{
    lemma_shelf_in_range(sample_rate, cutoff, gain_db);
    lemma_shelf_dc_gain(sample_rate, cutoff, gain_db);
}

} // verus!
