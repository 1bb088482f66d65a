//! First-order and second-order recursive filters that work one sample at a
//! time.

use crate::exponent::{amplitude, lemma_power_of_zero, series_amplitude};
use crate::fixed::{
    lemma_product_range, lemma_quotient_bound,
    lemma_times_unit, narrow, proper, rescale, saturated, Fixed, SCALE,
};
use crate::roots::lemma_floor_sqrt_is;
use crate::trig::{cos, lemma_sine_cosine_range, series_cosine, series_sine, sin};
use vstd::prelude::*;

verus! {

/// Raw value of 2π, four times the raw value of π/2.
pub const TWO_PI_RAW: i64 = 26_986_075_408;

/// Raw value of `2 Q` for the quality factor `Q = 1 / √2`.
pub const TWICE_Q_RAW: i64 = 6_074_001_000;

/// Raw value of `1 / Q - 1` for the quality factor `Q = 0.707` of the shelf.
pub const SHELF_SLOPE_RAW: i64 = 1_779_951_086;

/// The three behaviours of a first-order filter.
#[derive(Clone, Copy, Debug, PartialEq, Eq, Structural)]
pub enum PrimaryFilterType {
    AllPass,
    HighPass,
    LowPass,
}

/// A filter that turns one input sample into one output sample and keeps
/// state between calls.
pub trait Processable {
    /// What `process` returns for `input` in this state.
    spec fn response(&self, input: Fixed) -> Fixed;

    fn process(&mut self, input: Fixed) -> (output: Fixed)
        ensures
            output == old(self).response(input),
    ;
}

/// What a first-order filter consists of: its behaviour, its coefficient and
/// the previous input and output samples.
pub struct PrimaryModel {
    pub kind: PrimaryFilterType,
    pub alpha: Fixed,
    pub prev_in: Fixed,
    pub prev_out: Fixed,
}

/// The output of a first-order filter for the input `x`.
///
/// All-pass: `alpha * x + prev_in - alpha * prev_out`.
/// High-pass: `alpha * (prev_out + x - prev_in)`.
/// Low-pass: `prev_out + alpha * (x - prev_out)`.
pub open spec fn primary_response(m: PrimaryModel, x: Fixed) -> Fixed {
    match m.kind {
        PrimaryFilterType::AllPass => m.alpha.mul(x).add(m.prev_in).sub(m.alpha.mul(m.prev_out)),
        PrimaryFilterType::HighPass => m.alpha.mul(m.prev_out.add(x).sub(m.prev_in)),
        PrimaryFilterType::LowPass => m.prev_out.add(m.alpha.mul(x.sub(m.prev_out))),
    }
}

/// The filter after the input `x`: it remembers `x` and its own output.
pub open spec fn primary_next(m: PrimaryModel, x: Fixed) -> PrimaryModel {
    PrimaryModel { kind: m.kind, alpha: m.alpha, prev_in: x, prev_out: primary_response(m, x) }
}

/// A first-order filter at rest.
pub open spec fn primary_at_rest(kind: PrimaryFilterType, alpha: Fixed) -> PrimaryModel {
    PrimaryModel { kind, alpha, prev_in: Fixed::zero(), prev_out: Fixed::zero() }
}

/// Whether a first-order filter remembers only silence.
pub open spec fn primary_silent(m: PrimaryModel) -> bool {
    m.prev_in == Fixed::zero() && m.prev_out == Fixed::zero()
}

/// A first-order filter that remembers only silence answers silence with
/// silence, whatever its behaviour and its coefficient.
pub proof fn lemma_primary_silence(m: PrimaryModel)
    requires
        primary_silent(m),
    ensures
        primary_response(m, Fixed::zero()) == Fixed::zero(),
        primary_silent(primary_next(m, Fixed::zero())),
{
    assert(m.alpha@ * 0 == 0);
}

/// 2π times the cutoff frequency.
pub open spec fn angular_rate(cutoff: Fixed) -> Fixed {
    Fixed::from_raw(TWO_PI_RAW).mul(cutoff)
}

/// Coefficient of the one-pole low-pass: with `rc = 1 / (2π cutoff)` and
/// `dt = 1 / sample_rate` it is `dt / (rc + dt)`, that is
/// `2π cutoff / (sample_rate + 2π cutoff)`, and at least one unit: with
/// the coefficient zero the filter would never move.
pub open spec fn low_pass_alpha(sample_rate: Fixed, cutoff: Fixed) -> Fixed {
    angular_rate(cutoff).div(sample_rate.add(angular_rate(cutoff))).max(Fixed::from_raw(1))
}

/// Coefficient of the one-pole high-pass: `rc / (rc + dt)`, that is
/// `sample_rate / (sample_rate + 2π cutoff)`.
pub open spec fn high_pass_alpha(sample_rate: Fixed, cutoff: Fixed) -> Fixed {
    sample_rate.div(sample_rate.add(angular_rate(cutoff)))
}

/// A first-order recursive filter.
pub struct PrimaryFilter {
    filter_type: PrimaryFilterType,
    alpha: Fixed,
    prev_in: Fixed,
    prev_out: Fixed,
}

impl View for PrimaryFilter {
    type V = PrimaryModel;

    closed spec fn view(&self) -> PrimaryModel {
        PrimaryModel {
            kind: self.filter_type,
            alpha: self.alpha,
            prev_in: self.prev_in,
            prev_out: self.prev_out,
        }
    }
}

impl PrimaryFilter {
    /// An all-pass filter with the coefficient `alpha`, at rest.
    pub fn all_pass(alpha: Fixed) -> (f: Self)
        ensures
            f@ == primary_at_rest(PrimaryFilterType::AllPass, alpha),
    {
        Self {
            filter_type: PrimaryFilterType::AllPass,
            alpha,
            prev_in: Fixed::zero(),
            prev_out: Fixed::zero(),
        }
    }

    /// A one-pole high-pass filter for the given rates in hertz, at rest.
    pub fn high_pass(sample_rate: Fixed, cutoff: Fixed) -> (f: Self)
        ensures
            f@ == primary_at_rest(
                PrimaryFilterType::HighPass,
                high_pass_alpha(sample_rate, cutoff),
            ),
    {
        let w = Fixed::from_raw(TWO_PI_RAW).mul(cutoff);
        let alpha = sample_rate.div(sample_rate.add(w));
        Self {
            filter_type: PrimaryFilterType::HighPass,
            alpha,
            prev_in: Fixed::zero(),
            prev_out: Fixed::zero(),
        }
    }

    /// A one-pole low-pass filter for the given rates in hertz, at rest.
    pub fn low_pass(sample_rate: Fixed, cutoff: Fixed) -> (f: Self)
        ensures
            f@ == primary_at_rest(
                PrimaryFilterType::LowPass,
                low_pass_alpha(sample_rate, cutoff),
            ),
    {
        let w = Fixed::from_raw(TWO_PI_RAW).mul(cutoff);
        let alpha = w.div(sample_rate.add(w)).max(Fixed::from_raw(1));
        Self {
            filter_type: PrimaryFilterType::LowPass,
            alpha,
            prev_in: Fixed::zero(),
            prev_out: Fixed::zero(),
        }
    }

    /// The behaviour of the filter.
    pub fn kind(&self) -> (k: PrimaryFilterType)
        ensures
            k == self@.kind,
    {
        self.filter_type
    }

    /// The coefficient of the filter.
    pub fn alpha(&self) -> (a: Fixed)
        ensures
            a == self@.alpha,
    {
        self.alpha
    }
}

impl Processable for PrimaryFilter {
    open spec fn response(&self, input: Fixed) -> Fixed {
        primary_response(self@, input)
    }

    fn process(&mut self, input: Fixed) -> (output: Fixed)
        ensures
            final(self)@ == primary_next(old(self)@, input),
    {
        let out = match self.filter_type {
            PrimaryFilterType::AllPass => {
                self.alpha.mul(input).add(self.prev_in).sub(self.alpha.mul(self.prev_out))
            },
            PrimaryFilterType::HighPass => {
                self.alpha.mul(self.prev_out.add(input).sub(self.prev_in))
            },
            PrimaryFilterType::LowPass => {
                self.prev_out.add(self.alpha.mul(input.sub(self.prev_out)))
            },
        };
        self.prev_in = input;
        self.prev_out = out;
        out
    }
}

/// What a second-order filter consists of: its five coefficients, already
/// divided by the leading denominator coefficient, and its two state values.
pub struct BiquadModel {
    pub b0: Fixed,
    pub b1: Fixed,
    pub b2: Fixed,
    pub a1: Fixed,
    pub a2: Fixed,
    pub z1: Fixed,
    pub z2: Fixed,
}

/// Whether `v` raw units are within the range of the arithmetic: from
/// `-i64::MAX` to `i64::MAX`.
pub open spec fn representable(v: int) -> bool {
    -(i64::MAX as int) <= v <= i64::MAX
}

/// `b0 * x + z1`, before it is known to be representable.
pub open spec fn biquad_wide_output(m: BiquadModel, x: Fixed) -> int {
    rescale(m.b0@ * x@) + m.z1@
}

/// `b1 * x - a1 * y + z2`, before it is known to be representable.
pub open spec fn biquad_wide_z1(m: BiquadModel, x: Fixed, y: int) -> int {
    rescale(m.b1@ * x@) - rescale(m.a1@ * y) + m.z2@
}

/// `b2 * x - a2 * y`, before it is known to be representable.
pub open spec fn biquad_wide_z2(m: BiquadModel, x: Fixed, y: int) -> int {
    rescale(m.b2@ * x@) - rescale(m.a2@ * y)
}

/// The output of a second-order filter in transposed direct form II for the
/// input `x`: `b0 * x + z1`, or zero where that leaves the range and the
/// filter resets.
#[verifier::opaque]
pub open spec fn biquad_response(m: BiquadModel, x: Fixed) -> Fixed {
    if representable(biquad_wide_output(m, x)) {
        Fixed { raw: biquad_wide_output(m, x) as i64 }
    } else {
        Fixed::zero()
    }
}

/// The filter after the input `x`: `z1 = b1 * x - a1 * y + z2` and
/// `z2 = b2 * x - a2 * y`, both saturated; or both zero where the output
/// leaves the range and the filter resets.
#[verifier::opaque]
pub open spec fn biquad_next(m: BiquadModel, x: Fixed) -> BiquadModel {
    let y = biquad_wide_output(m, x);
    if representable(y) {
        BiquadModel {
            b0: m.b0,
            b1: m.b1,
            b2: m.b2,
            a1: m.a1,
            a2: m.a2,
            z1: saturated(biquad_wide_z1(m, x, y)),
            z2: saturated(biquad_wide_z2(m, x, y)),
        }
    } else {
        BiquadModel {
            b0: m.b0,
            b1: m.b1,
            b2: m.b2,
            a1: m.a1,
            a2: m.a2,
            z1: Fixed::zero(),
            z2: Fixed::zero(),
        }
    }
}

/// Whether a second-order filter is at rest.
pub open spec fn biquad_silent(m: BiquadModel) -> bool {
    m.z1 == Fixed::zero() && m.z2 == Fixed::zero()
}

/// A second-order filter at rest answers silence with silence and stays at
/// rest, whatever its coefficients.
pub proof fn lemma_biquad_silence(m: BiquadModel)
    requires
        biquad_silent(m),
    ensures
        biquad_response(m, Fixed::zero()) == Fixed::zero(),
        biquad_silent(biquad_next(m, Fixed::zero())),
{
    reveal(biquad_response);
    reveal(biquad_next);
    assert(m.b0@ * 0 == 0);
    assert(m.b1@ * 0 == 0);
    assert(m.b2@ * 0 == 0);
    assert(m.a1@ * 0 == 0);
    assert(m.a2@ * 0 == 0);
}

/// A second-order filter at rest whose coefficients are the given ones
/// divided by `a0`.
pub open spec fn biquad_normalised(
    b0: Fixed,
    b1: Fixed,
    b2: Fixed,
    a0: Fixed,
    a1: Fixed,
    a2: Fixed,
) -> BiquadModel {
    BiquadModel {
        b0: b0.div(a0),
        b1: b1.div(a0),
        b2: b2.div(a0),
        a1: a1.div(a0),
        a2: a2.div(a0),
        z1: Fixed::zero(),
        z2: Fixed::zero(),
    }
}

/// A filter with its middle numerator coefficient set anew, so that the
/// sum of its numerator coefficients is `gain` times the sum of its
/// denominator coefficients: `b1 = gain (1 + a1 + a2) - b0 - b2`.
pub open spec fn biquad_trimmed(m: BiquadModel, gain: Fixed) -> BiquadModel {
    BiquadModel {
        b0: m.b0,
        b1: gain.mul(Fixed::one().add(m.a1).add(m.a2)).sub(m.b0).sub(m.b2),
        b2: m.b2,
        a1: m.a1,
        a2: m.a2,
        z1: m.z1,
        z2: m.z2,
    }
}

/// The angular frequency `2π cutoff / sample_rate`, in radians per sample.
pub open spec fn angular_frequency(sample_rate: Fixed, cutoff: Fixed) -> Fixed {
    Fixed::from_raw(TWO_PI_RAW).mul(cutoff).div(sample_rate)
}

/// `sin w / (2 Q)`, kept at least one unit: the resonance term `alpha` of
/// the low-pass and the high-pass. Below one unit both poles would lie on
/// the unit circle.
pub open spec fn resonance(w: Fixed) -> Fixed {
    series_sine(w).div(Fixed::from_raw(TWICE_Q_RAW)).max(Fixed::from_raw(1))
}

/// The last denominator coefficient of the low-pass and the high-pass:
/// `(1 - alpha) / (1 + alpha)`.
pub open spec fn trailing_coefficient(w: Fixed) -> Fixed {
    Fixed::one().sub(resonance(w)).div(Fixed::one().add(resonance(w)))
}

/// The least that an outer numerator coefficient may be: one unit, and
/// `(1 - √a2)^2 / 4`, rounded up.
pub open spec fn outer_least(w: Fixed) -> Fixed {
    let a2 = trailing_coefficient(w);
    Fixed::one().add(a2).sub(a2.sqrt().add(a2.sqrt())).add(Fixed::from_raw(3)).div(
        Fixed::from_int(4),
    ).max(Fixed::from_raw(1))
}

/// The most that an outer numerator coefficient may be: `(1 + a2) / 2` less
/// one unit, and `(1 + √a2)^2 / 4`, rounded down.
pub open spec fn outer_most(w: Fixed) -> Fixed {
    let a2 = trailing_coefficient(w);
    Fixed::one().add(a2).add(a2.sqrt().add(a2.sqrt())).div(Fixed::from_int(4)).min(
        Fixed::one().add(a2).sub(Fixed::from_raw(1)).div(Fixed::from_int(2)),
    )
}

/// An outer numerator coefficient `top / 2 / (1 + alpha)`, kept from
/// `outer_least` to `outer_most`. Within these ends the poles are a pair
/// of complex numbers strictly inside the unit circle, as the formulas
/// have them before rounding.
pub open spec fn outer_coefficient(top: Fixed, w: Fixed) -> Fixed {
    top.div(Fixed::from_int(2)).div(Fixed::one().add(resonance(w))).clamp(
        outer_least(w),
        outer_most(w),
    )
}

/// The second-order low-pass at rest. With `w` the angular frequency,
/// `alpha = sin w / (2 Q)` and `a0 = 1 + alpha`:
/// `b0 = b2 = ((1 - cos w) / 2) / a0`, `b1 = 2 b0`, `a2 = (1 - alpha) / a0`
/// and `a1 = -2 cos w / a0`. The last one is formed as
/// `b0 + b1 + b2 - 1 - a2`, which is the same number before rounding and
/// makes the gain at zero frequency exactly one.
#[verifier::opaque]
pub open spec fn low_pass_model(sample_rate: Fixed, cutoff: Fixed) -> BiquadModel {
    let w = angular_frequency(sample_rate, cutoff);
    let b0 = outer_coefficient(Fixed::one().sub(series_cosine(w)), w);
    let a2 = trailing_coefficient(w);
    BiquadModel {
        b0,
        b1: b0.add(b0),
        b2: b0,
        a1: b0.add(b0.add(b0)).add(b0).sub(Fixed::one()).sub(a2),
        a2,
        z1: Fixed::zero(),
        z2: Fixed::zero(),
    }
}

/// The second-order high-pass at rest. With `w`, `alpha` and `a0` as for the
/// low-pass: `b0 = b2 = ((1 + cos w) / 2) / a0`, `b1 = -2 b0`,
/// `a2 = (1 - alpha) / a0` and `a1 = -2 cos w / a0`. The last one is formed
/// as `1 + a2 - (b0 - b1 + b2)`, which is the same number before rounding
/// and makes the gain at half the sample rate exactly one.
#[verifier::opaque]
pub open spec fn high_pass_model(sample_rate: Fixed, cutoff: Fixed) -> BiquadModel {
    let w = angular_frequency(sample_rate, cutoff);
    let b0 = outer_coefficient(Fixed::one().add(series_cosine(w)), w);
    let a2 = trailing_coefficient(w);
    BiquadModel {
        b0,
        b1: b0.add(b0).neg(),
        b2: b0,
        a1: Fixed::one().add(a2).sub(b0.add(b0.add(b0)).add(b0)),
        a2,
        z1: Fixed::zero(),
        z2: Fixed::zero(),
    }
}

/// `(A + 1 / A) (1 / Q - 1) + 2` for the amplitude `A` of a shelf.
pub open spec fn shelf_beta(a: Fixed) -> Fixed {
    a.add(Fixed::one().div(a)).mul(Fixed::from_raw(SHELF_SLOPE_RAW)).add(Fixed::from_int(2))
}

/// `2 √A alpha` for a shelf, where `alpha = (sin w / 2) √max(beta, 0)`.
pub open spec fn shelf_root(a: Fixed, w: Fixed) -> Fixed {
    Fixed::from_int(2).mul(a.sqrt()).mul(
        series_sine(w).div(Fixed::from_int(2)).mul(shelf_beta(a).max(Fixed::zero()).sqrt()),
    )
}

/// The low shelf at rest. With `A = 10^(gain_db / 40)`, `c = cos w` and
/// `r = 2 √A alpha`, the coefficients before the division by `a0` are
/// `b0 = A ((A + 1) - (A - 1) c + r)`, `b1 = 2 A ((A - 1) - (A + 1) c)`,
/// `b2 = A ((A + 1) - (A - 1) c - r)`, `a0 = (A + 1) + (A - 1) c + r`,
/// `a1 = -2 ((A - 1) + (A + 1) c)`, `a2 = (A + 1) + (A - 1) c - r`.
/// After the division the middle numerator coefficient is set anew as
/// `A^2 (1 + a1 + a2) - b0 - b2`, which is the same number before rounding
/// and makes the gain at zero frequency `A^2`.
#[verifier::opaque]
pub open spec fn low_shelf_model(sample_rate: Fixed, cutoff: Fixed, gain_db: Fixed) -> BiquadModel {
    let a = series_amplitude(gain_db);
    let w = angular_frequency(sample_rate, cutoff);
    let c = series_cosine(w);
    let r = shelf_root(a, w);
    let up = a.add(Fixed::one());
    let down = a.sub(Fixed::one());
    biquad_trimmed(
        biquad_normalised(
            a.mul(up.sub(down.mul(c)).add(r)),
            Fixed::from_int(2).mul(a).mul(down.sub(up.mul(c))),
            a.mul(up.sub(down.mul(c)).sub(r)),
            up.add(down.mul(c)).add(r),
            Fixed::from_int(2).neg().mul(down.add(up.mul(c))),
            up.add(down.mul(c)).sub(r),
        ),
        a.mul(a),
    )
}

/// For every angular frequency, `alpha` lies from one unit to 0.7072 and
/// the last denominator coefficient from one unit to one unit below 1.
pub proof fn lemma_resonance_range(w: Fixed)
    ensures
        1 <= resonance(w)@ <= 3_037_000_499,
        Fixed::one().add(resonance(w))@ == SCALE + resonance(w)@,
        0 < trailing_coefficient(w)@ < SCALE,
{
    lemma_sine_cosine_range(w);
    lemma_quotient_bound(
        series_sine(w)@ * SCALE,
        TWICE_Q_RAW as int,
        0x1_0000_0000_0000_0000,
        TWICE_Q_RAW as int,
    );
    let s = SCALE as int;
    let alpha = resonance(w)@;
    let top = s - alpha;
    let a0 = s + alpha;
    assert(0 <= top * s < a0 * s) by (nonlinear_arith)
        requires
            0 <= top < a0,
            s > 0,
    ;
    vstd::arithmetic::div_mod::lemma_div_is_ordered(0, top * s, a0);
    assert(a0 <= top * s) by (nonlinear_arith)
        requires
            a0 <= 2 * s,
            top >= 2,
            s > 0,
    ;
    vstd::arithmetic::div_mod::lemma_div_is_ordered(a0, top * s, a0);
    vstd::arithmetic::div_mod::lemma_div_by_self(a0);
    vstd::arithmetic::div_mod::lemma_fundamental_div_mod(top * s, a0);
    vstd::arithmetic::div_mod::lemma_mod_bound(top * s, a0);
    let q = (top * s) / a0;
    assert(q < s) by (nonlinear_arith)
        requires
            top * s == a0 * q + (top * s) % a0,
            0 <= (top * s) % a0,
            top * s < a0 * s,
            a0 > 0,
    ;
}

/// A quarter or a half of a number that is not below zero is the quarter
/// or the half of its raw value, rounded down.
proof fn lemma_whole_part(x: Fixed, k: int)
    requires
        0 <= x@,
        k == 2 || k == 4,
    ensures
        x.div(Fixed::from_int(k as i32))@ == x@ / k,
{
    vstd::arithmetic::div_mod::lemma_div_multiples_vanish_quotient(SCALE as int, x@, k);
    assert(x@ * SCALE == SCALE * x@ && k * SCALE == SCALE * k) by (nonlinear_arith);
    assert(Fixed::from_int(k as i32)@ == k * SCALE);
    crate::fixed::lemma_quotient_range(x@ * SCALE, k * SCALE);
    vstd::arithmetic::div_mod::lemma_div_is_ordered(0, x@, k);
    vstd::arithmetic::div_mod::lemma_div_is_ordered_by_denominator(x@, 1, k);
}

/// An outer numerator coefficient lies from one unit to `(1 + a2) / 2` less
/// half a unit, and four times it lies within `2 √a2` of `1 + a2`: the
/// square of `4 b0 - 1 - a2` is at most `4 a2`.
pub proof fn lemma_outer_range(top: Fixed, w: Fixed)
    ensures
        1 <= outer_coefficient(top, w)@,
        2 * outer_coefficient(top, w)@ <= SCALE + trailing_coefficient(w)@ - 1,
        outer_coefficient(top, w)@ < SCALE,
        ({
            let middle = 4 * outer_coefficient(top, w)@ - SCALE - trailing_coefficient(w)@;
            middle * middle <= 4 * (trailing_coefficient(w)@ * SCALE)
        }),
{
    lemma_resonance_range(w);
    let s = SCALE as int;
    let a2 = trailing_coefficient(w);
    let v = (a2@ * 0x1_0000_0000) as nat;
    crate::roots::lemma_floor_sqrt_exists(v);
    let r = crate::roots::floor_sqrt(v) as int;
    // the root is at least 1 and at most the mean of 1 and a2
    assert(a2@ * 0x1_0000_0000 < s * s) by (nonlinear_arith)
        requires
            0 < a2@ < s,
            s == 0x1_0000_0000,
    ;
    if r >= s {
        crate::roots::lemma_square_monotonic(s as nat, r as nat);
    }
    if r < 1 {
        assert((r + 1) * (r + 1) == 1) by (nonlinear_arith)
            requires
                r == 0,
        ;
    }
    assert(1 <= r < s);
    assert(a2.sqrt()@ == r);
    assert(2 * r <= s + a2@) by (nonlinear_arith)
        requires
            r * r <= a2@ * s,
            0 < a2@,
            0 < s,
            0 <= r,
    ;
    let sum = Fixed::one().add(a2);
    let reach = a2.sqrt().add(a2.sqrt());
    assert(sum@ == s + a2@ && reach@ == 2 * r);
    let low = sum.sub(reach).add(Fixed::from_raw(3));
    assert(low@ == s + a2@ - 2 * r + 3);
    lemma_whole_part(low, 4);
    let high = sum.add(reach);
    assert(high@ == s + a2@ + 2 * r);
    lemma_whole_part(high, 4);
    let half = sum.sub(Fixed::from_raw(1));
    assert(half@ == s + a2@ - 1);
    lemma_whole_part(half, 2);
    let least = outer_least(w);
    let most = outer_most(w);
    assert(least@ == if low@ / 4 > 1 {
        low@ / 4
    } else {
        1
    });
    assert(most@ == if half@ / 2 < high@ / 4 {
        half@ / 2
    } else {
        high@ / 4
    });
    assert(least@ <= most@);
    let b0 = outer_coefficient(top, w)@;
    assert(least@ <= b0 <= most@);
    let middle = 4 * b0 - s - a2@;
    assert(-(2 * r) <= middle <= 2 * r);
    assert(middle * middle <= 4 * (r * r)) by (nonlinear_arith)
        requires
            -(2 * r) <= middle <= 2 * r,
            r >= 0,
    ;
    assert(4 * (r * r) <= 4 * (a2@ * s)) by (nonlinear_arith)
        requires
            r * r <= a2@ * s,
    ;
}

/// The second-order low-pass, for every sample rate and cutoff: its gain
/// at zero frequency, `(b0 + b1 + b2) / (1 + a1 + a2)`, is exactly one; its
/// gain at half the sample rate is exactly zero; and both its poles lie
/// strictly inside the unit circle, `|a2| < 1` and `|a1| < 1 + a2`, as a
/// pair of complex numbers, `a1^2 <= 4 a2`.
pub proof fn lemma_low_pass_shape(sample_rate: Fixed, cutoff: Fixed)
    ensures
        ({
            let m = low_pass_model(sample_rate, cutoff);
            let numerator = m.b0@ + m.b1@ + m.b2@;
            let denominator = SCALE + m.a1@ + m.a2@;
            &&& m.b1@ == 2 * m.b0@
            &&& m.b2 == m.b0
            &&& numerator == denominator
            &&& denominator > 0
            &&& -denominator <= (numerator - denominator) * 1_000_000 <= denominator
            &&& m.b0@ - m.b1@ + m.b2@ == 0
            &&& SCALE - m.a1@ + m.a2@ > 0
            &&& 0 < m.a2@ < SCALE
            &&& m.a1@ * m.a1@ <= 4 * (m.a2@ * SCALE)
            &&& biquad_silent(m)
        }),
{
    reveal(low_pass_model);
    let w = angular_frequency(sample_rate, cutoff);
    lemma_resonance_range(w);
    lemma_outer_range(Fixed::one().sub(series_cosine(w)), w);
    let m = low_pass_model(sample_rate, cutoff);
    assert(m.a1@ == 4 * m.b0@ - SCALE - m.a2@);
}

/// The second-order high-pass, for every sample rate and cutoff: its gain
/// at zero frequency is exactly zero; its gain at half the sample rate,
/// `(b0 - b1 + b2) / (1 - a1 + a2)`, is exactly one; and both its poles lie
/// strictly inside the unit circle.
pub proof fn lemma_high_pass_shape(sample_rate: Fixed, cutoff: Fixed)
    ensures
        ({
            let m = high_pass_model(sample_rate, cutoff);
            let numerator = m.b0@ - m.b1@ + m.b2@;
            let denominator = SCALE - m.a1@ + m.a2@;
            &&& m.b1@ == -2 * m.b0@
            &&& m.b2 == m.b0
            &&& m.b0@ + m.b1@ + m.b2@ == 0
            &&& numerator == denominator
            &&& denominator > 0
            &&& -denominator <= (numerator - denominator) * 1_000_000 <= denominator
            &&& SCALE + m.a1@ + m.a2@ > 0
            &&& 0 < m.a2@ < SCALE
            &&& m.a1@ * m.a1@ <= 4 * (m.a2@ * SCALE)
            &&& biquad_silent(m)
        }),
{
    reveal(high_pass_model);
    let w = angular_frequency(sample_rate, cutoff);
    lemma_resonance_range(w);
    lemma_outer_range(Fixed::one().add(series_cosine(w)), w);
    let m = high_pass_model(sample_rate, cutoff);
    let middle = 4 * m.b0@ - SCALE - m.a2@;
    assert(m.a1@ == -middle);
    assert(m.a1@ * m.a1@ == middle * middle) by (nonlinear_arith)
        requires
            m.a1@ == -middle,
    ;
}

/// The low shelf starts at rest.
pub proof fn lemma_shelf_at_rest(sample_rate: Fixed, cutoff: Fixed, gain_db: Fixed)
    ensures
        biquad_silent(low_shelf_model(sample_rate, cutoff, gain_db)),
{
    reveal(low_shelf_model);
}

/// Whether the coefficients of a shelf are small enough for their sums not
/// to saturate: each within 2^28 of zero.
pub open spec fn shelf_in_range(m: BiquadModel, gain: Fixed) -> bool {
    let reach: int = 0x1000_0000_0000_0000;
    &&& -reach <= m.b0@ <= reach
    &&& -reach <= m.b2@ <= reach
    &&& -reach <= m.a1@ <= reach
    &&& -reach <= m.a2@ <= reach
    &&& -reach <= gain.mul(Fixed::one().add(m.a1).add(m.a2))@ <= reach
}

/// The gain of the low shelf at zero frequency is `A^2`: the sum of its
/// numerator coefficients is `A^2` times the sum of its denominator
/// coefficients, rounded to the nearest unit, wherever the coefficients
/// are within 2^28 of zero. So the two differ by at most half a unit of
/// 2^-32.
pub proof fn lemma_shelf_dc_gain(sample_rate: Fixed, cutoff: Fixed, gain_db: Fixed)
    requires
        shelf_in_range(
            low_shelf_model(sample_rate, cutoff, gain_db),
            series_amplitude(gain_db).mul(series_amplitude(gain_db)),
        ),
    ensures
        ({
            let m = low_shelf_model(sample_rate, cutoff, gain_db);
            let gain = series_amplitude(gain_db).mul(series_amplitude(gain_db));
            let numerator = m.b0@ + m.b1@ + m.b2@;
            let denominator = SCALE + m.a1@ + m.a2@;
            &&& numerator == rescale(gain@ * denominator)
            &&& -0x8000_0000 <= SCALE * numerator - gain@ * denominator <= 0x8000_0000
        }),
{
    reveal(low_shelf_model);
    let m = low_shelf_model(sample_rate, cutoff, gain_db);
    let gain = series_amplitude(gain_db).mul(series_amplitude(gain_db));
    let denominator = SCALE + m.a1@ + m.a2@;
    assert(Fixed::one().add(m.a1).add(m.a2)@ == denominator);
    crate::fixed::lemma_rescale_error(gain@ * denominator);
}

/// A product with a whole number of raw value `k * 2^32` is `k` times the
/// other factor, with no rounding.
proof fn lemma_times_whole(k: int, y: int)
    ensures
        rescale((k * SCALE) * y) == k * y,
{
    lemma_times_unit(k * y);
    assert((k * SCALE) * y == (k * y) * SCALE) by (nonlinear_arith);
}

/// A shelf of zero decibels changes nothing: its first coefficient is one
/// and its numerator is its denominator, for every sample rate and cutoff.
#[verifier::rlimit(40)]
pub proof fn lemma_flat_shelf(sample_rate: Fixed, cutoff: Fixed)
    ensures
        ({
            let m = low_shelf_model(sample_rate, cutoff, Fixed::zero());
            &&& m.b0 == Fixed::one()
            &&& m.b1 == m.a1
            &&& m.b2 == m.a2
            &&& biquad_silent(m)
        }),
{
    reveal(low_shelf_model);
    lemma_power_of_zero();
    let s = SCALE as int;
    let a = series_amplitude(Fixed::zero());
    assert(a == Fixed::one());
    let w = angular_frequency(sample_rate, cutoff);
    lemma_sine_cosine_range(w);
    let c = series_cosine(w);
    let two = Fixed::from_int(2);
    assert(two@ == 2 * s);
    // the square root of the amplitude is one
    assert(0x1_0000_0000 * 0x1_0000_0000 <= 0x1_0000_0000_0000_0000 < (0x1_0000_0000 + 1) * (
    0x1_0000_0000 + 1)) by (nonlinear_arith);
    lemma_floor_sqrt_is(0x1_0000_0000_0000_0000, 0x1_0000_0000);
    assert(a.sqrt() == Fixed::one());
    // beta is 2 (1 / Q - 1) + 2, and its square root is about 1.68
    assert(Fixed::one().div(a) == Fixed::one());
    lemma_times_whole(2, SHELF_SLOPE_RAW as int);
    let beta = shelf_beta(a);
    assert(beta@ == 12_149_836_764);
    assert(7_223_790_663 * 7_223_790_663 <= 52_183_151_553_118_470_144 < (7_223_790_663 + 1) * (
    7_223_790_663 + 1)) by (nonlinear_arith);
    lemma_floor_sqrt_is(52_183_151_553_118_470_144, 7_223_790_663);
    let root_beta = beta.max(Fixed::zero()).sqrt();
    assert(root_beta@ == 7_223_790_663);
    // alpha lies within 0.85 of zero, and 2 √A alpha within 1.7
    let half_sine = series_sine(w).div(two);
    lemma_quotient_bound(series_sine(w)@ * s, 2 * s, s * s, 2 * s);
    assert(-0x8000_0000 - 1 <= half_sine@ <= 0x8000_0000);
    let alpha = half_sine.mul(root_beta);
    let cap: int = 0x8000_0001int * 7_223_790_663int;
    assert(-cap <= half_sine@ * root_beta@ <= cap) by (nonlinear_arith)
        requires
            -0x8000_0001 <= half_sine@ <= 0x8000_0001,
            root_beta@ == 7_223_790_663,
            cap == 0x8000_0001int * 7_223_790_663int,
    ;
    vstd::arithmetic::div_mod::lemma_div_is_ordered(
        half_sine@ * root_beta@ + 0x8000_0000,
        cap + 0x8000_0000,
        s,
    );
    vstd::arithmetic::div_mod::lemma_div_is_ordered(
        -cap + 0x8000_0000,
        half_sine@ * root_beta@ + 0x8000_0000,
        s,
    );
    assert(-3_700_000_000 <= alpha@ <= 3_700_000_000);
    lemma_times_whole(2, s);
    assert(two.mul(a.sqrt()) == two);
    lemma_times_whole(2, alpha@);
    let r = shelf_root(a, w);
    assert(r@ == 2 * alpha@);
    // the parts of the coefficients
    let up = a.add(Fixed::one());
    let down = a.sub(Fixed::one());
    assert(up == two && down == Fixed::zero());
    assert(0 * c@ == 0);
    lemma_times_whole(2, c@);
    assert(down.mul(c) == Fixed::zero());
    assert(up.mul(c)@ == 2 * c@);
    let top = up.sub(down.mul(c)).add(r);
    let bottom = up.sub(down.mul(c)).sub(r);
    assert(top == up.add(down.mul(c)).add(r));
    assert(bottom == up.add(down.mul(c)).sub(r));
    lemma_times_whole(1, top@);
    lemma_times_whole(1, bottom@);
    assert(a.mul(top) == top);
    assert(a.mul(bottom) == bottom);
    // the leading coefficient is not zero, so it is one after the division
    assert(1_000_000_000 <= top@ <= 16_000_000_000);
    assert(-16_000_000_000 <= bottom@ <= 16_000_000_000);
    assert((top@ * s) / top@ == s) by (nonlinear_arith)
        requires
            top@ > 0,
    ;
    // the denominator coefficients are small, so their sum does not saturate
    lemma_times_whole(-2, 2 * c@);
    assert(two.neg()@ == -2 * s);
    let middle = two.neg().mul(down.add(up.mul(c)));
    assert(middle@ == -4 * c@);
    lemma_quotient_bound(middle@ * s, top@, 0x4_0000_0000_0000_0000, 1_000_000_000);
    lemma_quotient_bound(bottom@ * s, top@, 0x4_0000_0000_0000_0000, 1_000_000_000);
    let m = low_shelf_model(sample_rate, cutoff, Fixed::zero());
    assert(m.a1@ == (middle@ * s) / top@);
    assert(m.a2@ == (bottom@ * s) / top@);
    assert(m.b0 == Fixed::one());
    assert(m.b2 == m.a2);
    // the gain is one, so the middle numerator coefficient is what is left
    lemma_times_whole(1, s);
    assert(a.mul(a) == Fixed::one());
    let sum = Fixed::one().add(m.a1).add(m.a2);
    assert(sum@ == s + m.a1@ + m.a2@);
    lemma_times_whole(1, sum@);
    assert(a.mul(a).mul(sum) == sum);
}

/// A second-order filter at rest whose first coefficient is one and whose
/// numerator is its denominator gives out its input and stays at rest.
pub proof fn lemma_identity_filter(m: BiquadModel, x: Fixed)
    requires
        m.b0 == Fixed::one(),
        m.b1 == m.a1,
        m.b2 == m.a2,
        biquad_silent(m),
        proper(x),
    ensures
        biquad_response(m, x) == x,
        biquad_silent(biquad_next(m, x)),
{
    reveal(biquad_response);
    reveal(biquad_next);
    lemma_times_whole(1, x@);
}

/// The product of two numbers, rounded to the nearest unit, in a type that
/// holds every such product.
fn wide_product(a: Fixed, b: Fixed) -> (p: i128)
    ensures
        p == rescale(a@ * b@),
        -0x4000_0000_0000_0000_0000_0000 <= p <= 0x4000_0000_0000_0000_0000_0000,
{
    proof {
        lemma_product_range(a@, b@);
    }
    let p: i128 = (a.raw as i128) * (b.raw as i128);
    if p >= 0 {
        (p + 0x8000_0000) / 0x1_0000_0000
    } else {
        -((-p + 0x8000_0000) / 0x1_0000_0000)
    }
}

/// Whether `v` lies in the range of `i64`.
fn in_range(v: i128) -> (r: bool)
    ensures
        r == representable(v as int),
{
    -(i64::MAX as i128) <= v && v <= i64::MAX as i128
}

/// A second-order recursive filter in transposed direct form II.
pub struct BiquadFilter {
    b0: Fixed,
    b1: Fixed,
    b2: Fixed,
    a1: Fixed,
    a2: Fixed,
    z1: Fixed,
    z2: Fixed,
}

impl View for BiquadFilter {
    type V = BiquadModel;

    closed spec fn view(&self) -> BiquadModel {
        BiquadModel {
            b0: self.b0,
            b1: self.b1,
            b2: self.b2,
            a1: self.a1,
            a2: self.a2,
            z1: self.z1,
            z2: self.z2,
        }
    }
}

impl BiquadFilter {
    /// The filter at rest with the given coefficients, each divided by `a0`.
    fn new(b0: Fixed, b1: Fixed, b2: Fixed, a0: Fixed, a1: Fixed, a2: Fixed) -> (f: Self)
        ensures
            f@ == biquad_normalised(b0, b1, b2, a0, a1, a2),
    {
        Self {
            b0: b0.div(a0),
            b1: b1.div(a0),
            b2: b2.div(a0),
            a1: a1.div(a0),
            a2: a2.div(a0),
            z1: Fixed::zero(),
            z2: Fixed::zero(),
        }
    }

    /// A second-order low-pass for the given rates in hertz, at rest.
    pub fn low_pass(sample_rate: Fixed, cutoff: Fixed) -> (f: Self)
        ensures
            f@ == low_pass_model(sample_rate, cutoff),
    {
        reveal(low_pass_model);
        let w = Fixed::from_raw(TWO_PI_RAW).mul(cutoff).div(sample_rate);
        let b0 = Self::outer(Fixed::one().sub(cos(w)), w);
        let a2 = Self::trailing(w);
        Self {
            b0,
            b1: b0.add(b0),
            b2: b0,
            a1: b0.add(b0.add(b0)).add(b0).sub(Fixed::one()).sub(a2),
            a2,
            z1: Fixed::zero(),
            z2: Fixed::zero(),
        }
    }

    /// A second-order high-pass for the given rates in hertz, at rest.
    pub fn high_pass(sample_rate: Fixed, cutoff: Fixed) -> (f: Self)
        ensures
            f@ == high_pass_model(sample_rate, cutoff),
    {
        reveal(high_pass_model);
        let w = Fixed::from_raw(TWO_PI_RAW).mul(cutoff).div(sample_rate);
        let b0 = Self::outer(Fixed::one().add(cos(w)), w);
        let a2 = Self::trailing(w);
        Self {
            b0,
            b1: b0.add(b0).neg(),
            b2: b0,
            a1: Fixed::one().add(a2).sub(b0.add(b0.add(b0)).add(b0)),
            a2,
            z1: Fixed::zero(),
            z2: Fixed::zero(),
        }
    }

    /// `(1 - alpha) / (1 + alpha)` for the resonance term `alpha`.
    fn trailing(w: Fixed) -> (a2: Fixed)
        ensures
            a2 == trailing_coefficient(w),
    {
        let alpha = sin(w).div(Fixed::from_raw(TWICE_Q_RAW)).max(Fixed::from_raw(1));
        Fixed::one().sub(alpha).div(Fixed::one().add(alpha))
    }

    /// An outer numerator coefficient, kept within its ends.
    fn outer(top: Fixed, w: Fixed) -> (b0: Fixed)
        ensures
            b0 == outer_coefficient(top, w),
    {
        let alpha = sin(w).div(Fixed::from_raw(TWICE_Q_RAW)).max(Fixed::from_raw(1));
        let a2 = Self::trailing(w);
        let sum = Fixed::one().add(a2);
        let reach = a2.sqrt().add(a2.sqrt());
        let least = sum.sub(reach).add(Fixed::from_raw(3)).div(Fixed::from_int(4)).max(
            Fixed::from_raw(1),
        );
        let most = sum.add(reach).div(Fixed::from_int(4)).min(
            sum.sub(Fixed::from_raw(1)).div(Fixed::from_int(2)),
        );
        top.div(Fixed::from_int(2)).div(Fixed::one().add(alpha)).clamp(least, most)
    }

    /// A low shelf for the given rates in hertz and gain in decibels, at rest.
    pub fn low_shelf(sample_rate: Fixed, cutoff: Fixed, gain_db: Fixed) -> (f: Self)
        ensures
            f@ == low_shelf_model(sample_rate, cutoff, gain_db),
    {
        reveal(low_shelf_model);
        let a = amplitude(gain_db);
        let w = Fixed::from_raw(TWO_PI_RAW).mul(cutoff).div(sample_rate);
        let cos_w = cos(w);
        let beta = a.add(Fixed::one().div(a)).mul(Fixed::from_raw(SHELF_SLOPE_RAW)).add(
            Fixed::from_int(2),
        );
        let alpha = sin(w).div(Fixed::from_int(2)).mul(beta.max(Fixed::zero()).sqrt());
        let root = Fixed::from_int(2).mul(a.sqrt()).mul(alpha);
        let up = a.add(Fixed::one());
        let down = a.sub(Fixed::one());
        let mut f = Self::new(
            a.mul(up.sub(down.mul(cos_w)).add(root)),
            Fixed::from_int(2).mul(a).mul(down.sub(up.mul(cos_w))),
            a.mul(up.sub(down.mul(cos_w)).sub(root)),
            up.add(down.mul(cos_w)).add(root),
            Fixed::from_int(2).neg().mul(down.add(up.mul(cos_w))),
            up.add(down.mul(cos_w)).sub(root),
        );
        f.b1 = a.mul(a).mul(Fixed::one().add(f.a1).add(f.a2)).sub(f.b0).sub(f.b2);
        f
    }

    /// The coefficients `b0, b1, b2, a1, a2`.
    pub fn coefficients(&self) -> (c: [Fixed; 5])
        ensures
            c@ == seq![self@.b0, self@.b1, self@.b2, self@.a1, self@.a2],
    {
        let c = [self.b0, self.b1, self.b2, self.a1, self.a2];
        assert(c@ =~= seq![self@.b0, self@.b1, self@.b2, self@.a1, self@.a2]);
        c
    }

    /// The state values `z1, z2`.
    pub fn state(&self) -> (z: [Fixed; 2])
        ensures
            z@ == seq![self@.z1, self@.z2],
    {
        let z = [self.z1, self.z2];
        assert(z@ =~= seq![self@.z1, self@.z2]);
        z
    }
}

impl Processable for BiquadFilter {
    open spec fn response(&self, input: Fixed) -> Fixed {
        biquad_response(self@, input)
    }

    /// One step of the filter. Where the output would leave the range of
    /// the arithmetic, the state is cleared and the output is zero. A state
    /// value that would leave the range is brought to its nearer end. An
    /// output smaller in magnitude than one unit is zero already, so
    /// nothing is left to flush.
    fn process(&mut self, input: Fixed) -> (output: Fixed)
        ensures
            final(self)@ == biquad_next(old(self)@, input),
    {
        proof {
            reveal(biquad_response);
            reveal(biquad_next);
        }
        let y: i128 = wide_product(self.b0, input) + self.z1.raw as i128;
        if in_range(y) {
            let out = Fixed { raw: y as i64 };
            let z1: i128 = wide_product(self.b1, input) - wide_product(self.a1, out)
                + self.z2.raw as i128;
            let z2: i128 = wide_product(self.b2, input) - wide_product(self.a2, out);
            self.z1 = narrow(z1);
            self.z2 = narrow(z2);
            out
        } else {
            self.z1 = Fixed::zero();
            self.z2 = Fixed::zero();
            Fixed::zero()
        }
    }
}

} // verus!
