use crosstalk::filter::{BiquadFilter, PrimaryFilter, PrimaryFilterType, Processable};
use crosstalk::fixed::Fixed;

const ONE: f64 = 4294967296.0;

fn fx(x: f64) -> Fixed {
    Fixed::from_raw((x * ONE).round() as i64)
}

fn fl(x: Fixed) -> f64 {
    x.raw as f64 / ONE
}

fn raws(c: [Fixed; 5]) -> [i64; 5] {
    [c[0].raw, c[1].raw, c[2].raw, c[3].raw, c[4].raw]
}

#[test]
fn all_pass_follows_its_recurrence() {
    let alpha = 0.3;
    let mut f = PrimaryFilter::all_pass(fx(alpha));
    assert_eq!(f.kind(), PrimaryFilterType::AllPass);
    assert_eq!(f.alpha(), fx(alpha));
    let (mut prev_in, mut prev_out) = (0.0f64, 0.0f64);
    let mut n = 0;
    while n < 500 {
        let x = ((n * 37 % 101) as f64 - 50.0) / 50.0;
        let want = alpha * x + prev_in - alpha * prev_out;
        prev_in = x;
        prev_out = want;
        let got = fl(f.process(fx(x)));
        assert!((got - want).abs() < 1e-7, "{n}: {got} {want}");
        n += 1;
    }
}

#[test]
fn all_pass_first_samples_are_exact() {
    // alpha = 1/2, input 1, 0, 0: output 1/2, then 1 - 1/4 = 3/4, then -3/8.
    let mut f = PrimaryFilter::all_pass(Fixed::from_raw(1 << 31));
    assert_eq!(f.process(Fixed::one()).raw, 1 << 31);
    assert_eq!(f.process(Fixed::zero()).raw, 3 << 30);
    assert_eq!(f.process(Fixed::zero()).raw, -(3 << 29));
}

#[test]
fn one_pole_coefficients() {
    let fs = 48000.0;
    let fc = 1000.0;
    let rc = 1.0 / (2.0 * std::f64::consts::PI * fc);
    let dt = 1.0 / fs;
    let lp = PrimaryFilter::low_pass(fx(fs), fx(fc));
    let hp = PrimaryFilter::high_pass(fx(fs), fx(fc));
    assert_eq!(lp.kind(), PrimaryFilterType::LowPass);
    assert_eq!(hp.kind(), PrimaryFilterType::HighPass);
    assert!((fl(lp.alpha()) - dt / (rc + dt)).abs() < 1e-9);
    assert!((fl(hp.alpha()) - rc / (rc + dt)).abs() < 1e-9);
}

#[test]
fn one_pole_low_pass_first_samples_are_exact() {
    // The coefficient is never below one unit: the filter always moves.
    let mut slow = PrimaryFilter::low_pass(Fixed::from_int(48000), Fixed::from_raw(1));
    assert_eq!(slow.alpha(), Fixed::from_raw(1));
    assert_eq!(slow.process(Fixed::from_int(1 << 20)).raw, 1 << 20);
    // y = prev_out + alpha (x - prev_out)
    let mut f = PrimaryFilter::low_pass(fx(48000.0), fx(1000.0));
    let a = f.alpha();
    let y1 = f.process(Fixed::one());
    assert_eq!(y1, a);
    let y2 = f.process(Fixed::one());
    assert_eq!(y2, y1.add(a.mul(Fixed::one().sub(y1))));
}

#[test]
fn one_pole_high_pass_first_samples_are_exact() {
    // y = alpha (prev_out + x - prev_in)
    let mut f = PrimaryFilter::high_pass(fx(48000.0), fx(1000.0));
    let a = f.alpha();
    let y1 = f.process(Fixed::one());
    assert_eq!(y1, a);
    let y2 = f.process(Fixed::one());
    assert_eq!(y2, a.mul(y1));
}

#[test]
fn one_pole_filters_settle_on_a_constant() {
    let mut lp = PrimaryFilter::low_pass(fx(48000.0), fx(1000.0));
    let mut hp = PrimaryFilter::high_pass(fx(48000.0), fx(1000.0));
    let mut y_lp = Fixed::zero();
    let mut y_hp = Fixed::zero();
    let mut n = 0;
    while n < 5000 {
        y_lp = lp.process(fx(0.5));
        y_hp = hp.process(fx(0.5));
        n += 1;
    }
    assert!((fl(y_lp) - 0.5).abs() < 1e-6);
    assert!(fl(y_hp).abs() < 1e-6);
}

#[test]
fn filters_stay_bounded_over_a_million_samples() {
    let fs = fx(48000.0);
    let mut lp = PrimaryFilter::low_pass(fs, fx(20.0));
    let mut hp = PrimaryFilter::high_pass(fs, fx(20.0));
    let mut ap = PrimaryFilter::all_pass(fx(0.98));
    let mut b_lp = BiquadFilter::low_pass(fs, fx(20.0));
    let mut b_hp = BiquadFilter::high_pass(fs, fx(23999.0));
    let mut b_ls = BiquadFilter::low_shelf(fs, fx(200.0), fx(6.0));
    let mut seed: u64 = 1;
    let mut n = 0;
    while n < 1_000_000 {
        seed = seed.wrapping_mul(6364136223846793005).wrapping_add(1442695040888963407);
        // a sample between -1 and 1
        let x = Fixed::from_raw(((seed >> 31) as i64) - (1 << 32));
        assert!(x.raw.abs() <= 1 << 32);
        assert!(lp.process(x).raw.abs() <= 1 << 32);
        assert!(hp.process(x).raw.abs() <= 2 << 32);
        assert!(ap.process(x).raw.abs() <= 3 << 32);
        assert!(b_lp.process(x).raw.abs() <= 2 << 32);
        assert!(b_hp.process(x).raw.abs() <= 4 << 32);
        assert!(b_ls.process(x).raw.abs() <= 4 << 32);
        n += 1;
    }
}

#[test]
fn all_pass_keeps_the_magnitude_of_a_sinusoid() {
    for alpha in [-0.9, -0.3, 0.0, 0.5, 0.98] {
        for cycles_per_sample in [0.01, 0.05, 0.21, 0.4] {
            let mut f = PrimaryFilter::all_pass(fx(alpha));
            let mut n = 0;
            let mut sum_in = 0.0;
            let mut sum_out = 0.0;
            while n < 40000 {
                let x = (2.0 * std::f64::consts::PI * cycles_per_sample * n as f64).sin();
                let y = fl(f.process(fx(x)));
                if n >= 20000 {
                    sum_in += x * x;
                    sum_out += y * y;
                }
                n += 1;
            }
            let gain = (sum_out / sum_in).sqrt();
            assert!((gain - 1.0).abs() < 1e-6, "{alpha} {cycles_per_sample}: {gain}");
        }
    }
}

fn expected_low_pass(fs: f64, fc: f64) -> [f64; 5] {
    let q = std::f64::consts::FRAC_1_SQRT_2;
    let w = 2.0 * std::f64::consts::PI * fc / fs;
    let alpha = w.sin() / (2.0 * q);
    let a0 = 1.0 + alpha;
    [
        (1.0 - w.cos()) / 2.0 / a0,
        (1.0 - w.cos()) / a0,
        (1.0 - w.cos()) / 2.0 / a0,
        -2.0 * w.cos() / a0,
        (1.0 - alpha) / a0,
    ]
}

fn expected_high_pass(fs: f64, fc: f64) -> [f64; 5] {
    let q = std::f64::consts::FRAC_1_SQRT_2;
    let w = 2.0 * std::f64::consts::PI * fc / fs;
    let alpha = w.sin() / (2.0 * q);
    let a0 = 1.0 + alpha;
    [
        (1.0 + w.cos()) / 2.0 / a0,
        -(1.0 + w.cos()) / a0,
        (1.0 + w.cos()) / 2.0 / a0,
        -2.0 * w.cos() / a0,
        (1.0 - alpha) / a0,
    ]
}

fn expected_low_shelf(fs: f64, fc: f64, gain_db: f64) -> [f64; 5] {
    let q = 0.707;
    let a = 10f64.powf(gain_db / 40.0);
    let w = 2.0 * std::f64::consts::PI * fc / fs;
    let c = w.cos();
    let beta = (a + 1.0 / a) * (1.0 / q - 1.0) + 2.0;
    let alpha = w.sin() / 2.0 * beta.max(0.0).sqrt();
    let r = 2.0 * a.sqrt() * alpha;
    let a0 = (a + 1.0) + (a - 1.0) * c + r;
    [
        a * ((a + 1.0) - (a - 1.0) * c + r) / a0,
        2.0 * a * ((a - 1.0) - (a + 1.0) * c) / a0,
        a * ((a + 1.0) - (a - 1.0) * c - r) / a0,
        -2.0 * ((a - 1.0) + (a + 1.0) * c) / a0,
        ((a + 1.0) + (a - 1.0) * c - r) / a0,
    ]
}

fn assert_close(got: [Fixed; 5], want: [f64; 5], tolerance: f64) {
    let mut i = 0;
    while i < 5 {
        assert!((fl(got[i]) - want[i]).abs() < tolerance, "{i}: {} {}", fl(got[i]), want[i]);
        i += 1;
    }
}

#[test]
fn second_order_coefficients() {
    for fs in [8000.0, 44100.0, 48000.0, 192000.0] {
        for fraction in [0.001, 0.01, 0.1, 0.25, 0.4, 0.499] {
            let fc = fs * fraction;
            assert_close(
                BiquadFilter::low_pass(fx(fs), fx(fc)).coefficients(),
                expected_low_pass(fs, fc),
                3e-8,
            );
            assert_close(
                BiquadFilter::high_pass(fx(fs), fx(fc)).coefficients(),
                expected_high_pass(fs, fc),
                3e-8,
            );
            for gain in [-12.0, -3.0, 0.0, 4.5, 12.0] {
                assert_close(
                    BiquadFilter::low_shelf(fx(fs), fx(fc), fx(gain)).coefficients(),
                    expected_low_shelf(fs, fc, gain),
                    2e-7,
                );
            }
        }
    }
}

#[test]
fn second_order_filters_start_at_rest() {
    let f = BiquadFilter::low_pass(fx(48000.0), fx(1000.0));
    assert_eq!(f.state(), [Fixed::zero(), Fixed::zero()]);
    let f = BiquadFilter::high_pass(fx(48000.0), fx(1000.0));
    assert_eq!(f.state(), [Fixed::zero(), Fixed::zero()]);
    let f = BiquadFilter::low_shelf(fx(48000.0), fx(1000.0), fx(3.0));
    assert_eq!(f.state(), [Fixed::zero(), Fixed::zero()]);
}

#[test]
fn low_pass_numerator_is_one_two_one() {
    for fc in [20.0, 300.0, 5000.0, 20000.0] {
        let c = raws(BiquadFilter::low_pass(fx(48000.0), fx(fc)).coefficients());
        assert_eq!(c[1], 2 * c[0]);
        assert_eq!(c[2], c[0]);
    }
}

#[test]
fn high_pass_numerator_sums_to_zero() {
    for fc in [20.0, 300.0, 5000.0, 20000.0] {
        let c = raws(BiquadFilter::high_pass(fx(48000.0), fx(fc)).coefficients());
        assert_eq!(c[0] + c[1] + c[2], 0);
    }
}

#[test]
fn low_pass_gain_at_zero_frequency() {
    for fs in [8000.0, 48000.0, 192000.0] {
        for fraction in [0.01, 0.1, 0.25, 0.4, 0.49] {
            let c = raws(BiquadFilter::low_pass(fx(fs), fx(fs * fraction)).coefficients());
            let gain = (c[0] + c[1] + c[2]) as f64 / ((1i64 << 32) + c[3] + c[4]) as f64;
            assert!((gain - 1.0).abs() < 1e-6, "{fs} {fraction}: {gain}");
        }
    }
}

#[test]
fn high_pass_gain_at_zero_frequency() {
    for fs in [8000.0, 48000.0, 192000.0] {
        for fraction in [0.001, 0.01, 0.1, 0.25, 0.4, 0.49] {
            let c = raws(BiquadFilter::high_pass(fx(fs), fx(fs * fraction)).coefficients());
            let gain = (c[0] + c[1] + c[2]) as f64 / ((1i64 << 32) + c[3] + c[4]) as f64;
            assert!(gain.abs() < 1e-6, "{fs} {fraction}: {gain}");
        }
    }
}

#[test]
fn low_pass_passes_a_constant() {
    let mut f = BiquadFilter::low_pass(fx(48000.0), fx(2000.0));
    let mut y = Fixed::zero();
    let mut n = 0;
    while n < 5000 {
        y = f.process(fx(0.5));
        n += 1;
    }
    assert!((fl(y) - 0.5).abs() < 1e-6, "{}", fl(y));
}

#[test]
fn high_pass_blocks_a_constant() {
    let mut f = BiquadFilter::high_pass(fx(48000.0), fx(200.0));
    let mut y = Fixed::one();
    let mut n = 0;
    while n < 20000 {
        y = f.process(fx(0.5));
        n += 1;
    }
    assert!(fl(y).abs() < 1e-6, "{}", fl(y));
}

#[test]
fn second_order_filter_follows_its_recurrence() {
    let mut f = BiquadFilter::low_shelf(fx(48000.0), fx(300.0), fx(4.0));
    let c = f.coefficients();
    let (b0, b1, b2, a1, a2) = (fl(c[0]), fl(c[1]), fl(c[2]), fl(c[3]), fl(c[4]));
    let (mut z1, mut z2) = (0.0f64, 0.0f64);
    let mut n = 0;
    while n < 2000 {
        let x = ((n * 53 % 97) as f64 - 48.0) / 48.0;
        let want = b0 * x + z1;
        z1 = b1 * x - a1 * want + z2;
        z2 = b2 * x - a2 * want;
        let got = fl(f.process(fx(x)));
        assert!((got - want).abs() < 1e-6, "{n}: {got} {want}");
        n += 1;
    }
}

#[test]
fn second_order_filter_first_sample_is_exact() {
    let mut f = BiquadFilter::low_pass(fx(48000.0), fx(1000.0));
    let c = f.coefficients();
    let x = Fixed::from_raw(3 << 30);
    // y = b0 x; z1 = b1 x - a1 y; z2 = b2 x - a2 y
    let y = f.process(x);
    assert_eq!(y, c[0].mul(x));
    assert_eq!(f.state()[0], c[1].mul(x).sub(c[3].mul(y)));
    assert_eq!(f.state()[1], c[2].mul(x).sub(c[4].mul(y)));
}

#[test]
fn second_order_filter_resets_when_it_leaves_the_range() {
    // A shelf of 120 decibels has a gain far above what a sample at the top
    // of the range can take.
    let mut f = BiquadFilter::low_shelf(fx(48000.0), fx(12000.0), fx(120.0));
    let top = Fixed::from_raw(i64::MAX);
    assert_eq!(f.process(top), Fixed::zero());
    assert_eq!(f.state(), [Fixed::zero(), Fixed::zero()]);
    // After the reset it works as from rest.
    let c = f.coefficients();
    assert_eq!(f.process(Fixed::from_raw(1000)), c[0].mul(Fixed::from_raw(1000)));
}

fn cutoffs_of_every_size(fs: i32) -> Vec<Fixed> {
    // from one unit of 2^-32 hertz up to one unit below half the sample rate
    let top = ((fs as i64) << 31) - 1;
    let mut cutoffs = vec![Fixed::from_raw(1), Fixed::from_raw(top)];
    let mut raw: i64 = 3;
    while raw < top {
        cutoffs.push(Fixed::from_raw(raw));
        cutoffs.push(Fixed::from_raw(top - raw));
        raw = raw * 7 / 4 + 1;
    }
    cutoffs
}

#[test]
fn low_pass_has_the_gain_one_at_zero_frequency_for_every_cutoff() {
    for fs in [8000, 44100, 48000, 96000, 192000] {
        for cutoff in cutoffs_of_every_size(fs) {
            let c = raws(BiquadFilter::low_pass(Fixed::from_int(fs), cutoff).coefficients());
            let numerator = c[0] + c[1] + c[2];
            let denominator = (1i64 << 32) + c[3] + c[4];
            assert_eq!(numerator, denominator, "{fs} {}", cutoff.raw);
            assert!(denominator > 0);
            // nothing passes at half the sample rate
            assert_eq!(c[0] - c[1] + c[2], 0);
        }
    }
}

#[test]
fn high_pass_has_the_gain_one_at_half_the_sample_rate_for_every_cutoff() {
    for fs in [8000, 44100, 48000, 96000, 192000] {
        for cutoff in cutoffs_of_every_size(fs) {
            let c = raws(BiquadFilter::high_pass(Fixed::from_int(fs), cutoff).coefficients());
            let numerator = c[0] - c[1] + c[2];
            let denominator = (1i64 << 32) - c[3] + c[4];
            assert_eq!(numerator, denominator, "{fs} {}", cutoff.raw);
            assert!(denominator > 0);
            // nothing passes at zero frequency
            assert_eq!(c[0] + c[1] + c[2], 0);
        }
    }
}

#[test]
fn poles_lie_strictly_inside_the_unit_circle_for_every_cutoff() {
    let one = 1i64 << 32;
    for fs in [8000, 44100, 48000, 96000, 192000] {
        for cutoff in cutoffs_of_every_size(fs) {
            for c in [
                raws(BiquadFilter::low_pass(Fixed::from_int(fs), cutoff).coefficients()),
                raws(BiquadFilter::high_pass(Fixed::from_int(fs), cutoff).coefficients()),
            ] {
                assert!(c[4].abs() < one, "{fs} {}", cutoff.raw);
                assert!(c[3].abs() < one + c[4], "{fs} {}", cutoff.raw);
            }
        }
    }
}

#[test]
fn the_middle_denominator_coefficient_keeps_to_its_formula() {
    // formed from the other coefficients, it is -2 cos w / a0 but for
    // roundings
    for fs in [8000.0, 48000.0, 192000.0] {
        for fraction in [0.0001, 0.001, 0.01, 0.1, 0.25, 0.4, 0.49, 0.4999] {
            let low = BiquadFilter::low_pass(fx(fs), fx(fs * fraction)).coefficients();
            let high = BiquadFilter::high_pass(fx(fs), fx(fs * fraction)).coefficients();
            let want = expected_low_pass(fs, fs * fraction)[3];
            assert!((fl(low[3]) - want).abs() < 3e-8, "{fs} {fraction}");
            assert!((fl(high[3]) - want).abs() < 3e-8, "{fs} {fraction}");
        }
    }
}

#[test]
fn low_shelf_has_the_gain_of_its_amplitude_squared_at_zero_frequency() {
    for fs in [8000.0, 48000.0, 192000.0] {
        for fraction in [0.0001, 0.004, 0.05, 0.3, 0.499] {
            for gain in [-24.0, -6.0, -1.0, 0.0, 3.0, 6.0, 12.0, 24.0] {
                let c = raws(
                    BiquadFilter::low_shelf(fx(fs), fx(fs * fraction), fx(gain)).coefficients(),
                );
                let a = crosstalk::exponent::amplitude(fx(gain));
                let numerator = c[0] + c[1] + c[2];
                let denominator = Fixed::from_raw((1i64 << 32) + c[3] + c[4]);
                assert_eq!(numerator, a.mul(a).mul(denominator).raw, "{fs} {fraction} {gain}");
            }
        }
    }
}

fn rounded(p: i128) -> i128 {
    // to the nearest unit, halves away from zero
    if p >= 0 { (p + (1 << 31)) >> 32 } else { -((-p + (1 << 31)) >> 32) }
}

#[test]
fn the_step_of_a_second_order_filter_at_the_ends_of_the_range() {
    let top = i64::MAX as i128;
    let mut f = BiquadFilter::low_shelf(fx(48000.0), fx(9000.0), fx(30.0));
    let c = raws(f.coefficients()).map(|v| v as i128);
    let (mut z1, mut z2) = (0i128, 0i128);
    let (mut resets, mut saturations) = (0, 0);
    let mut seed: u64 = 31;
    let mut n = 0;
    while n < 20000 {
        seed = seed.wrapping_mul(6364136223846793005).wrapping_add(1442695040888963407);
        // samples of every size up to the top of the range
        let x = ((seed as i64) >> (seed % 40)).max(-i64::MAX);
        let wide = rounded(c[0] * x as i128) + z1;
        let got = f.process(Fixed::from_raw(x));
        if wide.abs() > top {
            // the output leaves the range: the filter resets
            assert_eq!(got, Fixed::zero());
            z1 = 0;
            z2 = 0;
            resets += 1;
        } else {
            // else the output is given out and the state kept within the range
            assert_eq!(got.raw as i128, wide);
            let next1 = rounded(c[1] * x as i128) - rounded(c[3] * wide) + z2;
            let next2 = rounded(c[2] * x as i128) - rounded(c[4] * wide);
            if next1.abs() > top || next2.abs() > top {
                saturations += 1;
            }
            z1 = next1.clamp(-top, top);
            z2 = next2.clamp(-top, top);
        }
        assert_eq!(f.state(), [Fixed::from_raw(z1 as i64), Fixed::from_raw(z2 as i64)]);
        n += 1;
    }
    assert!(resets > 0);
    assert!(saturations > 0, "no state left the range");
}

#[test]
fn poles_are_a_complex_pair_for_every_cutoff() {
    for fs in [8000, 44100, 48000, 96000, 192000] {
        for cutoff in cutoffs_of_every_size(fs) {
            for c in [
                raws(BiquadFilter::low_pass(Fixed::from_int(fs), cutoff).coefficients()),
                raws(BiquadFilter::high_pass(Fixed::from_int(fs), cutoff).coefficients()),
            ] {
                assert!(c[4] > 0);
                let a1 = c[3] as i128;
                assert!(a1 * a1 <= 4 * ((c[4] as i128) << 32), "{fs} {}", cutoff.raw);
            }
        }
    }
}

#[test]
fn the_energy_of_a_second_order_filter_stays_bounded() {
    // with p = 1 - a2, the energy a2 z1^2 - a1 z1 z2 + z2^2 stays at most
    // 2 (1 + a2) / p^2 times what one step adds
    for (fs, hz) in [(48000.0, 20.0), (48000.0, 1000.0), (48000.0, 20000.0), (8000.0, 3999.0)] {
        for high in [false, true] {
            let mut f = if high {
                BiquadFilter::high_pass(fx(fs), fx(hz))
            } else {
                BiquadFilter::low_pass(fx(fs), fx(hz))
            };
            let c = f.coefficients().map(fl);
            let (a1, a2) = (c[3], c[4]);
            let unit = 1.0 / 4294967296.0;
            let drive = 2.0 * c[0].abs() + c[1].abs() + c[2].abs() + 4.0 * unit;
            let added = 4.0 * drive * drive;
            let most = 2.0 * (1.0 + a2) / ((1.0 - a2) * (1.0 - a2)) * added;
            let mut seed: u64 = 43;
            let mut n = 0;
            while n < 200000 {
                seed = seed.wrapping_mul(6364136223846793005).wrapping_add(1442695040888963407);
                let x = Fixed::from_raw(((seed >> 31) as i64) - (1 << 32));
                f.process(x);
                let z = f.state().map(fl);
                let held = a2 * z[0] * z[0] - a1 * z[0] * z[1] + z[1] * z[1];
                assert!(held >= -1e-12 && held <= most * (1.0 + 1e-9), "{fs} {hz} {n}");
                n += 1;
            }
        }
    }
}
