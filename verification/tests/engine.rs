use crosstalk::ctc_engine::{ConfigError, CtcEngine};
use crosstalk::delay::FractionalDelay;
use crosstalk::filter::{BiquadFilter, Processable};
use crosstalk::fixed::Fixed;
use crosstalk::phase::PhaseNetwork;

const ONE: f64 = 4294967296.0;

fn fx(x: f64) -> Fixed {
    Fixed::from_raw((x * ONE).round() as i64)
}

fn fl(x: Fixed) -> f64 {
    x.raw as f64 / ONE
}

fn engine(ct: f64, main: [f64; 2]) -> CtcEngine {
    CtcEngine::new(
        fx(48000.0),
        [fx(ct), fx(ct)],
        [fx(main[0]), fx(main[1])],
        [fx(1300.0), fx(1300.0)],
        fx(80.0),
        fx(250.0),
        fx(3.0),
    ).unwrap()
}

fn gains() -> [Fixed; 4] {
    [Fixed::one(), fx(0.9366), fx(0.9366), Fixed::one()]
}

fn noise(seed: &mut u64) -> Fixed {
    *seed = seed.wrapping_mul(6364136223846793005).wrapping_add(1442695040888963407);
    Fixed::from_raw(((*seed >> 31) as i64) - (1 << 32))
}

fn refused(made: Result<CtcEngine, ConfigError>) -> ConfigError {
    match made {
        Ok(_) => panic!("accepted"),
        Err(e) => e,
    }
}

#[test]
fn a_delay_out_of_range_is_refused() {
    let fs = fx(48000.0);
    let ok = [fx(8.0), fx(8.0)];
    let lp = [fx(1300.0), fx(1300.0)];
    let none = [Fixed::zero(), Fixed::zero()];
    for bad in [fx(512.0), fx(-1.0), Fixed::from_raw(-1), fx(600.0), Fixed::from_raw(i64::MAX)] {
        for place in 0..2 {
            let mut ct = ok;
            ct[place] = bad;
            let made = CtcEngine::new(fs, ct, none, lp, fx(80.0), fx(250.0), fx(3.0));
            assert_eq!(refused(made), ConfigError::DelayOutOfRange);
            let mut main = none;
            main[place] = bad;
            let made = CtcEngine::new(fs, ok, main, lp, fx(80.0), fx(250.0), fx(3.0));
            assert_eq!(refused(made), ConfigError::DelayOutOfRange);
        }
    }
}

#[test]
fn delays_at_the_ends_of_the_range_are_accepted() {
    let fs = fx(48000.0);
    let lp = [fx(1300.0), fx(1300.0)];
    let low = [Fixed::zero(), Fixed::zero()];
    let high = [Fixed::from_raw((512 << 32) - 1), Fixed::from_raw((512 << 32) - 1)];
    assert!(CtcEngine::new(fs, low, low, lp, fx(80.0), fx(250.0), fx(3.0)).is_ok());
    assert!(CtcEngine::new(fs, high, high, lp, fx(80.0), fx(250.0), fx(3.0)).is_ok());
}

#[test]
fn a_cutoff_out_of_range_is_refused() {
    let fs = fx(48000.0);
    let ct = [fx(8.0), fx(8.0)];
    let none = [Fixed::zero(), Fixed::zero()];
    let lp = [fx(1300.0), fx(1300.0)];
    for bad in [fx(0.0), fx(-5.0), fx(24000.0), fx(30000.0)] {
        let made = CtcEngine::new(fs, ct, none, [bad, lp[1]], fx(80.0), fx(250.0), fx(3.0));
        assert_eq!(refused(made), ConfigError::CutoffOutOfRange);
        let made = CtcEngine::new(fs, ct, none, [lp[0], bad], fx(80.0), fx(250.0), fx(3.0));
        assert_eq!(refused(made), ConfigError::CutoffOutOfRange);
        let made = CtcEngine::new(fs, ct, none, lp, bad, fx(250.0), fx(3.0));
        assert_eq!(refused(made), ConfigError::CutoffOutOfRange);
        let made = CtcEngine::new(fs, ct, none, lp, fx(80.0), bad, fx(3.0));
        assert_eq!(refused(made), ConfigError::CutoffOutOfRange);
    }
    // just below half the sample rate is accepted
    let edge = Fixed::from_raw((24000 << 32) - 1);
    assert!(CtcEngine::new(fs, ct, none, [edge, edge], edge, edge, fx(3.0)).is_ok());
}

#[test]
fn a_delay_out_of_range_is_reported_before_a_cutoff() {
    let made = CtcEngine::new(
        fx(48000.0),
        [fx(700.0), fx(8.0)],
        [Fixed::zero(), Fixed::zero()],
        [fx(0.0), fx(1300.0)],
        fx(80.0),
        fx(250.0),
        fx(3.0),
    );
    assert_eq!(refused(made), ConfigError::DelayOutOfRange);
}

#[test]
fn no_sample_rate_has_a_cutoff_at_or_below_zero_hertz() {
    let made = CtcEngine::new(
        Fixed::zero(),
        [fx(8.0), fx(8.0)],
        [Fixed::zero(), Fixed::zero()],
        [fx(1300.0), fx(1300.0)],
        fx(80.0),
        fx(250.0),
        fx(3.0),
    );
    assert_eq!(refused(made), ConfigError::CutoffOutOfRange);
}

#[test]
fn silence_in_silence_out() {
    let mut e = engine(7.9948, [0.0, 2.5]);
    let mut n = 0;
    while n < 5000 {
        let out = e.process([Fixed::zero(), Fixed::zero()], fx(0.8), &gains());
        assert_eq!(out, [Fixed::zero(), Fixed::zero()]);
        n += 1;
    }
}

#[test]
fn output_stays_between_minus_one_and_one() {
    let mut e = engine(7.9948, [0.0, 2.5]);
    let mut seed = 7;
    let mut n = 0;
    while n < 50000 {
        let frame = [noise(&mut seed), noise(&mut seed)];
        let a = Fixed::from_raw(noise(&mut seed).raw.abs());
        let k = [
            Fixed::from_raw(noise(&mut seed).raw.abs()),
            Fixed::from_raw(noise(&mut seed).raw.abs()),
            Fixed::from_raw(noise(&mut seed).raw.abs()),
            Fixed::from_raw(noise(&mut seed).raw.abs()),
        ];
        let out = e.process(frame, a, &k);
        assert!(out[0].raw.abs() <= 1 << 32);
        assert!(out[1].raw.abs() <= 1 << 32);
        n += 1;
    }
}

#[test]
fn output_is_limited_for_samples_of_any_size() {
    let mut e = engine(7.9948, [0.0, 0.0]);
    let huge = Fixed::from_raw(i64::MAX);
    let mut n = 0;
    while n < 2000 {
        let frame = if n % 3 == 0 { [huge, huge.neg()] } else { [huge.neg(), huge] };
        let out = e.process(frame, huge, &[huge, huge, huge, huge]);
        assert!(out[0].raw.abs() <= 1 << 32);
        assert!(out[1].raw.abs() <= 1 << 32);
        n += 1;
    }
}

#[test]
fn an_impulse_dies_away() {
    let mut e = engine(7.9948, [0.0, 0.0]);
    let mut n = 0;
    let mut late: f64 = 0.0;
    while n < 4096 {
        let frame =
            if n == 0 { [Fixed::one(), Fixed::zero()] } else { [Fixed::zero(), Fixed::zero()] };
        let out = e.process(frame, Fixed::one(), &gains());
        if n >= 2048 {
            late = late.max(fl(out[0]).abs()).max(fl(out[1]).abs());
        }
        n += 1;
    }
    assert!(late < 1e-3, "{late}");
}

#[test]
fn a_constant_does_not_stay_in_the_cancellation_path() {
    // With and without cancellation the outputs for a constant input come to
    // agree: the high-pass has removed the constant from the cancellation
    // signal.
    let mut with = engine(7.9948, [0.0, 0.0]);
    let mut without = engine(7.9948, [0.0, 0.0]);
    let frame = [fx(0.5), fx(0.5)];
    let mut seen = [Fixed::zero(); 2];
    let mut plain = [Fixed::zero(); 2];
    let mut n = 0;
    while n < 100000 {
        seen = with.process(frame, Fixed::one(), &gains());
        plain = without.process(frame, Fixed::zero(), &gains());
        n += 1;
    }
    assert!((fl(seen[0]) - fl(plain[0])).abs() < 1e-3);
    assert!((fl(seen[1]) - fl(plain[1])).abs() < 1e-3);
}

#[test]
fn equal_channels_stay_equal() {
    let mut e = engine(7.9948, [0.0, 0.0]);
    let mut n = 0;
    while n < 20000 {
        let x = fx(0.7 * (2.0 * std::f64::consts::PI * 1000.0 * n as f64 / 48000.0).sin());
        let out = e.process([x, x], Fixed::one(), &gains());
        assert_eq!(out[0], out[1]);
        n += 1;
    }
}

#[test]
fn without_attenuation_only_the_direct_path_is_heard() {
    let fs = fx(48000.0);
    let main = fx(2.5);
    let mut e = CtcEngine::new(
        fs,
        [fx(7.9948), fx(7.9948)],
        [main, Fixed::zero()],
        [fx(1300.0), fx(1300.0)],
        fx(80.0),
        fx(250.0),
        fx(3.0),
    ).unwrap();
    // the direct path of the left channel, built from its parts
    let mut phase = PhaseNetwork::new(fs);
    let mut shelf = BiquadFilter::low_shelf(fs, fx(250.0), fx(3.0));
    let mut ring = FractionalDelay::new();
    let k = gains();
    let mut seed = 11;
    let mut n = 0;
    while n < 20000 {
        let frame = [noise(&mut seed), noise(&mut seed)];
        let out = e.process(frame, Fixed::zero(), &k);
        ring.store(shelf.process(phase.direct(frame[0]).mul(k[0])));
        let want = ring.read(main).clamp(Fixed::one().neg(), Fixed::one());
        ring.advance();
        assert_eq!(out[0], want, "sample {n}");
        n += 1;
    }
}

struct Section {
    c: [f64; 5],
    z: [f64; 2],
}

impl Section {
    fn of(f: &BiquadFilter) -> Section {
        let c = f.coefficients();
        Section { c: [fl(c[0]), fl(c[1]), fl(c[2]), fl(c[3]), fl(c[4])], z: [0.0, 0.0] }
    }

    fn step(&mut self, x: f64) -> f64 {
        let y = self.c[0] * x + self.z[0];
        self.z[0] = self.c[1] * x - self.c[3] * y + self.z[1];
        self.z[1] = self.c[2] * x - self.c[4] * y;
        y
    }
}

struct Side {
    direct: [(f64, f64, f64); 4],
    quadrature: [(f64, f64, f64); 4],
    main: [f64; 512],
    cross: [f64; 512],
    low_pass: Section,
    high_pass: Section,
    low_shelf: Section,
    main_delay: f64,
    ct_delay: f64,
}

fn chain(stages: &mut [(f64, f64, f64); 4], x: f64) -> f64 {
    let mut y = x;
    for s in stages.iter_mut() {
        let out = s.0 * y + s.1 - s.0 * s.2;
        s.1 = y;
        s.2 = out;
        y = out;
    }
    y
}

fn tap(ring: &[f64; 512], index: usize, delay: f64) -> f64 {
    let p = index as f64 - delay;
    let i = (p.floor() as i64).rem_euclid(512) as usize;
    let j = (i + 1) % 512;
    ring[i] + (p - p.floor()) * (ring[j] - ring[i])
}

impl Side {
    fn new(fs: f64, ct_delay: f64, main_delay: f64) -> Side {
        let (a, b) = crosstalk::phase::calc_allpass_coeffs(fx(fs));
        Side {
            direct: [0, 1, 2, 3].map(|k| (fl(a[k]), 0.0, 0.0)),
            quadrature: [0, 1, 2, 3].map(|k| (fl(b[k]), 0.0, 0.0)),
            main: [0.0; 512],
            cross: [0.0; 512],
            low_pass: Section::of(&BiquadFilter::low_pass(fx(fs), fx(1300.0))),
            high_pass: Section::of(&BiquadFilter::high_pass(fx(fs), fx(80.0))),
            low_shelf: Section::of(&BiquadFilter::low_shelf(fx(fs), fx(250.0), fx(3.0))),
            main_delay,
            ct_delay,
        }
    }
}

#[test]
fn the_canceller_follows_its_recurrences() {
    let fs = 48000.0;
    let mut e = engine(7.9948, [0.0, 2.5]);
    let mut left = Side::new(fs, fl(fx(7.9948)), 0.0);
    let mut right = Side::new(fs, fl(fx(7.9948)), 2.5);
    let k = gains();
    let kf = [fl(k[0]), fl(k[1]), fl(k[2]), fl(k[3])];
    let a = 0.8;
    let mut index = 0;
    let mut worst: f64 = 0.0;
    let mut n = 0;
    while n < 30000 {
        let l = 0.3 * (2.0 * std::f64::consts::PI * 440.0 * n as f64 / fs).sin();
        let r = 0.25 * (2.0 * std::f64::consts::PI * 1234.0 * n as f64 / fs).cos();
        let l_0 = chain(&mut left.direct, l);
        let r_0 = chain(&mut right.direct, r);
        let tap_l = tap(&left.cross, index, left.ct_delay);
        let tap_r = tap(&right.cross, index, right.ct_delay);
        let ct_l = left.low_pass.step(tap_l);
        let ct_r = right.low_pass.step(tap_r);
        let res_l = l_0 * kf[0] - ct_r * a * kf[2];
        let res_r = r_0 * kf[3] - ct_l * a * kf[1];
        left.main[index] = left.low_shelf.step(res_l);
        right.main[index] = right.low_shelf.step(res_r);
        let out_l = tap(&left.main, index, left.main_delay).clamp(-1.0, 1.0);
        let out_r = tap(&right.main, index, right.main_delay).clamp(-1.0, 1.0);
        let fb_l = chain(&mut left.quadrature, l);
        let fb_r = chain(&mut right.quadrature, r);
        left.cross[index] = left.high_pass.step(fb_l);
        right.cross[index] = right.high_pass.step(fb_r);
        index = (index + 1) % 512;

        let got = e.process([fx(l), fx(r)], fx(a), &k);
        worst = worst.max((fl(got[0]) - out_l).abs()).max((fl(got[1]) - out_r).abs());
        n += 1;
    }
    assert!(worst < 1e-5, "{worst}");
}

#[test]
fn the_first_frame_on_given_values() {
    // With whole delays the first output is the first sample through the
    // first coefficients: the four stages give the product of their
    // coefficients, the gain and the shelf follow.
    let fs = fx(48000.0);
    let mut e = engine(8.0, [0.0, 0.0]);
    let (a, _) = crosstalk::phase::calc_allpass_coeffs(fs);
    let b0 = BiquadFilter::low_shelf(fs, fx(250.0), fx(3.0)).coefficients()[0];
    let x = Fixed::from_raw(1 << 31);
    let k = gains();
    let direct = a[3].mul(a[2].mul(a[1].mul(a[0].mul(x))));
    let out = e.process([x, Fixed::zero()], Fixed::one(), &k);
    assert_eq!(out[0], b0.mul(direct.mul(k[0])));
    assert_eq!(out[1], Fixed::zero());
}

#[test]
fn the_main_delay_shifts_the_output() {
    let mut plain = engine(8.0, [0.0, 0.0]);
    let mut shifted = engine(8.0, [3.0, 0.0]);
    let k = gains();
    let mut history = Vec::new();
    let mut seed = 5;
    let mut n = 0;
    while n < 3000 {
        let frame = [noise(&mut seed), noise(&mut seed)];
        let a = plain.process(frame, fx(0.8), &k);
        let b = shifted.process(frame, fx(0.8), &k);
        history.push(a[0]);
        assert_eq!(a[1], b[1]);
        if n >= 3 {
            assert_eq!(b[0], history[n - 3]);
        } else {
            assert_eq!(b[0], Fixed::zero());
        }
        n += 1;
    }
}

#[test]
fn the_negated_signal_gives_the_negated_output() {
    let mut one = CtcEngine::new(
        fx(48000.0),
        [fx(7.9948), fx(3.25)],
        [fx(2.5), Fixed::zero()],
        [fx(1300.0), fx(900.0)],
        fx(80.0),
        fx(250.0),
        fx(3.0),
    ).unwrap();
    let mut other = CtcEngine::new(
        fx(48000.0),
        [fx(7.9948), fx(3.25)],
        [fx(2.5), Fixed::zero()],
        [fx(1300.0), fx(900.0)],
        fx(80.0),
        fx(250.0),
        fx(3.0),
    ).unwrap();
    let k = [fx(0.5), Fixed::one(), fx(0.9), fx(0.7)];
    let mut seed = 13;
    let mut n = 0;
    while n < 50000 {
        let frame = [noise(&mut seed), noise(&mut seed)];
        let a = one.process(frame, fx(0.8), &k);
        let b = other.process([frame[0].neg(), frame[1].neg()], fx(0.8), &k);
        assert_eq!(b, [a[0].neg(), a[1].neg()], "frame {n}");
        n += 1;
    }
}

#[test]
fn the_negated_first_sample_on_given_values() {
    let k = [fx(0.5), Fixed::one(), Fixed::one(), Fixed::one()];
    let mut one = engine(8.0, [0.0, 0.0]);
    let mut other = engine(8.0, [0.0, 0.0]);
    let a = one.process([Fixed::one(), Fixed::zero()], Fixed::zero(), &k);
    let b = other.process([Fixed::from_int(-1), Fixed::zero()], Fixed::zero(), &k);
    assert!(a[0].raw != 0);
    assert_eq!(b[0].raw, -a[0].raw);
}
