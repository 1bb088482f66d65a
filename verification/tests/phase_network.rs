use crosstalk::filter::{PrimaryFilter, Processable};
use crosstalk::fixed::Fixed;
use crosstalk::phase::{
    calc_allpass_coeff, calc_allpass_coeffs, PhaseNetwork, DIRECT_POLE_0, DIRECT_POLE_1,
    DIRECT_POLE_2, DIRECT_POLE_3, QUADRATURE_POLE_0, QUADRATURE_POLE_1, QUADRATURE_POLE_2,
    QUADRATURE_POLE_3,
};

const ONE: f64 = 4294967296.0;

fn fx(x: f64) -> Fixed {
    Fixed::from_raw((x * ONE).round() as i64)
}

fn fl(x: Fixed) -> f64 {
    x.raw as f64 / ONE
}

fn expected(sample_rate: f64, pole: f64) -> f64 {
    let omega = 2.0 * std::f64::consts::PI * pole * 150.0 / sample_rate;
    (1.0 - omega) / (1.0 + omega)
}

#[test]
fn poles_are_the_published_ones() {
    let direct = [DIRECT_POLE_0, DIRECT_POLE_1, DIRECT_POLE_2, DIRECT_POLE_3];
    let quadrature = [QUADRATURE_POLE_0, QUADRATURE_POLE_1, QUADRATURE_POLE_2, QUADRATURE_POLE_3];
    let want_direct = [1.252477174013740, 5.567151121010343, 22.33405370220630, 121.1823101311035];
    let want_quadrature =
        [0.470942544153024, 2.511195608677685, 9.736028549641775, 52.32115162453549];
    let mut k = 0;
    while k < 4 {
        // equal to the last place that a double holds
        assert!((direct[k] as f64 / 1e15 - want_direct[k]).abs() <= want_direct[k] * 4e-16);
        assert!(
            (quadrature[k] as f64 / 1e15 - want_quadrature[k]).abs() <= want_quadrature[k] * 4e-16
        );
        k += 1;
    }
}

#[test]
fn coefficients_follow_the_poles() {
    let direct = [1.252477174013740, 5.567151121010343, 22.33405370220630, 121.1823101311035];
    let quadrature = [0.470942544153024, 2.511195608677685, 9.736028549641775, 52.32115162453549];
    for fs in [8000.0, 44100.0, 48000.0, 96000.0, 192000.0] {
        let (a, b) = calc_allpass_coeffs(fx(fs));
        let mut k = 0;
        while k < 4 {
            assert!((fl(a[k]) - expected(fs, direct[k])).abs() < 1e-9, "{fs} a{k}");
            assert!((fl(b[k]) - expected(fs, quadrature[k])).abs() < 1e-9, "{fs} b{k}");
            k += 1;
        }
    }
}

#[test]
fn one_coefficient_on_given_values() {
    // At a sample rate equal to 2π·150 times the pole the coefficient is 0.
    let rate = Fixed::from_raw(4_047_911_311_357);
    assert_eq!(calc_allpass_coeff(rate, 1_000_000_000_000_000), Fixed::zero());
    // At three times that rate it is (3 - 1) / (3 + 1).
    let rate = Fixed::from_raw(3 * 4_047_911_311_357);
    assert_eq!(calc_allpass_coeff(rate, 1_000_000_000_000_000).raw, 1 << 31);
}

#[test]
fn chains_are_cascades_of_their_stages() {
    let fs = fx(48000.0);
    let (a, b) = calc_allpass_coeffs(fs);
    let mut network = PhaseNetwork::new(fs);
    let mut stages_a = a.map(PrimaryFilter::all_pass);
    let mut stages_b = b.map(PrimaryFilter::all_pass);
    let mut n = 0;
    while n < 300 {
        let x = fx(((n * 29 % 83) as f64 - 41.0) / 41.0);
        let mut ya = x;
        let mut yb = x;
        let mut k = 0;
        while k < 4 {
            ya = stages_a[k].process(ya);
            yb = stages_b[k].process(yb);
            k += 1;
        }
        assert_eq!(network.direct(x), ya);
        assert_eq!(network.quadrature(x), yb);
        n += 1;
    }
}

fn cascade(alphas: &[f64; 4], state: &mut [(f64, f64); 4], x: f64) -> f64 {
    let mut y = x;
    let mut k = 0;
    while k < 4 {
        let out = alphas[k] * y + state[k].0 - alphas[k] * state[k].1;
        state[k] = (y, out);
        y = out;
        k += 1;
    }
    y
}

#[test]
fn chains_follow_their_recurrences() {
    let fs = 48000.0;
    let direct = [1.252477174013740, 5.567151121010343, 22.33405370220630, 121.1823101311035];
    let quadrature = [0.470942544153024, 2.511195608677685, 9.736028549641775, 52.32115162453549];
    let alphas_a = direct.map(|p| expected(fs, p));
    let alphas_b = quadrature.map(|p| expected(fs, p));
    let mut state_a = [(0.0, 0.0); 4];
    let mut state_b = [(0.0, 0.0); 4];
    let mut network = PhaseNetwork::new(fx(fs));
    let mut n = 0;
    while n < 5000 {
        let x = (2.0 * std::f64::consts::PI * 997.0 * n as f64 / fs).sin();
        let want_a = cascade(&alphas_a, &mut state_a, x);
        let want_b = cascade(&alphas_b, &mut state_b, x);
        let got_a = fl(network.direct(fx(x)));
        let got_b = fl(network.quadrature(fx(x)));
        assert!((got_a - want_a).abs() < 1e-6, "{n}: {got_a} {want_a}");
        assert!((got_b - want_b).abs() < 1e-6, "{n}: {got_b} {want_b}");
        n += 1;
    }
}
