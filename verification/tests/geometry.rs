use crosstalk::fixed::Fixed;
use crosstalk::geometry::{
    calc_amp_factors, calc_delay_frames, calc_distance, calc_listener_position,
    calc_shadow_cutoff, calc_speed_of_sound, distance, pow_six_fifths, Geometry,
};
use crosstalk::roots::root5_floor;

const ONE: f64 = 4294967296.0;

fn fx(x: f64) -> Fixed {
    Fixed::from_raw((x * ONE).round() as i64)
}

fn fl(x: Fixed) -> f64 {
    x.raw as f64 / ONE
}

fn point(x: f64, y: f64) -> [Fixed; 2] {
    [fx(x), fx(y)]
}

fn listening_room() -> Geometry {
    Geometry {
        left_speaker: point(-0.3, 1.0),
        right_speaker: point(0.3, 1.0),
        left_ear: point(-0.1, 0.0),
        right_ear: point(0.1, 0.0),
    }
}

#[test]
fn distance_of_a_three_four_five_triangle() {
    assert_eq!(distance(&point(0.0, 0.0), &point(3.0, 4.0)), Fixed::from_int(5));
    assert_eq!(distance(&point(3.0, 4.0), &point(0.0, 0.0)), Fixed::from_int(5));
    assert_eq!(distance(&point(-1.0, -1.0), &point(2.0, 3.0)), Fixed::from_int(5));
    assert_eq!(distance(&point(1.5, 2.5), &point(1.5, 2.5)), Fixed::zero());
}

#[test]
fn distance_saturates() {
    let far = [Fixed::from_raw(i64::MAX), Fixed::from_raw(i64::MAX)];
    let near = [Fixed::from_raw(i64::MIN), Fixed::from_raw(i64::MIN)];
    assert_eq!(distance(&far, &near).raw, i64::MAX);
}

#[test]
fn path_lengths_of_the_listening_room() {
    let d = calc_distance(&listening_room());
    let direct = (0.04f64 + 1.0).sqrt();
    let crossing = (0.16f64 + 1.0).sqrt();
    assert!((fl(d[0]) - direct).abs() < 1e-9);
    assert!((fl(d[1]) - crossing).abs() < 1e-9);
    assert!((fl(d[2]) - crossing).abs() < 1e-9);
    assert!((fl(d[3]) - direct).abs() < 1e-9);
    assert!((fl(d[0]) - 1.0198).abs() < 1e-4);
    assert!((fl(d[1]) - 1.0770).abs() < 1e-4);
}

#[test]
fn speed_of_sound_at_room_temperature() {
    let c = fl(calc_speed_of_sound(fx(20.0)));
    let want = (1.403f64 * 8.314462 * 293.15 / 0.028966).sqrt();
    assert!((c - want).abs() < 1e-7, "{c} {want}");
    assert!((c - 343.2).abs() < 0.5);
}

#[test]
fn speed_of_sound_at_and_below_absolute_zero() {
    assert_eq!(calc_speed_of_sound(fx(-273.15)), Fixed::zero());
    assert_eq!(calc_speed_of_sound(fx(-300.0)), Fixed::zero());
}

#[test]
fn speed_of_sound_rises_with_temperature() {
    let mut last = calc_speed_of_sound(fx(-1.0));
    let mut t = 0;
    while t <= 40 {
        let c = calc_speed_of_sound(Fixed::from_int(t));
        assert!(c.raw > last.raw);
        last = c;
        t += 1;
    }
}

#[test]
fn delays_of_the_listening_room() {
    let fs = fx(48000.0);
    let d = calc_distance(&listening_room());
    let c = calc_speed_of_sound(fx(20.0));
    let delays = calc_delay_frames(fs, d, c);
    // the room is symmetric: no channel waits for the other
    assert_eq!(delays[0], [Fixed::zero(), Fixed::zero()]);
    let want = ((0.16f64 + 1.0).sqrt() - (0.04f64 + 1.0).sqrt()) * 48000.0 / fl(c);
    assert!((fl(delays[1][0]) - want).abs() < 1e-6, "{}", fl(delays[1][0]));
    assert!((fl(delays[1][1]) - want).abs() < 1e-6);
    assert!((fl(delays[1][0]) - 8.0).abs() < 0.01);
    assert_eq!(delays[1][0], delays[1][1]);
}

#[test]
fn delays_on_given_frames() {
    // With the sample rate equal to the speed of sound a metre is a frame.
    let one = Fixed::from_int(1);
    let d = [Fixed::from_int(5), Fixed::from_int(9), Fixed::from_int(6), Fixed::from_int(3)];
    let delays = calc_delay_frames(Fixed::from_int(300), d, Fixed::from_int(300));
    // the left direct path is two frames longer: the right channel waits
    assert_eq!(delays[0], [Fixed::zero(), Fixed::from_int(2)]);
    // crossing minus direct: 6 - 5 at the left ear, 9 - 3 at the right ear
    assert_eq!(delays[1], [one, Fixed::from_int(6)]);
    let d = [Fixed::from_int(3), Fixed::from_int(4), Fixed::from_int(1), Fixed::from_int(5)];
    let delays = calc_delay_frames(Fixed::from_int(300), d, Fixed::from_int(300));
    assert_eq!(delays[0], [Fixed::from_int(2), Fixed::zero()]);
    // |1 - 3| at the left ear, |4 - 5| at the right ear
    assert_eq!(delays[1], [Fixed::from_int(2), one]);
}

#[test]
fn crosstalk_delay_is_at_least_one_frame() {
    let d = [Fixed::from_int(2), Fixed::from_int(2), Fixed::from_int(2), Fixed::from_int(2)];
    let delays = calc_delay_frames(Fixed::from_int(48000), d, Fixed::from_int(343));
    assert_eq!(delays[0], [Fixed::zero(), Fixed::zero()]);
    assert_eq!(delays[1], [Fixed::one(), Fixed::one()]);
}

#[test]
fn crosstalk_delay_falls_as_the_air_warms() {
    let fs = fx(48000.0);
    let d = calc_distance(&listening_room());
    let mut last = i64::MAX;
    let mut t = 0;
    while t <= 40 {
        let delays = calc_delay_frames(fs, d, calc_speed_of_sound(Fixed::from_int(t)));
        assert!(delays[1][0].raw < last, "{t}");
        assert_eq!(delays[1][0], delays[1][1]);
        last = delays[1][0].raw;
        t += 1;
    }
}

#[test]
fn whole_fifth_roots() {
    assert_eq!(root5_floor(0), 0);
    assert_eq!(root5_floor(1), 1);
    assert_eq!(root5_floor(31), 1);
    assert_eq!(root5_floor(32), 2);
    assert_eq!(root5_floor(242), 2);
    assert_eq!(root5_floor(243), 3);
    assert_eq!(root5_floor(100_000), 10);
    assert_eq!(root5_floor(1 << 125), 1 << 25);
    assert_eq!(root5_floor((1 << 125) - 1), (1 << 25) - 1);
    assert_eq!(root5_floor(u128::MAX), 50_859_008);
}

#[test]
fn power_of_six_fifths() {
    assert_eq!(pow_six_fifths(Fixed::one()), Fixed::one());
    assert_eq!(pow_six_fifths(Fixed::zero()), Fixed::zero());
    // 1/32 has the fifth root 1/2: (1/32)^1.2 = 1/64
    assert_eq!(pow_six_fifths(Fixed::from_raw(1 << 27)).raw, 1 << 26);
    // outside the interval from 0 to 1 the nearer end counts
    assert_eq!(pow_six_fifths(Fixed::from_int(3)), Fixed::one());
    assert_eq!(pow_six_fifths(Fixed::from_int(-3)), Fixed::zero());
    let mut k = 1;
    while k <= 1000 {
        let x = k as f64 / 1000.0;
        let got = fl(pow_six_fifths(fx(x)));
        assert!((got - x.powf(1.2)).abs() < 1e-7, "{x}: {got}");
        k += 1;
    }
}

#[test]
fn gains_of_the_listening_room() {
    let d = calc_distance(&listening_room());
    let g = calc_amp_factors(d);
    let want = ((0.04f64 + 1.0).sqrt() / (0.16f64 + 1.0).sqrt()).powf(1.2);
    assert_eq!(g[0], Fixed::one());
    assert_eq!(g[3], Fixed::one());
    assert!((fl(g[1]) - want).abs() < 1e-7);
    assert!((fl(g[2]) - want).abs() < 1e-7);
}

#[test]
fn the_shortest_path_has_the_gain_one() {
    let d = [fx(2.5), fx(1.25), fx(4.0), fx(1.7)];
    let g = calc_amp_factors(d);
    assert_eq!(g[1], Fixed::one());
    assert!((fl(g[0]) - 0.5f64.powf(1.2)).abs() < 1e-7);
    assert!((fl(g[2]) - (1.25f64 / 4.0).powf(1.2)).abs() < 1e-7);
    assert!((fl(g[3]) - (1.25f64 / 1.7).powf(1.2)).abs() < 1e-7);
}

#[test]
fn listener_position_is_the_sum_of_the_ears() {
    let g = Geometry {
        left_speaker: point(-0.3, 1.0),
        right_speaker: point(0.3, 1.0),
        left_ear: point(-0.125, 0.5),
        right_ear: point(0.25, 0.75),
    };
    assert_eq!(calc_listener_position(&g), point(0.125, 1.25));
}

#[test]
fn shadow_cutoff_ahead_and_aside() {
    let min = fx(800.0);
    // the loudspeaker on the x axis: the full 5000 Hz
    assert_eq!(calc_shadow_cutoff(point(0.0, 0.0), point(2.0, 0.0), min), fx(5000.0));
    assert_eq!(calc_shadow_cutoff(point(0.0, 0.0), point(-2.0, 0.0), min), fx(5000.0));
    // the loudspeaker on the y axis: the least cutoff
    assert_eq!(calc_shadow_cutoff(point(0.0, 0.0), point(0.0, 1.5), min), min);
    assert_eq!(calc_shadow_cutoff(point(0.0, 0.0), point(0.0, -1.5), min), min);
    // on the diagonal: halfway
    assert_eq!(calc_shadow_cutoff(point(0.0, 0.0), point(1.0, 1.0), min), fx(2900.0));
    // both points in one place count as the x axis
    assert_eq!(calc_shadow_cutoff(point(1.0, 1.0), point(1.0, 1.0), min), fx(5000.0));
}

#[test]
fn shadow_cutoff_of_the_listening_room() {
    let room = listening_room();
    let listener = calc_listener_position(&room);
    let min = 1000.0;
    let left = calc_shadow_cutoff(listener, room.left_speaker, fx(min));
    let right = calc_shadow_cutoff(listener, room.right_speaker, fx(min));
    let theta = (0.0f64 - 1.0).atan2(0.0 - -0.3).abs();
    let want = min + (5000.0 - min) * theta.cos().powi(2);
    assert!((fl(left) - want).abs() < 1e-5, "{} {want}", fl(left));
    assert!((fl(right) - want).abs() < 1e-5);
}

#[test]
fn every_gain_lies_above_zero() {
    // the shortest path is one unit long, the others a metre
    let d = [Fixed::from_raw(1), Fixed::one(), Fixed::one(), Fixed::one()];
    let g = calc_amp_factors(d);
    assert_eq!(g[0], Fixed::one());
    assert_eq!(g[1], Fixed::from_raw(1));
    assert_eq!(g[2], Fixed::from_raw(1));
    assert_eq!(g[3], Fixed::from_raw(1));
    // the others are as long as a number can say
    let d = [Fixed::one(), Fixed::from_raw(i64::MAX), fx(2.0), fx(1.0e6)];
    let g = calc_amp_factors(d);
    assert_eq!(g[0], Fixed::one());
    assert_eq!(g[1], Fixed::from_raw(1));
    assert!(g[2].raw > 0 && g[2].raw < 1 << 32);
    assert!(g[3].raw > 0 && g[3].raw < 1 << 32);
    assert_eq!(pow_six_fifths(Fixed::from_raw(1)), Fixed::from_raw(1));
    assert_eq!(pow_six_fifths(Fixed::zero()), Fixed::zero());
}

#[test]
fn shadow_cutoff_of_a_mirrored_loudspeaker() {
    let min = fx(800.0);
    let origin = point(0.0, 0.0);
    for (x, y) in [(1.0, 3.0), (0.3, 1.0), (2.5, 0.1), (0.001, 7.0), (123.0, 45.0)] {
        let here = calc_shadow_cutoff(origin, point(x, y), min);
        assert_eq!(calc_shadow_cutoff(origin, point(-x, y), min), here);
        assert_eq!(calc_shadow_cutoff(origin, point(x, -y), min), here);
        assert_eq!(calc_shadow_cutoff(origin, point(-x, -y), min), here);
    }
}
