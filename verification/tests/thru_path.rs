use crosstalk::ctc_engine::{ConfigError, CtcEngine};
use crosstalk::fixed::Fixed;
use crosstalk::geometry::{
    calc_amp_factors, calc_delay_frames, calc_distance, calc_listener_position,
    calc_shadow_cutoff, calc_speed_of_sound, Geometry,
};
use crosstalk::thru::{ring_capacity, Thru, Tuning};

const ONE: f64 = 4294967296.0;

fn fx(x: f64) -> Fixed {
    Fixed::from_raw((x * ONE).round() as i64)
}

fn point(x: f64, y: f64) -> [Fixed; 2] {
    [fx(x), fx(y)]
}

fn listening_room() -> Geometry {
    Geometry {
        left_speaker: point(-0.3, 1.0),
        right_speaker: point(0.3, 1.0),
        left_ear: point(-0.1, 0.0),
        right_ear: point(0.1, 0.0),
    }
}

fn tuning() -> Tuning {
    Tuning {
        master_gain: fx(0.5),
        attenuation: fx(0.8),
        lowpass_cutoff_min: fx(1000.0),
        highpass_cutoff: fx(80.0),
        lowshelf_cutoff: fx(250.0),
        lowshelf_gain: fx(3.0),
        wet_dry: fx(0.75),
        temperature: fx(20.0),
    }
}

fn noise(seed: &mut u64) -> Fixed {
    *seed = seed.wrapping_mul(6364136223846793005).wrapping_add(1442695040888963407);
    Fixed::from_raw(((*seed >> 31) as i64) - (1 << 32))
}

#[test]
fn ring_size_for_a_latency() {
    assert_eq!(ring_capacity(100, 48000, 2), Some(9600));
    assert_eq!(ring_capacity(1, 44100, 2), Some(88));
    assert_eq!(ring_capacity(1, 999, 2), Some(0));
    assert_eq!(ring_capacity(0, 48000, 2), Some(0));
    assert_eq!(ring_capacity(10, 8000, 6), Some(480));
    assert_eq!(ring_capacity(usize::MAX, 192000, 2), None);
    assert_eq!(ring_capacity(usize::MAX, 1000, 1), Some(usize::MAX));
    assert_eq!(ring_capacity(usize::MAX, 1000, 2), None);
}

#[test]
fn the_path_is_gain_canceller_and_mix() {
    let fs = fx(48000.0);
    let room = listening_room();
    let t = tuning();
    let mut thru = Thru::new(fs, &room, &t).unwrap();

    let distances = calc_distance(&room);
    let gains = calc_amp_factors(distances);
    let delays = calc_delay_frames(fs, distances, calc_speed_of_sound(t.temperature));
    let listener = calc_listener_position(&room);
    let cutoffs = [
        calc_shadow_cutoff(listener, room.left_speaker, t.lowpass_cutoff_min),
        calc_shadow_cutoff(listener, room.right_speaker, t.lowpass_cutoff_min),
    ];
    let mut engine = CtcEngine::new(
        fs,
        delays[1],
        delays[0],
        cutoffs,
        t.highpass_cutoff,
        t.lowshelf_cutoff,
        t.lowshelf_gain,
    ).unwrap();

    let mut seed = 3;
    let mut n = 0;
    while n < 5000 {
        let frame = [noise(&mut seed), noise(&mut seed)];
        let l = frame[0].mul(t.master_gain);
        let r = frame[1].mul(t.master_gain);
        let wet = engine.process([l, r], t.attenuation, &gains);
        let dry_share = Fixed::one().sub(t.wet_dry);
        let want = [
            wet[0].mul(t.wet_dry).add(l.mul(dry_share)),
            wet[1].mul(t.wet_dry).add(r.mul(dry_share)),
        ];
        assert_eq!(thru.process(frame), want);
        n += 1;
    }
}

#[test]
fn all_dry_is_the_input_with_the_master_gain() {
    let mut t = tuning();
    t.wet_dry = Fixed::zero();
    let mut thru = Thru::new(fx(48000.0), &listening_room(), &t).unwrap();
    let mut seed = 9;
    let mut n = 0;
    while n < 2000 {
        let frame = [noise(&mut seed), noise(&mut seed)];
        let want = [frame[0].mul(t.master_gain), frame[1].mul(t.master_gain)];
        assert_eq!(thru.process(frame), want);
        n += 1;
    }
}

#[test]
fn a_mix_on_given_values() {
    // gain 1, half wet: the first output is half the canceller's first
    // output plus half the input
    let mut t = tuning();
    t.master_gain = Fixed::one();
    t.wet_dry = Fixed::from_raw(1 << 31);
    let room = listening_room();
    let mut thru = Thru::new(fx(48000.0), &room, &t).unwrap();
    let mut wet_only = {
        let mut t = t;
        t.wet_dry = Fixed::one();
        Thru::new(fx(48000.0), &room, &t).unwrap()
    };
    let frame = [Fixed::from_raw(1 << 30), Fixed::from_raw(-(1 << 29))];
    let wet = wet_only.process(frame);
    let out = thru.process(frame);
    let half = Fixed::from_raw(1 << 31);
    assert_eq!(out[0], wet[0].mul(half).add(frame[0].mul(half)));
    assert_eq!(out[1], wet[1].mul(half).add(frame[1].mul(half)));
}

#[test]
fn a_room_too_lopsided_for_the_ring_is_refused() {
    // the left loudspeaker is 10 m further away than the right one: at
    // 48 kHz that is some 1400 frames
    let room = Geometry {
        left_speaker: point(-10.3, 1.0),
        right_speaker: point(0.3, 1.0),
        left_ear: point(-0.1, 0.0),
        right_ear: point(0.1, 0.0),
    };
    match Thru::new(fx(48000.0), &room, &tuning()) {
        Ok(_) => panic!("accepted"),
        Err(e) => assert_eq!(e, ConfigError::DelayOutOfRange),
    }
}

#[test]
fn a_cutoff_at_half_the_sample_rate_is_refused() {
    let mut t = tuning();
    t.highpass_cutoff = fx(24000.0);
    match Thru::new(fx(48000.0), &listening_room(), &t) {
        Ok(_) => panic!("accepted"),
        Err(e) => assert_eq!(e, ConfigError::CutoffOutOfRange),
    }
    let mut t = tuning();
    t.lowpass_cutoff_min = fx(0.0);
    // the shadow cutoff of a loudspeaker straight to the side would be zero
    let room = Geometry {
        left_speaker: point(0.0, 1.0),
        right_speaker: point(0.3, 1.0),
        left_ear: point(-0.1, 0.0),
        right_ear: point(0.1, 0.0),
    };
    match Thru::new(fx(48000.0), &room, &t) {
        Ok(_) => panic!("accepted"),
        Err(e) => assert_eq!(e, ConfigError::CutoffOutOfRange),
    }
}

#[test]
fn silence_stays_silence() {
    let mut thru = Thru::new(fx(48000.0), &listening_room(), &tuning()).unwrap();
    let mut n = 0;
    while n < 3000 {
        assert_eq!(thru.process([Fixed::zero(), Fixed::zero()]), [Fixed::zero(), Fixed::zero()]);
        n += 1;
    }
}
