use crosstalk::control::{read_point, read_single, SingleGeometry, SingleTuning};
use crosstalk::ctc_engine::ConfigError;
use crosstalk::fixed::Fixed;
use crosstalk::thru::Thru;

fn room() -> SingleGeometry {
    SingleGeometry {
        left_speaker: [(-0.3f32).to_bits(), 1.0f32.to_bits()],
        right_speaker: [0.3f32.to_bits(), 1.0f32.to_bits()],
        left_ear: [(-0.1f32).to_bits(), 0.0f32.to_bits()],
        right_ear: [0.1f32.to_bits(), 0.0f32.to_bits()],
    }
}

fn tuning() -> SingleTuning {
    SingleTuning {
        master_gain: 0.5f32.to_bits(),
        attenuation: 0.8f32.to_bits(),
        lowpass_cutoff_min: 1000.0f32.to_bits(),
        highpass_cutoff: 80.0f32.to_bits(),
        lowshelf_cutoff: 250.0f32.to_bits(),
        lowshelf_gain: 3.0f32.to_bits(),
        wet_dry: 0.75f32.to_bits(),
        temperature: 20.0f32.to_bits(),
    }
}

fn refused(made: Result<Thru, ConfigError>) -> ConfigError {
    match made {
        Ok(_) => panic!("accepted"),
        Err(e) => e,
    }
}

#[test]
fn whole_numbers() {
    assert_eq!(Fixed::from_whole(0), Fixed::zero());
    assert_eq!(Fixed::from_whole(48000), Fixed::from_int(48000));
    assert_eq!(Fixed::from_whole(0x7fff_ffff).raw, 0x7fff_ffff_0000_0000);
    assert_eq!(Fixed::from_whole(0x8000_0000).raw, i64::MAX);
    assert_eq!(Fixed::from_whole(u32::MAX).raw, i64::MAX);
}

#[test]
fn a_setting_is_read_or_refused() {
    assert_eq!(read_single(0.25f32.to_bits()), Ok(Fixed::from_raw(1 << 30)));
    assert_eq!(read_single(f32::NAN.to_bits()), Err(ConfigError::NotFinite));
    assert_eq!(read_single(f32::INFINITY.to_bits()), Err(ConfigError::NotFinite));
    assert_eq!(
        read_point(&[1.5f32.to_bits(), (-2.0f32).to_bits()]),
        Ok([Fixed::from_raw(3 << 31), Fixed::from_int(-2)])
    );
    assert_eq!(
        read_point(&[1.5f32.to_bits(), f32::NAN.to_bits()]),
        Err(ConfigError::NotFinite)
    );
    assert_eq!(
        read_point(&[f32::NEG_INFINITY.to_bits(), 1.0f32.to_bits()]),
        Err(ConfigError::NotFinite)
    );
}

#[test]
fn a_geometry_is_read() {
    let g = room().read().unwrap();
    assert_eq!(g.left_speaker[0], Fixed::from_single_bits((-0.3f32).to_bits()).unwrap());
    assert_eq!(g.left_speaker[1], Fixed::one());
    assert_eq!(g.right_speaker[0], Fixed::from_single_bits(0.3f32.to_bits()).unwrap());
    assert_eq!(g.right_speaker[1], Fixed::one());
    assert_eq!(g.left_ear[0], Fixed::from_single_bits((-0.1f32).to_bits()).unwrap());
    assert_eq!(g.left_ear[1], Fixed::zero());
    assert_eq!(g.right_ear[0], Fixed::from_single_bits(0.1f32.to_bits()).unwrap());
    assert_eq!(g.right_ear[1], Fixed::zero());
}

#[test]
fn a_tuning_is_read() {
    let t = tuning().read().unwrap();
    assert_eq!(t.master_gain, Fixed::from_raw(1 << 31));
    assert_eq!(t.attenuation, Fixed::from_single_bits(0.8f32.to_bits()).unwrap());
    assert_eq!(t.lowpass_cutoff_min, Fixed::from_int(1000));
    assert_eq!(t.highpass_cutoff, Fixed::from_int(80));
    assert_eq!(t.lowshelf_cutoff, Fixed::from_int(250));
    assert_eq!(t.lowshelf_gain, Fixed::from_int(3));
    assert_eq!(t.wet_dry, Fixed::from_raw(3 << 30));
    assert_eq!(t.temperature, Fixed::from_int(20));
}

#[test]
fn a_place_that_is_no_number_is_refused() {
    for bad in [f32::NAN, f32::INFINITY, f32::NEG_INFINITY] {
        for place in 0..8 {
            let mut g = room();
            let point = match place / 2 {
                0 => &mut g.left_speaker,
                1 => &mut g.right_speaker,
                2 => &mut g.left_ear,
                _ => &mut g.right_ear,
            };
            point[place % 2] = bad.to_bits();
            assert!(g.read().is_err());
            assert_eq!(refused(Thru::from_singles(48000, &g, &tuning())), ConfigError::NotFinite);
        }
    }
}

#[test]
fn a_setting_that_is_no_number_is_refused() {
    for bad in [f32::NAN, f32::INFINITY, f32::NEG_INFINITY] {
        for place in 0..8 {
            let mut t = tuning();
            let field = match place {
                0 => &mut t.master_gain,
                1 => &mut t.attenuation,
                2 => &mut t.lowpass_cutoff_min,
                3 => &mut t.highpass_cutoff,
                4 => &mut t.lowshelf_cutoff,
                5 => &mut t.lowshelf_gain,
                6 => &mut t.wet_dry,
                _ => &mut t.temperature,
            };
            *field = bad.to_bits();
            assert!(t.read().is_err());
            assert_eq!(refused(Thru::from_singles(48000, &room(), &t)), ConfigError::NotFinite);
        }
    }
}

#[test]
fn what_is_no_number_is_reported_before_what_is_out_of_range() {
    let mut t = tuning();
    t.highpass_cutoff = 30000.0f32.to_bits();
    assert_eq!(refused(Thru::from_singles(48000, &room(), &t)), ConfigError::CutoffOutOfRange);
    t.wet_dry = f32::NAN.to_bits();
    assert_eq!(refused(Thru::from_singles(48000, &room(), &t)), ConfigError::NotFinite);
    let mut g = room();
    g.left_speaker[0] = (-10.3f32).to_bits();
    assert_eq!(refused(Thru::from_singles(48000, &g, &tuning())), ConfigError::DelayOutOfRange);
}

#[test]
fn singles_take_the_same_path_as_numbers() {
    let mut by_bits = Thru::from_singles(48000, &room(), &tuning()).unwrap();
    let mut by_numbers =
        Thru::new(Fixed::from_int(48000), &room().read().unwrap(), &tuning().read().unwrap())
            .unwrap();
    let mut n = 0;
    while n < 5000 {
        let l = (0.4 * (n as f32 * 0.05).sin()).to_bits();
        let r = (0.3 * (n as f32 * 0.031).cos()).to_bits();
        let out = by_bits.process_singles([l, r]);
        let want = by_numbers.process([
            Fixed::from_single_bits(l).unwrap(),
            Fixed::from_single_bits(r).unwrap(),
        ]);
        assert_eq!(out, [want[0].to_single_bits(), want[1].to_single_bits()]);
        assert!(f32::from_bits(out[0]).abs() <= 1.5);
        n += 1;
    }
}

#[test]
fn a_sample_that_is_no_number_counts_as_silence() {
    let mut with_gap = Thru::from_singles(48000, &room(), &tuning()).unwrap();
    let mut with_silence = Thru::from_singles(48000, &room(), &tuning()).unwrap();
    let mut n = 0;
    while n < 200 {
        let x = (0.4 * (n as f32 * 0.05).sin()).to_bits();
        let gap = n % 7 == 3;
        let a = with_gap.process_singles([if gap { f32::NAN.to_bits() } else { x }, x]);
        let b = with_silence.process_singles([if gap { 0 } else { x }, x]);
        assert_eq!(a, b);
        n += 1;
    }
}
