use crosstalk::fixed::Fixed;

const ONE: f64 = 4294967296.0;

fn expected_from(bits: u32) -> Option<i64> {
    let x = f32::from_bits(bits);
    if x.is_finite() {
        // exact in double precision; the cast saturates, and the range of
        // the library is the same on both sides of zero
        Some(((x as f64 * ONE).round() as i64).max(-i64::MAX))
    } else {
        None
    }
}

fn expected_to(raw: i64) -> u32 {
    // one rounding from the whole number to the single, then an exact
    // division by a power of two
    ((raw as f32) / (ONE as f32)).to_bits()
}

fn next(seed: &mut u64) -> u64 {
    *seed = seed.wrapping_mul(6364136223846793005).wrapping_add(1442695040888963407);
    *seed >> 16
}

#[test]
fn singles_on_given_values() {
    assert_eq!(Fixed::from_single_bits(0.0f32.to_bits()), Some(Fixed::zero()));
    assert_eq!(Fixed::from_single_bits((-0.0f32).to_bits()), Some(Fixed::zero()));
    assert_eq!(Fixed::from_single_bits(1.0f32.to_bits()), Some(Fixed::one()));
    assert_eq!(Fixed::from_single_bits((-1.0f32).to_bits()), Some(Fixed::from_int(-1)));
    assert_eq!(Fixed::from_single_bits(0.5f32.to_bits()), Some(Fixed::from_raw(1 << 31)));
    assert_eq!(Fixed::from_single_bits(48000.0f32.to_bits()), Some(Fixed::from_int(48000)));
    assert_eq!(Fixed::from_single_bits((-273.15f32).to_bits()).unwrap().raw, -1173170290688);
    // 2^-32 is one unit, 2^-33 rounds up to one unit, 2^-34 rounds to zero
    assert_eq!(Fixed::from_single_bits(0x2f80_0000), Some(Fixed::from_raw(1)));
    assert_eq!(Fixed::from_single_bits(0x2f00_0000), Some(Fixed::from_raw(1)));
    assert_eq!(Fixed::from_single_bits(0xaf00_0000), Some(Fixed::from_raw(-1)));
    assert_eq!(Fixed::from_single_bits(0x2e80_0000), Some(Fixed::zero()));
    // the smallest number above zero
    assert_eq!(Fixed::from_single_bits(1), Some(Fixed::zero()));
}

#[test]
fn singles_that_are_no_numbers() {
    assert_eq!(Fixed::from_single_bits(f32::INFINITY.to_bits()), None);
    assert_eq!(Fixed::from_single_bits(f32::NEG_INFINITY.to_bits()), None);
    assert_eq!(Fixed::from_single_bits(f32::NAN.to_bits()), None);
    assert_eq!(Fixed::from_single_bits(0x7f80_0001), None);
    assert_eq!(Fixed::from_single_bits(0xffff_ffff), None);
}

#[test]
fn singles_beyond_the_range_saturate() {
    assert_eq!(Fixed::from_single_bits(2147483648.0f32.to_bits()).unwrap().raw, i64::MAX);
    assert_eq!(Fixed::from_single_bits((-2147483648.0f32).to_bits()).unwrap().raw, -i64::MAX);
    assert_eq!(Fixed::from_single_bits(f32::MAX.to_bits()).unwrap().raw, i64::MAX);
    assert_eq!(Fixed::from_single_bits(f32::MIN.to_bits()).unwrap().raw, -i64::MAX);
    // the largest single below 2^31
    assert_eq!(
        Fixed::from_single_bits(2147483520.0f32.to_bits()).unwrap().raw,
        2147483520i64 << 32
    );
}

#[test]
fn singles_agree_with_the_machine() {
    let mut seed = 1;
    let mut n = 0;
    while n < 2_000_000 {
        let bits = next(&mut seed) as u32;
        assert_eq!(
            Fixed::from_single_bits(bits).map(|x| x.raw),
            expected_from(bits),
            "{bits:#x}"
        );
        n += 1;
    }
    // every exponent field with a few fractions
    let mut e: u32 = 0;
    while e < 256 {
        for fraction in [0u32, 1, 2, 0x3f_ffff, 0x40_0000, 0x40_0001, 0x7f_fffe, 0x7f_ffff] {
            for sign in [0u32, 0x8000_0000] {
                let bits = sign | (e << 23) | fraction;
                assert_eq!(
                    Fixed::from_single_bits(bits).map(|x| x.raw),
                    expected_from(bits),
                    "{bits:#x}"
                );
            }
        }
        e += 1;
    }
}

#[test]
fn to_singles_on_given_values() {
    assert_eq!(Fixed::zero().to_single_bits(), 0.0f32.to_bits());
    assert_eq!(Fixed::one().to_single_bits(), 1.0f32.to_bits());
    assert_eq!(Fixed::from_int(-1).to_single_bits(), (-1.0f32).to_bits());
    assert_eq!(Fixed::from_raw(1 << 31).to_single_bits(), 0.5f32.to_bits());
    assert_eq!(Fixed::from_raw(3 << 30).to_single_bits(), 0.75f32.to_bits());
    assert_eq!(Fixed::from_raw(1).to_single_bits(), 0x2f80_0000);
    assert_eq!(Fixed::from_raw(-1).to_single_bits(), 0xaf80_0000);
    assert_eq!(Fixed::from_raw(i64::MAX).to_single_bits(), 2147483648.0f32.to_bits());
    assert_eq!(Fixed::from_raw(i64::MIN).to_single_bits(), (-2147483648.0f32).to_bits());
    // 2^24 + 1 units lie halfway between two singles: to the even one
    assert_eq!(
        Fixed::from_raw((1 << 24) + 1).to_single_bits(),
        Fixed::from_raw(1 << 24).to_single_bits()
    );
    assert_eq!(
        Fixed::from_raw((1 << 24) + 3).to_single_bits(),
        Fixed::from_raw((1 << 24) + 4).to_single_bits()
    );
}

#[test]
fn to_singles_agree_with_the_machine() {
    let mut seed = 2;
    let mut n = 0;
    while n < 2_000_000 {
        let wide = next(&mut seed) as i64;
        // numbers of every size
        let raw = (wide << 16) >> (next(&mut seed) % 64);
        assert_eq!(Fixed::from_raw(raw).to_single_bits(), expected_to(raw), "{raw}");
        assert_eq!(Fixed::from_raw(-raw).to_single_bits(), expected_to(-raw), "{raw}");
        n += 1;
    }
    let mut k = 0;
    while k < 63 {
        for offset in [-2i64, -1, 0, 1, 2] {
            let raw = (1i64 << k) + offset;
            assert_eq!(Fixed::from_raw(raw).to_single_bits(), expected_to(raw), "{raw}");
            assert_eq!(Fixed::from_raw(-raw).to_single_bits(), expected_to(-raw), "{raw}");
        }
        k += 1;
    }
}

#[test]
fn a_single_that_is_a_whole_number_of_units_comes_back() {
    let mut seed = 3;
    let mut n = 0;
    while n < 500_000 {
        let bits = next(&mut seed) as u32;
        let exponent = (bits >> 23) & 0xff;
        // from 2^-9 up to below 2^31 every single is a whole number of units
        if exponent >= 118 && exponent < 158 {
            let x = Fixed::from_single_bits(bits).unwrap();
            assert_eq!(x.to_single_bits(), bits, "{bits:#x}");
        }
        n += 1;
    }
}

#[test]
fn a_number_of_at_most_24_bits_comes_back() {
    let mut seed = 4;
    let mut n = 0;
    while n < 500_000 {
        let short = (next(&mut seed) % (1 << 24)) as i64;
        let raw = short << (next(&mut seed) % 39);
        let x = Fixed::from_raw(raw);
        assert_eq!(Fixed::from_single_bits(x.to_single_bits()), Some(x), "{raw}");
        let x = Fixed::from_raw(-raw);
        assert_eq!(Fixed::from_single_bits(x.to_single_bits()), Some(x), "{raw}");
        n += 1;
    }
}
