use crosstalk::delay::{FractionalDelay, RING_LEN};
use crosstalk::fixed::Fixed;

fn half() -> Fixed {
    Fixed::from_raw(1 << 31)
}

#[test]
fn ring_has_512_slots() {
    assert_eq!(RING_LEN, 512);
}

#[test]
fn a_new_delay_line_is_silent() {
    let d = FractionalDelay::new();
    let mut k = 0;
    while k < 512 {
        assert_eq!(d.read(Fixed::from_int(k)), Fixed::zero());
        assert_eq!(d.read(Fixed::from_int(k).add(half())), Fixed::zero());
        k += 1;
    }
}

#[test]
fn an_impulse_comes_back_after_a_whole_delay() {
    let delay = 7;
    let mut d = FractionalDelay::new();
    let mut n = 0;
    while n < 40 {
        // read first, then write
        let got = d.read(Fixed::from_int(delay));
        let want = if n == delay { Fixed::one() } else { Fixed::zero() };
        assert_eq!(got, want, "sample {n}");
        d.write(if n == 0 { Fixed::one() } else { Fixed::zero() });
        n += 1;
    }
}

#[test]
fn an_impulse_is_spread_over_two_samples_by_a_fractional_delay() {
    // delay 7.25: three quarters at sample 7 and one quarter at sample 8
    let delay = Fixed::from_int(7).add(Fixed::from_raw(1 << 30));
    let mut d = FractionalDelay::new();
    let mut n = 0;
    while n < 40 {
        let got = d.read(delay);
        let want = if n == 7 {
            Fixed::from_raw(3 << 30)
        } else if n == 8 {
            Fixed::from_raw(1 << 30)
        } else {
            Fixed::zero()
        };
        assert_eq!(got, want, "sample {n}");
        d.write(if n == 0 { Fixed::one() } else { Fixed::zero() });
        n += 1;
    }
}

#[test]
fn every_whole_delay_returns_what_was_written_that_long_ago() {
    let mut d = FractionalDelay::new();
    let mut n: i32 = 0;
    while n < 2000 {
        d.write(Fixed::from_int(n));
        n += 1;
    }
    // the last write was 1999
    let mut k = 1;
    while k <= 512 {
        assert_eq!(d.read(Fixed::from_int(k)), Fixed::from_int(2000 - k));
        k += 1;
    }
    // a delay of zero meets the oldest sample
    assert_eq!(d.read(Fixed::zero()), Fixed::from_int(2000 - 512));
}

#[test]
fn reading_between_two_samples_interpolates() {
    let mut d = FractionalDelay::new();
    d.write(Fixed::from_int(10));
    d.write(Fixed::from_int(20));
    // one and a half frames back: halfway between 20 and 10
    assert_eq!(d.read(Fixed::from_int(1).add(half())), Fixed::from_int(15));
    // one and a quarter frames back: a quarter of the way from 20 to 10
    let quarter = Fixed::from_raw(1 << 30);
    assert_eq!(d.read(Fixed::from_int(1).add(quarter)).raw, (35 << 32) / 2);
}

#[test]
fn storing_does_not_move_the_write_index() {
    let mut d = FractionalDelay::new();
    d.store(Fixed::from_int(3));
    // the slot at the write index is read at delay 0
    assert_eq!(d.read(Fixed::zero()), Fixed::from_int(3));
    d.store(Fixed::from_int(4));
    assert_eq!(d.read(Fixed::zero()), Fixed::from_int(4));
    d.advance();
    assert_eq!(d.read(Fixed::from_int(1)), Fixed::from_int(4));
    assert_eq!(d.read(Fixed::zero()), Fixed::zero());
}

#[test]
fn the_write_index_wraps_around() {
    let mut d = FractionalDelay::new();
    let mut n: i32 = 0;
    while n < 512 {
        d.write(Fixed::from_int(n + 1));
        n += 1;
    }
    // back at the first slot, which holds the first sample
    assert_eq!(d.read(Fixed::zero()), Fixed::from_int(1));
    assert_eq!(d.read(Fixed::from_int(1)), Fixed::from_int(512));
    d.write(Fixed::from_int(513));
    assert_eq!(d.read(Fixed::from_int(1)), Fixed::from_int(513));
    assert_eq!(d.read(Fixed::zero()), Fixed::from_int(2));
}

#[test]
fn reading_is_defined_for_every_delay() {
    let mut d = FractionalDelay::new();
    d.write(Fixed::from_int(5));
    // a delay of one ring length more meets the same slot
    assert_eq!(d.read(Fixed::from_int(513)), Fixed::from_int(5));
    // a delay below zero looks ahead of the write index
    assert_eq!(d.read(Fixed::from_int(-511)), Fixed::from_int(5));
    assert_eq!(d.read(Fixed::from_raw(i64::MAX)).raw.abs() <= 5 << 32, true);
    assert_eq!(d.read(Fixed::from_raw(i64::MIN)).raw.abs() <= 5 << 32, true);
}
