//! Numbers as they cross the boundary of the library: the bits of
//! single-precision binary numbers, one sign bit, eight exponent bits and
//! twenty-three fraction bits.

use crate::fixed::{proper, saturated, Fixed};
use vstd::arithmetic::power2::{
    lemma2_to64, lemma2_to64_rest, lemma_pow2_adds, lemma_pow2_pos, lemma_pow2_strictly_increases,
    pow2,
};
use vstd::prelude::*;

verus! {

/// The exponent field of a single: from 0 to 255.
pub open spec fn single_exponent(bits: u32) -> int {
    (bits as int / 0x80_0000) % 0x100
}

/// The fraction field of a single: from 0 to 2^23 - 1.
pub open spec fn single_fraction(bits: u32) -> int {
    bits as int % 0x80_0000
}

/// Whether the sign bit of a single is set.
pub open spec fn single_negative(bits: u32) -> bool {
    bits >= 0x8000_0000
}

/// Whether a single is a number and not infinite: its exponent field is
/// not 255.
pub open spec fn single_finite(bits: u32) -> bool {
    single_exponent(bits) != 0xff
}

/// The magnitude of a finite single in units of 2^-149, of which it is a
/// whole number: the fraction for the exponent field 0, and else the
/// fraction with the hidden bit, times two to the exponent field less one.
pub open spec fn single_units(bits: u32) -> int {
    if single_exponent(bits) == 0 {
        single_fraction(bits)
    } else {
        (single_fraction(bits) + 0x80_0000) * pow2((single_exponent(bits) - 1) as nat)
    }
}

/// The magnitude of a finite single in units of 2^-32, rounded to the
/// nearest unit, halves away from zero.
pub open spec fn single_magnitude(bits: u32) -> int {
    (single_units(bits) + pow2(116)) / (pow2(117) as int)
}

/// The number nearest to a finite single, saturated.
pub open spec fn single_value(bits: u32) -> Fixed {
    if single_negative(bits) {
        saturated(-single_magnitude(bits))
    } else {
        saturated(single_magnitude(bits))
    }
}

/// The place of the highest bit that is set in `v`, counted from 0; 0 for
/// a number below 2.
pub open spec fn top_bit(v: int) -> int
    decreases v,
{
    if v < 2 {
        0
    } else {
        1 + top_bit(v / 2)
    }
}

/// `v` divided by two to the power `k`, rounded to the nearest whole
/// number, a half to the even one.
pub open spec fn round_half_even(v: int, k: nat) -> int {
    let q = v / (pow2(k) as int);
    let r = v % (pow2(k) as int);
    if 2 * r > pow2(k) || (2 * r == pow2(k) && q % 2 == 1) {
        q + 1
    } else {
        q
    }
}

/// The significand of the single nearest to a magnitude of `v` units, with
/// its hidden bit: `v` brought to 24 bits, by rounding where it has more.
/// It lies between 2^23 and 2^24, both included.
pub open spec fn nearest_significand(v: int) -> int {
    let n = top_bit(v);
    if n <= 23 {
        v * pow2((23 - n) as nat)
    } else {
        round_half_even(v, (n - 23) as nat)
    }
}

/// The bits of the single nearest to `x`, a half of its last place to the
/// even side: the sign, then the exponent field 95 more than the place of
/// the highest bit of the magnitude, then the significand without its
/// hidden bit. Zero has the bits of plus zero.
pub open spec fn nearest_single(x: Fixed) -> u32 {
    if x.raw == 0 {
        0
    } else {
        let v = if x.raw < 0 {
            -x@
        } else {
            x@
        };
        let sign: int = if x.raw < 0 {
            0x8000_0000
        } else {
            0
        };
        (sign + (top_bit(v) + 95) * 0x80_0000 + (nearest_significand(v) - 0x80_0000)) as u32
    }
}

/// A number that lies from two to the power `n` up to twice that has its
/// highest bit at the place `n`.
pub proof fn lemma_top_bit_is(v: int, n: nat)
    requires
        pow2(n) <= v < 2 * pow2(n),
    ensures
        top_bit(v) == n,
    decreases n,
{
    lemma2_to64();
    if n == 0 {
    } else {
        vstd::arithmetic::power2::lemma_pow2_unfold(n);
        lemma_pow2_pos((n - 1) as nat);
        assert(v >= 2);
        lemma_top_bit_is(v / 2, (n - 1) as nat);
    }
}

/// A number from 1 on lies from two to the power of the place of its
/// highest bit up to twice that.
pub proof fn lemma_top_bit_bounds(v: int)
    requires
        v >= 1,
    ensures
        top_bit(v) >= 0,
        pow2(top_bit(v) as nat) <= v < 2 * pow2(top_bit(v) as nat),
    decreases v,
{
    lemma2_to64();
    if v >= 2 {
        lemma_top_bit_bounds(v / 2);
        vstd::arithmetic::power2::lemma_pow2_unfold((top_bit(v / 2) + 1) as nat);
    }
}

/// Whether a number is the value of a single exactly: its magnitude has no
/// more than 24 bits from its highest bit down.
pub open spec fn single_exact(x: Fixed) -> bool {
    let v = if x.raw < 0 {
        -x@
    } else {
        x@
    };
    x.raw == 0 || top_bit(v) <= 23 || v % (pow2((top_bit(v) - 23) as nat) as int) == 0
}

/// A number that is the value of a single exactly comes back from its
/// nearest single unchanged.
pub proof fn lemma_single_round_trip(x: Fixed)
    requires
        single_exact(x),
        proper(x),
    ensures
        single_finite(nearest_single(x)),
        single_value(nearest_single(x)) == x,
{
    lemma2_to64();
    lemma2_to64_rest();
    if x.raw == 0 {
        lemma_pow2_pos(117);
        lemma_pow2_adds(116, 1);
        vstd::arithmetic::div_mod::lemma_fundamental_div_mod_converse(
            pow2(116) as int,
            pow2(117) as int,
            0,
            pow2(116) as int,
        );
    } else {
        let v = if x.raw < 0 {
            -x@
        } else {
            x@
        };
        let n = top_bit(v);
        lemma_top_bit_bounds(v);
        if n >= 64 {
            lemma_pow2_strictly_increases(63, n as nat);
        }
        assert(0 <= n <= 63);
        let sig = nearest_significand(v);
        let e = n + 95;
        if n <= 23 {
            let j = (23 - n) as nat;
            lemma_pow2_adds(n as nat, j);
            lemma_pow2_pos(j);
            assert(0x80_0000 <= v * pow2(j) < 0x100_0000) by (nonlinear_arith)
                requires
                    pow2(n as nat) <= v < 2 * pow2(n as nat),
                    pow2(n as nat) * pow2(j) == 0x80_0000,
                    pow2(j) > 0,
            ;
            if n == 23 {
                lemma_whole_magnitude(sig, e);
                assert(sig * pow2(0) == v) by (nonlinear_arith)
                    requires
                        sig == v * pow2(0),
                        pow2(0) == 1,
                ;
            } else {
                lemma_small_magnitude(sig, e);
                lemma_pow2_strictly_increases((j - 1) as nat, j);
                vstd::arithmetic::div_mod::lemma_fundamental_div_mod_converse(
                    sig + pow2((j - 1) as nat),
                    pow2(j) as int,
                    v,
                    pow2((j - 1) as nat) as int,
                );
            }
        } else {
            let k = (n - 23) as nat;
            let p = pow2(k) as int;
            lemma_pow2_pos(k);
            lemma_pow2_adds(k, 23);
            vstd::arithmetic::div_mod::lemma_fundamental_div_mod(v, p);
            let q = v / p;
            assert(0x80_0000 <= q < 0x100_0000) by (nonlinear_arith)
                requires
                    p * 0x80_0000 <= v < 2 * (p * 0x80_0000),
                    v == p * q,
                    p > 0,
            ;
            assert(sig == q);
            lemma_whole_magnitude(sig, e);
            assert(q * p == v) by (nonlinear_arith)
                requires
                    v == p * q,
            ;
        }
        let sign: int = if x.raw < 0 {
            0x8000_0000
        } else {
            0
        };
        let bits = nearest_single(x);
        assert(bits == sign + e * 0x80_0000 + (sig - 0x80_0000));
        assert(single_exponent(bits) == e);
        assert(single_fraction(bits) == sig - 0x80_0000);
        assert(single_units(bits) == sig * pow2((e - 1) as nat));
        assert(single_magnitude(bits) == v);
    }
}

/// Two to the power `k`.
fn power_of_two(k: u32) -> (p: u64)
    requires
        k < 64,
    ensures
        p == pow2(k as nat),
{
    proof {
        vstd::bits::lemma_u64_pow2_no_overflow(k as nat);
        vstd::bits::lemma_u64_shl_is_mul(1, k as u64);
    }
    1u64 << (k as u64)
}

/// For an exponent field from 118 on, a single is a whole number of units
/// of 2^-32: its significand times two to the exponent field less 118.
proof fn lemma_whole_magnitude(m: int, e: int)
    requires
        0 <= m,
        118 <= e,
    ensures
        (m * pow2((e - 1) as nat) + pow2(116)) / (pow2(117) as int) == m * pow2((e - 118) as nat),
{
    let p = pow2(117) as int;
    let x = m * pow2((e - 118) as nat);
    lemma_pow2_adds((e - 118) as nat, 117);
    lemma_pow2_pos(117);
    lemma_pow2_strictly_increases(116, 117);
    assert(m * pow2((e - 1) as nat) == x * p) by (nonlinear_arith)
        requires
            pow2((e - 1) as nat) == pow2((e - 118) as nat) * pow2(117),
            p == pow2(117),
            x == m * pow2((e - 118) as nat),
    ;
    vstd::arithmetic::div_mod::lemma_fundamental_div_mod_converse(
        x * p + pow2(116),
        p,
        x,
        pow2(116) as int,
    );
}

/// For an exponent field from 1 to 117, the magnitude in units of 2^-32 is
/// the significand divided by two to the power 118 less the exponent
/// field, rounded.
proof fn lemma_small_magnitude(m: int, e: int)
    requires
        0 <= m,
        1 <= e <= 117,
    ensures
        (m * pow2((e - 1) as nat) + pow2(116)) / (pow2(117) as int) == (m + pow2((117 - e) as nat))
            / (pow2((118 - e) as nat) as int),
{
    let low = pow2((e - 1) as nat) as int;
    let k = (118 - e) as nat;
    lemma_pow2_adds((e - 1) as nat, k);
    lemma_pow2_adds((e - 1) as nat, (k - 1) as nat);
    lemma_pow2_pos((e - 1) as nat);
    lemma_pow2_pos(k);
    lemma_pow2_pos((k - 1) as nat);
    let top = m + pow2((k - 1) as nat);
    assert(m * low + pow2(116) == low * top) by (nonlinear_arith)
        requires
            pow2(116) == low * pow2((k - 1) as nat),
            top == m + pow2((k - 1) as nat),
    ;
    assert(pow2(117) == low * pow2(k));
    vstd::arithmetic::div_mod::lemma_div_multiples_vanish_quotient(low, top, pow2(k) as int);
}

impl Fixed {
    /// The bits of the single nearest to `self`, a half of its last place
    /// to the even side.
    pub fn to_single_bits(self) -> (bits: u32)
        ensures
            bits == nearest_single(self),
    {
        if self.raw == 0 {
            return 0;
        }
        let negative = self.raw < 0;
        let v: u64 = if negative {
            (-(self.raw as i128)) as u64
        } else {
            self.raw as u64
        };
        // the place of the highest bit
        let mut n: u32 = 0;
        let mut t: u64 = v;
        proof {
            lemma2_to64();
        }
        while t >= 2
            invariant
                1 <= t,
                n <= 63,
                t * pow2(n as nat) <= v < (t + 1) * pow2(n as nat),
                1 <= v <= 0x8000_0000_0000_0000,
            decreases t,
        {
            proof {
                vstd::arithmetic::power2::lemma_pow2_unfold((n + 1) as nat);
                lemma_pow2_pos(n as nat);
                let p = pow2(n as nat) as int;
                let h = (t / 2) as int;
                assert(h * (2 * p) <= t * p && (t + 1) * p <= (h + 1) * (2 * p)) by (nonlinear_arith)
                    requires
                        2 * h <= t <= 2 * h + 1,
                        p > 0,
                ;
                // two to the power 64 is more than v
                if n == 63 {
                    lemma2_to64_rest();
                    assert(h * (2 * p) > v) by (nonlinear_arith)
                        requires
                            h >= 1,
                            p == 0x8000_0000_0000_0000,
                            v <= 0x8000_0000_0000_0000,
                    ;
                }
            }
            t = t / 2;
            n = n + 1;
        }
        proof {
            lemma_pow2_pos(n as nat);
            lemma_top_bit_is(v as int, n as nat);
        }
        let significand: u64 = if n <= 23 {
            let p = power_of_two(23 - n);
            proof {
                lemma_pow2_adds(n as nat, (23 - n) as nat);
                lemma2_to64();
                assert(0x80_0000 <= v * p < 0x100_0000) by (nonlinear_arith)
                    requires
                        pow2(n as nat) <= v < 2 * pow2(n as nat),
                        pow2(n as nat) * p == 0x80_0000,
                        p > 0,
                ;
            }
            v * p
        } else {
            let k = n - 23;
            let p = power_of_two(k);
            proof {
                lemma_pow2_pos(k as nat);
            }
            let q = v / p;
            let r = v % p;
            proof {
                lemma_pow2_adds(k as nat, 23);
                lemma2_to64();
                lemma_pow2_pos(k as nat);
                vstd::arithmetic::div_mod::lemma_fundamental_div_mod(v as int, p as int);
                assert(0x80_0000 <= q < 0x100_0000) by (nonlinear_arith)
                    requires
                        p * 0x80_0000 <= v < 2 * (p * 0x80_0000),
                        v == p * q + r,
                        0 <= r < p,
                        p > 0,
                ;
            }
            if r > p - r || (r == p - r && q % 2 == 1) {
                q + 1
            } else {
                q
            }
        };
        let sign: u32 = if negative {
            0x8000_0000
        } else {
            0
        };
        sign + (n + 95) * 0x80_0000 + (significand - 0x80_0000) as u32
    }

    /// The number nearest to the single with the bits `bits`, rounded to
    /// the nearest unit, halves away from zero, and saturated; none for a
    /// single that is infinite or no number.
    pub fn from_single_bits(bits: u32) -> (r: Option<Fixed>)
        ensures
            single_finite(bits) ==> r == Some(single_value(bits)),
            !single_finite(bits) ==> r is None,
    {
        let e: u32 = (bits / 0x80_0000) % 0x100;
        let f: u64 = (bits % 0x80_0000) as u64;
        let negative = bits >= 0x8000_0000;
        if e == 0xff {
            return None;
        }
        proof {
            lemma2_to64();
            lemma2_to64_rest();
        }
        let magnitude: u64 = if e == 0 {
            proof {
                lemma_pow2_pos(117);
                lemma_pow2_adds(116, 1);
                lemma_pow2_strictly_increases(23, 116);
                vstd::arithmetic::div_mod::lemma_fundamental_div_mod_converse(
                    f as int + pow2(116),
                    pow2(117) as int,
                    0,
                    f as int + pow2(116),
                );
            }
            0
        } else {
            let m: u64 = f + 0x80_0000;
            if e >= 158 {
                proof {
                    lemma_whole_magnitude(m as int, e as int);
                    if e > 158 {
                        lemma_pow2_strictly_increases(40, (e - 118) as nat);
                    }
                    assert(m * pow2((e - 118) as nat) >= 0x8000_0000_0000_0000)
                        by (nonlinear_arith)
                        requires
                            m >= 0x80_0000,
                            pow2((e - 118) as nat) >= 0x100_0000_0000,
                    ;
                }
                return Some(
                    if negative {
                        Fixed { raw: -i64::MAX }
                    } else {
                        Fixed { raw: i64::MAX }
                    },
                );
            } else if e >= 118 {
                let p = power_of_two(e - 118);
                proof {
                    lemma_whole_magnitude(m as int, e as int);
                    if e < 157 {
                        lemma_pow2_strictly_increases((e - 118) as nat, 39);
                    }
                    assert(m * p <= 0xff_ffff * 0x80_0000_0000) by (nonlinear_arith)
                        requires
                            m <= 0xff_ffff,
                            p <= 0x80_0000_0000,
                    ;
                }
                m * p
            } else if e >= 93 {
                let half = power_of_two(117 - e);
                let whole = power_of_two(118 - e);
                proof {
                    lemma_small_magnitude(m as int, e as int);
                    if e > 93 {
                        lemma_pow2_strictly_increases((117 - e) as nat, 24);
                    }
                }
                (m + half) / whole
            } else {
                proof {
                    lemma_small_magnitude(m as int, e as int);
                    let k = (118 - e) as nat;
                    if k > 26 {
                        lemma_pow2_strictly_increases(25, (k - 1) as nat);
                    }
                    lemma_pow2_adds((k - 1) as nat, 1);
                    vstd::arithmetic::div_mod::lemma_fundamental_div_mod_converse(
                        m as int + pow2((k - 1) as nat),
                        pow2(k) as int,
                        0,
                        m as int + pow2((k - 1) as nat),
                    );
                }
                0
            }
        };
        Some(
            if negative {
                Fixed { raw: -(magnitude as i64) }
            } else {
                Fixed { raw: magnitude as i64 }
            },
        )
    }
}

} // verus!
