//! Signed 32.32 fixed-point numbers with saturating arithmetic.

use vstd::prelude::*;

verus! {

/// Raw units in the value one: 2^32.
pub const SCALE: i64 = 0x1_0000_0000;

/// A number `raw / 2^32`.
#[derive(Clone, Copy, Debug, PartialEq, Eq, Structural)]
pub struct Fixed {
    pub raw: i64,
}

impl View for Fixed {
    type V = int;

    /// The number of raw units, as a mathematical integer.
    open spec fn view(&self) -> int {
        self.raw as int
    }
}

/// `v` brought into the range from `-i64::MAX` to `i64::MAX`. The range is
/// the same on both sides of zero, so that the negative of a result is the
/// result for the negated operands.
pub open spec fn clamp_raw(v: int) -> int {
    if v < -(i64::MAX as int) {
        -(i64::MAX as int)
    } else if v > i64::MAX as int {
        i64::MAX as int
    } else {
        v
    }
}

/// Whether a number is one that the arithmetic of this module gives: any
/// but the one with the raw value `i64::MIN`, which has no negative.
pub open spec fn proper(x: Fixed) -> bool {
    x.raw > i64::MIN
}

/// The representable number nearest to `v` raw units.
pub open spec fn saturated(v: int) -> Fixed {
    Fixed { raw: clamp_raw(v) as i64 }
}

/// A product of two raw values brought back to 32 fractional bits, rounded to
/// the nearest unit, halves away from zero.
pub open spec fn rescale(p: int) -> int {
    if p >= 0 {
        (p + 0x8000_0000) / 0x1_0000_0000
    } else {
        -((-p + 0x8000_0000) / 0x1_0000_0000)
    }
}

/// Rounding is odd: the negated product gives the negated result.
pub proof fn lemma_rescale_odd(p: int)
    ensures
        rescale(-p) == -rescale(p),
{
}

/// Rounding keeps the order of products.
pub proof fn lemma_rescale_ordered(p: int, q: int)
    requires
        p <= q,
    ensures
        rescale(p) <= rescale(q),
{
    if p >= 0 {
        vstd::arithmetic::div_mod::lemma_div_is_ordered(
            p + 0x8000_0000,
            q + 0x8000_0000,
            0x1_0000_0000,
        );
    } else if q < 0 {
        vstd::arithmetic::div_mod::lemma_div_is_ordered(
            -q + 0x8000_0000,
            -p + 0x8000_0000,
            0x1_0000_0000,
        );
    } else {
        vstd::arithmetic::div_mod::lemma_div_is_ordered(0, q + 0x8000_0000, 0x1_0000_0000);
        vstd::arithmetic::div_mod::lemma_div_is_ordered(0, -p + 0x8000_0000, 0x1_0000_0000);
    }
}

/// What rounding adds to a product is at most half a unit either way:
/// `|2^32 * rescale(p) - p| <= 2^31`.
pub proof fn lemma_rescale_error(p: int)
    ensures
        -0x8000_0000 <= 0x1_0000_0000 * rescale(p) - p <= 0x8000_0000,
{
    if p >= 0 {
        vstd::arithmetic::div_mod::lemma_fundamental_div_mod(p + 0x8000_0000, 0x1_0000_0000);
        vstd::arithmetic::div_mod::lemma_mod_bound(p + 0x8000_0000, 0x1_0000_0000);
    } else {
        vstd::arithmetic::div_mod::lemma_fundamental_div_mod(-p + 0x8000_0000, 0x1_0000_0000);
        vstd::arithmetic::div_mod::lemma_mod_bound(-p + 0x8000_0000, 0x1_0000_0000);
    }
}

/// The product of two `i64` values lies within 2^126 of zero.
pub proof fn lemma_product_range(a: int, b: int)
    by (nonlinear_arith)
    requires
        -0x8000_0000_0000_0000 <= a <= 0x7fff_ffff_ffff_ffff,
        -0x8000_0000_0000_0000 <= b <= 0x7fff_ffff_ffff_ffff,
    ensures
        -0x4000_0000_0000_0000_0000_0000_0000_0000 <= a * b
            <= 0x4000_0000_0000_0000_0000_0000_0000_0000,
{
}

/// A Euclidean quotient is no larger in magnitude than its dividend.
pub proof fn lemma_quotient_range(x: int, d: int)
    requires
        d != 0,
    ensures
        x >= 0 ==> -x <= x / d <= x,
        x < 0 ==> x <= x / d <= -x,
{
    let q = x / d;
    let r = x % d;
    vstd::arithmetic::div_mod::lemma_fundamental_div_mod(x, d);
    if d > 0 {
        vstd::arithmetic::div_mod::lemma_mod_bound(x, d);
    } else {
        assert(0 <= x % d < -d) by (nonlinear_arith)
            requires
                d < 0,
        ;
    }
    assert(x >= 0 ==> -x <= q <= x) by (nonlinear_arith)
        requires
            x == d * q + r,
            d != 0,
            0 <= r,
            d > 0 ==> r < d,
            d < 0 ==> r < -d,
    ;
    assert(x < 0 ==> x <= q <= -x) by (nonlinear_arith)
        requires
            x == d * q + r,
            d != 0,
            0 <= r,
            d > 0 ==> r < d,
            d < 0 ==> r < -d,
    ;
}

/// The quotients of two numbers add up to the quotient of their sum, or to
/// one less.
pub proof fn lemma_floor_sum(x: int, y: int, d: int)
    requires
        d > 0,
    ensures
        x / d + y / d <= (x + y) / d <= x / d + y / d + 1,
{
    vstd::arithmetic::div_mod::lemma_fundamental_div_mod(x, d);
    vstd::arithmetic::div_mod::lemma_fundamental_div_mod(y, d);
    vstd::arithmetic::div_mod::lemma_fundamental_div_mod(x + y, d);
    vstd::arithmetic::div_mod::lemma_mod_bound(x, d);
    vstd::arithmetic::div_mod::lemma_mod_bound(y, d);
    vstd::arithmetic::div_mod::lemma_mod_bound(x + y, d);
    let qx = x / d;
    let qy = y / d;
    let q = (x + y) / d;
    let rx = x % d;
    let ry = y % d;
    let r = (x + y) % d;
    assert(qx + qy <= q <= qx + qy + 1) by (nonlinear_arith)
        requires
            d > 0,
            x == d * qx + rx,
            y == d * qy + ry,
            x + y == d * q + r,
            0 <= rx < d,
            0 <= ry < d,
            0 <= r < d,
    ;
}

/// Four times a quotient is the quotient of four times the dividend, or up
/// to three less.
pub proof fn lemma_floor_times_four(x: int, d: int)
    requires
        d > 0,
    ensures
        4 * (x / d) <= (4 * x) / d <= 4 * (x / d) + 3,
{
    lemma_floor_sum(x, x, d);
    lemma_floor_sum(x + x, x + x, d);
    assert(x + x + (x + x) == 4 * x);
}

/// A quotient whose dividend is bounded in magnitude and whose divisor is
/// bounded from below is bounded in magnitude.
pub proof fn lemma_quotient_bound(n: int, d: int, n_max: int, d_min: int)
    requires
        0 < d_min <= d,
        -n_max <= n <= n_max,
    ensures
        -(n_max / d_min) - 1 <= n / d <= n_max / d_min,
{
    vstd::arithmetic::div_mod::lemma_div_is_ordered(n, n_max, d);
    vstd::arithmetic::div_mod::lemma_div_is_ordered_by_denominator(n_max, d_min, d);
    vstd::arithmetic::div_mod::lemma_div_is_ordered(-n_max, n, d);
    lemma_floor_sum(-n_max, n_max, d);
    assert((-n_max + n_max) / d == 0);
}

/// A raw value times one, or times minus one, is brought back to itself, or
/// to its negative, without a rounding error.
pub proof fn lemma_times_unit(x: int)
    ensures
        rescale(x * (SCALE as int)) == x,
        rescale(x * (-(SCALE as int))) == -x,
{
    let s = SCALE as int;
    let m = if x >= 0 {
        x
    } else {
        -x
    };
    assert(m * s + 0x8000_0000 == m * s + 0x8000_0000);
    vstd::arithmetic::div_mod::lemma_fundamental_div_mod_converse(
        m * s + 0x8000_0000,
        s,
        m,
        0x8000_0000,
    );
    assert(x * s == -((-x) * s)) by (nonlinear_arith);
    assert(x * (-s) == -(x * s)) by (nonlinear_arith);
    assert(m * s >= 0) by (nonlinear_arith)
        requires
            m >= 0,
            s > 0,
    ;
    if x >= 0 {
        assert(rescale(x * s) == x);
        lemma_rescale_odd(x * s);
    } else {
        assert(x * s == -(m * s));
        lemma_rescale_odd(m * s);
        assert(rescale(m * s) == m);
    }
}

/// A product of two numbers within bounds is within the product of the
/// bounds, rounded; and a product of two numbers that are not below zero
/// is not below zero.
pub proof fn lemma_mul_bound(x: Fixed, y: Fixed, xb: int, yb: int)
    requires
        -xb <= x@ <= xb,
        -yb <= y@ <= yb,
        rescale(xb * yb) <= i64::MAX,
    ensures
        -rescale(xb * yb) <= x.mul(y)@ <= rescale(xb * yb),
        x@ >= 0 && y@ >= 0 ==> x.mul(y)@ >= 0,
{
    assert(-(xb * yb) <= x@ * y@ <= xb * yb) by (nonlinear_arith)
        requires
            -xb <= x@ <= xb,
            -yb <= y@ <= yb,
    ;
    lemma_rescale_ordered(x@ * y@, xb * yb);
    lemma_rescale_ordered(-(xb * yb), x@ * y@);
    lemma_rescale_odd(xb * yb);
    if x@ >= 0 && y@ >= 0 {
        assert(x@ * y@ >= 0) by (nonlinear_arith)
            requires
                x@ >= 0,
                y@ >= 0,
        ;
        lemma_rescale_ordered(0, x@ * y@);
    }
}

/// A quotient of a number within a bound by a number at or above a bound
/// above zero is within the quotient of the bounds and one more; and a
/// quotient of a number that is not below zero is not below zero.
pub proof fn lemma_div_bound(n: Fixed, d: Fixed, nb: int, db: int)
    requires
        -nb <= n@ <= nb,
        0 < db <= d@,
        (nb * SCALE) / db + 1 <= i64::MAX,
    ensures
        -((nb * SCALE) / db) - 1 <= n.div(d)@ <= (nb * SCALE) / db,
        n.div(d)@ == (n@ * SCALE) / d@,
        n@ >= 0 ==> n.div(d)@ >= 0,
{
    assert(-(nb * SCALE) <= n@ * SCALE <= nb * SCALE) by (nonlinear_arith)
        requires
            -nb <= n@ <= nb,
            SCALE > 0,
    ;
    lemma_quotient_bound(n@ * SCALE, d@, nb * SCALE, db);
    if n@ >= 0 {
        assert(n@ * SCALE >= 0) by (nonlinear_arith)
            requires
                n@ >= 0,
                SCALE > 0,
        ;
        vstd::arithmetic::div_mod::lemma_div_is_ordered(0, n@ * SCALE, d@);
    }
}

/// `v` as a `Fixed`, saturated.
pub fn narrow(v: i128) -> (r: Fixed)
    ensures
        r == saturated(v as int),
{
    if v < -(i64::MAX as i128) {
        Fixed { raw: -i64::MAX }
    } else if v > i64::MAX as i128 {
        Fixed { raw: i64::MAX }
    } else {
        Fixed { raw: v as i64 }
    }
}

impl Fixed {
    pub open spec fn spec_zero() -> Fixed {
        Fixed { raw: 0 }
    }

    /// The number 0.
    #[verifier::when_used_as_spec(spec_zero)]
    pub fn zero() -> (r: Fixed)
        ensures
            r == Self::spec_zero(),
    {
        Fixed { raw: 0 }
    }

    pub open spec fn spec_one() -> Fixed {
        Fixed { raw: SCALE }
    }

    /// The number 1.
    #[verifier::when_used_as_spec(spec_one)]
    pub fn one() -> (r: Fixed)
        ensures
            r == Self::spec_one(),
    {
        Fixed { raw: SCALE }
    }

    pub open spec fn spec_from_raw(raw: i64) -> Fixed {
        Fixed { raw }
    }

    /// The number `raw / 2^32`.
    #[verifier::when_used_as_spec(spec_from_raw)]
    pub fn from_raw(raw: i64) -> (r: Fixed)
        ensures
            r == Self::spec_from_raw(raw),
    {
        Fixed { raw }
    }

    pub open spec fn spec_from_int(n: i32) -> Fixed {
        Fixed { raw: (n as int * SCALE as int) as i64 }
    }

    /// The whole number `n`.
    #[verifier::when_used_as_spec(spec_from_int)]
    pub fn from_int(n: i32) -> (r: Fixed)
        ensures
            r == Self::spec_from_int(n),
            r@ == n * SCALE,
    {
        Fixed { raw: (n as i64) * SCALE }
    }

    pub open spec fn spec_from_whole(n: u32) -> Fixed {
        saturated(n as int * SCALE as int)
    }

    /// The whole number `n`, saturated.
    #[verifier::when_used_as_spec(spec_from_whole)]
    pub fn from_whole(n: u32) -> (r: Fixed)
        ensures
            r == Self::spec_from_whole(n),
    {
        narrow((n as i128) * 0x1_0000_0000i128)
    }

    pub open spec fn spec_add(self, rhs: Fixed) -> Fixed {
        saturated(self@ + rhs@)
    }

    /// Saturating sum.
    #[verifier::when_used_as_spec(spec_add)]
    pub fn add(self, rhs: Fixed) -> (r: Fixed)
        ensures
            r == self.spec_add(rhs),
    {
        narrow(self.raw as i128 + rhs.raw as i128)
    }

    pub open spec fn spec_sub(self, rhs: Fixed) -> Fixed {
        saturated(self@ - rhs@)
    }

    /// Saturating difference.
    #[verifier::when_used_as_spec(spec_sub)]
    pub fn sub(self, rhs: Fixed) -> (r: Fixed)
        ensures
            r == self.spec_sub(rhs),
    {
        narrow(self.raw as i128 - rhs.raw as i128)
    }

    pub open spec fn spec_neg(self) -> Fixed {
        saturated(-self@)
    }

    /// Saturating negation.
    #[verifier::when_used_as_spec(spec_neg)]
    pub fn neg(self) -> (r: Fixed)
        ensures
            r == self.spec_neg(),
    {
        narrow(-(self.raw as i128))
    }

    pub open spec fn spec_abs(self) -> Fixed {
        if self.raw < 0 {
            self.spec_neg()
        } else {
            self
        }
    }

    /// Saturating magnitude.
    #[verifier::when_used_as_spec(spec_abs)]
    pub fn abs(self) -> (r: Fixed)
        ensures
            r == self.spec_abs(),
    {
        if self.raw < 0 {
            self.neg()
        } else {
            self
        }
    }

    pub open spec fn spec_mul(self, rhs: Fixed) -> Fixed {
        saturated(rescale(self@ * rhs@))
    }

    /// Saturating product, rounded to the nearest unit.
    #[verifier::when_used_as_spec(spec_mul)]
    pub fn mul(self, rhs: Fixed) -> (r: Fixed)
        ensures
            r == self.spec_mul(rhs),
    {
        proof {
            lemma_product_range(self@, rhs@);
        }
        let p: i128 = (self.raw as i128) * (rhs.raw as i128);
        if p >= 0 {
            narrow((p + 0x8000_0000) / 0x1_0000_0000)
        } else {
            narrow(-((-p + 0x8000_0000) / 0x1_0000_0000))
        }
    }

    pub open spec fn spec_div(self, rhs: Fixed) -> Fixed {
        if rhs.raw == 0 {
            if self.raw > 0 {
                Fixed { raw: i64::MAX }
            } else if self.raw < 0 {
                saturated(-0x7fff_ffff_ffff_ffff)
            } else {
                Fixed { raw: 0 }
            }
        } else {
            saturated((self@ * SCALE as int) / rhs@)
        }
    }

    /// Saturating quotient. The quotient is the Euclidean one: it is rounded so
    /// that the remainder is not negative. A division by zero saturates towards
    /// the sign of the dividend, and zero by zero is zero.
    #[verifier::when_used_as_spec(spec_div)]
    pub fn div(self, rhs: Fixed) -> (r: Fixed)
        ensures
            r == self.spec_div(rhs),
    {
        if rhs.raw == 0 {
            if self.raw > 0 {
                Fixed { raw: i64::MAX }
            } else if self.raw < 0 {
                Fixed { raw: -i64::MAX }
            } else {
                Fixed { raw: 0 }
            }
        } else {
            let n: i128 = (self.raw as i128) * 0x1_0000_0000i128;
            proof {
                lemma_quotient_range(n as int, rhs@);
            }
            match n.checked_div_euclid(rhs.raw as i128) {
                Some(q) => narrow(q),
                None => Fixed { raw: 0 },
            }
        }
    }

    pub open spec fn spec_floor(self) -> Fixed {
        Fixed { raw: (self@ - self@ % (SCALE as int)) as i64 }
    }

    /// The largest whole number that is not above `self`.
    #[verifier::when_used_as_spec(spec_floor)]
    pub fn floor(self) -> (r: Fixed)
        ensures
            r == self.spec_floor(),
            r@ % (SCALE as int) == 0,
            r@ <= self@ < r@ + SCALE,
    {
        let f = self.frac();
        Fixed { raw: self.raw - f.raw }
    }

    pub open spec fn spec_frac(self) -> Fixed {
        Fixed { raw: (self@ % (SCALE as int)) as i64 }
    }

    /// What `self` exceeds its floor by: at least 0 and below 1.
    #[verifier::when_used_as_spec(spec_frac)]
    pub fn frac(self) -> (r: Fixed)
        ensures
            r == self.spec_frac(),
            0 <= r@ < SCALE,
    {
        match self.raw.checked_rem_euclid(SCALE) {
            Some(m) => Fixed { raw: m },
            None => Fixed { raw: 0 },
        }
    }

    pub open spec fn spec_min(self, rhs: Fixed) -> Fixed {
        if rhs.raw < self.raw {
            rhs
        } else {
            self
        }
    }

    /// The smaller of two numbers.
    #[verifier::when_used_as_spec(spec_min)]
    pub fn min(self, rhs: Fixed) -> (r: Fixed)
        ensures
            r == self.spec_min(rhs),
    {
        if rhs.raw < self.raw {
            rhs
        } else {
            self
        }
    }

    pub open spec fn spec_max(self, rhs: Fixed) -> Fixed {
        if rhs.raw > self.raw {
            rhs
        } else {
            self
        }
    }

    /// The larger of two numbers.
    #[verifier::when_used_as_spec(spec_max)]
    pub fn max(self, rhs: Fixed) -> (r: Fixed)
        ensures
            r == self.spec_max(rhs),
    {
        if rhs.raw > self.raw {
            rhs
        } else {
            self
        }
    }

    pub open spec fn spec_clamp(self, lo: Fixed, hi: Fixed) -> Fixed {
        if self.raw < lo.raw {
            lo
        } else if self.raw > hi.raw {
            hi
        } else {
            self
        }
    }

    /// `self` limited to the interval from `lo` to `hi`.
    #[verifier::when_used_as_spec(spec_clamp)]
    pub fn clamp(self, lo: Fixed, hi: Fixed) -> (r: Fixed)
        ensures
            r == self.spec_clamp(lo, hi),
    {
        if self.raw < lo.raw {
            lo
        } else if self.raw > hi.raw {
            hi
        } else {
            self
        }
    }
}

} // verus!
