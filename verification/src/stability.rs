//! Bounds on what the first-order filters give out while their input stays
//! within a bound: the filters are stable, roundings included.

use crate::filter::{
    angular_rate, high_pass_alpha, low_pass_alpha, primary_at_rest, primary_next,
    primary_response, PrimaryFilterType, PrimaryModel, TWO_PI_RAW,
};
use crate::fixed::{
    lemma_rescale_error, lemma_rescale_ordered, lemma_times_unit, proper, rescale, Fixed, SCALE,
};
use crate::phase::{
    all_pass_coefficient, direct_coefficients, pole_rate, quadrature_coefficients, POLE_SCALE_RAW,
    POLE_UNIT,
};
use vstd::prelude::*;

verus! {

/// The magnitude of `v`.
pub open spec fn magnitude(v: int) -> int {
    if v < 0 {
        -v
    } else {
        v
    }
}

/// The largest input bound that the lemmas of this module take: 2^59 raw
/// units, the number 2^27.
pub open spec fn input_limit() -> int {
    0x800_0000_0000_0000
}

/// The product of two numbers is bounded by the product of their bounds.
proof fn lemma_product_bound(p: int, q: int, pb: int, qb: int)
    by (nonlinear_arith)
    requires
        -pb <= p <= pb,
        -qb <= q <= qb,
    ensures
        -(pb * qb) <= p * q <= pb * qb,
{
}

/// From `s * u <= s * v` with `s` above zero follows `u <= v`.
proof fn lemma_cancel_factor(s: int, u: int, v: int)
    by (nonlinear_arith)
    requires
        s > 0,
        s * u <= s * v,
    ensures
        u <= v,
{
}

/// What an all-pass filter has stored up, in units of 2^-64: with the
/// coefficient `alpha` it is `prev_in - alpha * prev_out`.
pub open spec fn all_pass_store(m: PrimaryModel) -> int {
    SCALE * m.prev_in@ - m.alpha@ * m.prev_out@
}

/// Whether an all-pass filter is settled for inputs within `bound`: with
/// `a` the magnitude of its coefficient, what it has stored up is at most
/// `(1 + a) * bound + a / (1 - a)` units in magnitude.
pub open spec fn all_pass_settled(m: PrimaryModel, bound: int) -> bool {
    let a = magnitude(m.alpha@);
    let c = SCALE - a;
    c * magnitude(all_pass_store(m)) <= c * (SCALE + a) * bound + a * SCALE
}

/// What the roundings add to the output of an all-pass filter, in units of
/// 2^-64: the output less `alpha * x + prev_in - alpha * prev_out`.
pub open spec fn all_pass_rounding(m: PrimaryModel, x: Fixed) -> int {
    SCALE * primary_response(m, x)@ - m.alpha@ * x@ - all_pass_store(m)
}

/// The step of the all-pass bound, over plain integers: `s` stands for the
/// scale, `v` for what is stored up, `sy` for the output times the scale and
/// `v2` for what is stored up afterwards.
#[verifier::rlimit(40)]
proof fn lemma_all_pass_core(
    s: int,
    a: int,
    big_a: int,
    c: int,
    bound: int,
    x: int,
    v: int,
    e: int,
    sy: int,
    v2: int,
)
    requires
        s > 0,
        big_a == magnitude(a),
        big_a < s,
        c == s - big_a,
        0 <= bound,
        -bound <= x <= bound,
        c * magnitude(v) <= c * (s + big_a) * bound + big_a * s,
        -s <= e <= s,
        sy == a * x + v + e,
        s * v2 == s * s * x - a * sy,
    ensures
        c * magnitude(v2) <= c * (s + big_a) * bound + big_a * s,
        c * magnitude(sy) <= c * bound * (s + 2 * big_a) + s * s,
{
    let mv = magnitude(v);
    let limit = c * (s + big_a) * bound + big_a * s;
    // the three parts of s * v2
    let t1 = (s * s - a * a) * x;
    let t2 = a * v;
    let t3 = a * e;
    assert(s * v2 == t1 - t2 - t3) by (nonlinear_arith)
        requires
            s * v2 == s * s * x - a * sy,
            sy == a * x + v + e,
            t1 == (s * s - a * a) * x,
            t2 == a * v,
            t3 == a * e,
    ;
    let k1 = s * s - big_a * big_a;
    assert(a * a == big_a * big_a) by (nonlinear_arith)
        requires
            big_a == a || big_a == -a,
    ;
    assert(k1 >= 0) by (nonlinear_arith)
        requires
            0 <= big_a < s,
            k1 == s * s - big_a * big_a,
    ;
    lemma_product_bound(s * s - a * a, x, k1, bound);
    lemma_product_bound(a, v, big_a, mv);
    lemma_product_bound(a, e, big_a, s);
    let sum = k1 * bound + big_a * mv + big_a * s;
    assert(-sum <= s * v2 <= sum);
    // times c, the bound on c * mv comes in
    assert(c * (big_a * mv) <= big_a * limit) by (nonlinear_arith)
        requires
            c * mv <= limit,
            big_a >= 0,
    ;
    vstd::arithmetic::mul::lemma_mul_is_distributive_add(c, k1 * bound + big_a * mv, big_a * s);
    vstd::arithmetic::mul::lemma_mul_is_distributive_add(c, k1 * bound, big_a * mv);
    vstd::arithmetic::mul::lemma_mul_is_associative(c, k1, bound);
    vstd::arithmetic::mul::lemma_mul_is_associative(c, big_a, s);
    assert(c * sum == c * k1 * bound + c * (big_a * mv) + c * big_a * s);
    let span = c * (s + big_a);
    let reach = span * bound;
    assert(k1 == span) by (nonlinear_arith)
        requires
            k1 == s * s - big_a * big_a,
            span == c * (s + big_a),
            c == s - big_a,
    ;
    assert(c * k1 * bound == c * reach) by (nonlinear_arith)
        requires
            k1 == span,
            reach == span * bound,
    ;
    assert(limit == reach + big_a * s);
    assert(big_a * limit == big_a * reach + big_a * (big_a * s)) by (nonlinear_arith)
        requires
            limit == reach + big_a * s,
    ;
    assert(s * limit == s * reach + s * (big_a * s)) by (nonlinear_arith)
        requires
            limit == reach + big_a * s,
    ;
    assert(c * reach + big_a * reach == s * reach) by (nonlinear_arith)
        requires
            c == s - big_a,
    ;
    assert(big_a * (big_a * s) + c * big_a * s == s * (big_a * s)) by (nonlinear_arith)
        requires
            c == s - big_a,
    ;
    assert(c * k1 * bound + big_a * limit + c * big_a * s == s * limit);
    assert(c * sum <= s * limit);
    let mv2 = magnitude(v2);
    assert(s * mv2 <= sum) by (nonlinear_arith)
        requires
            -sum <= s * v2 <= sum,
            mv2 == v2 || mv2 == -v2,
    ;
    assert(s * (c * mv2) <= s * limit) by (nonlinear_arith)
        requires
            s * mv2 <= sum,
            c * sum <= s * limit,
            c > 0,
    ;
    lemma_cancel_factor(s, c * mv2, limit);
    // the output
    lemma_product_bound(a, x, big_a, bound);
    let msy = magnitude(sy);
    assert(msy <= big_a * bound + mv + s);
    assert(c * msy <= c * (big_a * bound) + c * mv + c * s) by (nonlinear_arith)
        requires
            msy <= big_a * bound + mv + s,
            c > 0,
    ;
    assert(c * (big_a * bound) + limit + c * s == c * bound * (s + 2 * big_a) + s * s)
        by (nonlinear_arith)
        requires
            c == s - big_a,
            limit == c * (s + big_a) * bound + big_a * s,
    ;
}

/// An all-pass filter at rest is settled for every bound.
pub proof fn lemma_all_pass_at_rest(alpha: Fixed, bound: int)
    requires
        -SCALE < alpha@ < SCALE,
        0 <= bound,
    ensures
        all_pass_settled(primary_at_rest(PrimaryFilterType::AllPass, alpha), bound),
{
    let a = magnitude(alpha@);
    let c = SCALE - a;
    assert(alpha@ * 0 == 0);
    assert(c * 0 == 0);
    assert(c * (SCALE + a) * bound + a * SCALE >= 0) by (nonlinear_arith)
        requires
            c > 0,
            a >= 0,
            bound >= 0,
            SCALE > 0,
    ;
}

/// An all-pass filter whose coefficient lies strictly between -1 and 1 is
/// stable. Where it is settled for inputs within `bound` and takes such an
/// input, it is settled afterwards, and with `a` the magnitude of its
/// coefficient its output `y` keeps to
/// `|y| <= (1 + 2 a) * bound + 1 / (1 - a)` units of 2^-32:
/// at most three times the bound and the number one.
#[verifier::rlimit(40)]
pub proof fn lemma_all_pass_bounded(m: PrimaryModel, x: Fixed, bound: int)
    requires
        m.kind == PrimaryFilterType::AllPass,
        -SCALE < m.alpha@ < SCALE,
        0 <= bound <= input_limit(),
        -bound <= x@ <= bound,
        -bound <= m.prev_in@ <= bound,
        all_pass_settled(m, bound),
    ensures
        all_pass_settled(primary_next(m, x), bound),
        -bound <= primary_next(m, x).prev_in@ <= bound,
        ({
            let a = magnitude(m.alpha@);
            (SCALE - a) * SCALE * magnitude(primary_response(m, x)@) <= (SCALE - a) * bound * (SCALE
                + 2 * a) + SCALE * SCALE
        }),
        magnitude(primary_response(m, x)@) <= 3 * bound + SCALE,
        -SCALE <= all_pass_rounding(m, x) <= SCALE,
{
    let s = SCALE as int;
    let a = m.alpha@;
    let big_a = magnitude(a);
    let c = s - big_a;
    let v = all_pass_store(m);
    let mv = magnitude(v);
    let limit = c * (s + big_a) * bound + big_a * s;
    // what is stored up is at most (1 + a) bound + a / (1 - a), so below 2 bound + 1
    assert(c * mv <= c * (2 * s * bound + s * s)) by (nonlinear_arith)
        requires
            c * mv <= limit,
            limit == c * (s + big_a) * bound + big_a * s,
            0 <= big_a < s,
            c == s - big_a,
            bound >= 0,
            s > 0,
    ;
    lemma_cancel_factor(c, mv, 2 * s * bound + s * s);
    // the two products and their roundings
    let m1 = rescale(a * x@);
    let m2 = rescale(a * m.prev_out@);
    lemma_rescale_error(a * x@);
    lemma_rescale_error(a * m.prev_out@);
    lemma_product_bound(a, x@, s, bound);
    assert(-s * bound - s <= s * m1 <= s * bound + s);
    assert(-bound - 1 <= m1 <= bound + 1) by (nonlinear_arith)
        requires
            -s * bound - s <= s * m1 <= s * bound + s,
            s > 0,
    ;
    assert(a * m.prev_out@ == s * m.prev_in@ - v);
    assert(-(3 * s * bound + s * s) - s <= s * m2 <= 3 * s * bound + s * s + s) by (nonlinear_arith)
        requires
            -0x8000_0000 <= s * m2 - a * m.prev_out@ <= 0x8000_0000,
            a * m.prev_out@ == s * m.prev_in@ - v,
            -bound <= m.prev_in@ <= bound,
            -(2 * s * bound + s * s) <= v <= 2 * s * bound + s * s,
            s == 0x1_0000_0000,
    ;
    assert(-(3 * bound + s) - 1 <= m2 <= 3 * bound + s + 1) by (nonlinear_arith)
        requires
            -(3 * s * bound + s * s) - s <= s * m2 <= 3 * s * bound + s * s + s,
            s > 0,
    ;
    // nothing saturates
    let y = primary_response(m, x);
    assert(m.alpha.mul(x)@ == m1);
    assert(m.alpha.mul(m.prev_out)@ == m2);
    assert(y@ == m1 + m.prev_in@ - m2);
    let e = (s * m1 - a * x@) - (s * m2 - a * m.prev_out@);
    let sy = s * y@;
    assert(sy == a * x@ + v + e) by (nonlinear_arith)
        requires
            sy == s * y@,
            y@ == m1 + m.prev_in@ - m2,
            e == (s * m1 - a * x@) - (s * m2 - a * m.prev_out@),
            v == s * m.prev_in@ - a * m.prev_out@,
    ;
    let next = primary_next(m, x);
    let v2 = all_pass_store(next);
    assert(v2 == s * x@ - a * y@);
    assert(s * v2 == s * s * x@ - a * sy) by (nonlinear_arith)
        requires
            v2 == s * x@ - a * y@,
            sy == s * y@,
    ;
    lemma_all_pass_core(s, a, big_a, c, bound, x@, v, e, sy, v2);
    // the plain bound on the output
    let my = magnitude(y@);
    assert(magnitude(sy) == s * my) by (nonlinear_arith)
        requires
            sy == s * y@,
            s > 0,
            my == magnitude(y@),
    ;
    assert(c * (s * my) <= c * (s * (3 * bound + s))) by (nonlinear_arith)
        requires
            c * (s * my) <= c * bound * (s + 2 * big_a) + s * s,
            0 <= big_a < s,
            c == s - big_a,
            bound >= 0,
            c >= 1,
    ;
    lemma_cancel_factor(c, s * my, s * (3 * bound + s));
    lemma_cancel_factor(s, my, 3 * bound + s);
    assert(c * s * my == c * (s * my)) by (nonlinear_arith);
    assert(all_pass_rounding(m, x) == e);
}

/// An all-pass filter neither adds nor takes energy, up to its roundings.
/// With `k = 1 - alpha^2`, `y` the output for the input `x`, `v` what the
/// filter has stored up before and `v2` afterwards, and `e` what the
/// roundings add: `k y^2 + v2^2 = k x^2 + (v + e)^2`, where `e` is at most
/// one unit of 2^-32. So over any stretch of samples the energy that
/// comes out is the energy that went in, but for what is stored up at its
/// ends and for the roundings: the gain is one at every frequency.
pub proof fn lemma_all_pass_energy(m: PrimaryModel, x: Fixed, bound: int)
    requires
        m.kind == PrimaryFilterType::AllPass,
        -SCALE < m.alpha@ < SCALE,
        0 <= bound <= input_limit(),
        -bound <= x@ <= bound,
        -bound <= m.prev_in@ <= bound,
        all_pass_settled(m, bound),
    ensures
        ({
            let k = SCALE * SCALE - m.alpha@ * m.alpha@;
            let y = primary_response(m, x)@;
            let v = all_pass_store(m);
            let v2 = all_pass_store(primary_next(m, x));
            let e = all_pass_rounding(m, x);
            &&& k * (y * y) + v2 * v2 == k * (x@ * x@) + (v + e) * (v + e)
            &&& -SCALE <= e <= SCALE
        }),
{
    lemma_all_pass_bounded(m, x, bound);
    let s = SCALE as int;
    let a = m.alpha@;
    let y = primary_response(m, x)@;
    let v = all_pass_store(m);
    let v2 = all_pass_store(primary_next(m, x));
    let e = all_pass_rounding(m, x);
    let k = s * s - a * a;
    assert(v2 == s * x@ - a * y);
    assert(v + e == s * y - a * x@);
    lemma_energy_identity(s, a, x@, y);
}

/// A product of two products is the product of the products of their
/// factors, taken crosswise.
proof fn lemma_regroup(a: int, b: int, c: int, d: int)
    ensures
        (a * b) * (c * d) == (a * c) * (b * d),
{
    vstd::arithmetic::mul::lemma_mul_is_associative(a * b, c, d);
    vstd::arithmetic::mul::lemma_mul_is_associative(a, b, c);
    vstd::arithmetic::mul::lemma_mul_is_commutative(b, c);
    vstd::arithmetic::mul::lemma_mul_is_associative(a, c, b);
    vstd::arithmetic::mul::lemma_mul_is_associative(a * c, b, d);
}

/// The square of a difference.
proof fn lemma_square_of_difference(p: int, q: int)
    by (nonlinear_arith)
    ensures
        (p - q) * (p - q) == p * p - 2 * (p * q) + q * q,
{
}

/// `(s^2 - a^2) y^2 + (s x - a y)^2 = (s^2 - a^2) x^2 + (s y - a x)^2`.
proof fn lemma_energy_identity(s: int, a: int, x: int, y: int)
    ensures
        (s * s - a * a) * (y * y) + (s * x - a * y) * (s * x - a * y) == (s * s - a * a) * (x * x)
            + (s * y - a * x) * (s * y - a * x),
{
    let ss = s * s;
    let aa = a * a;
    let xx = x * x;
    let yy = y * y;
    vstd::arithmetic::mul::lemma_mul_is_distributive_sub_other_way(yy, ss, aa);
    vstd::arithmetic::mul::lemma_mul_is_distributive_sub_other_way(xx, ss, aa);
    lemma_square_of_difference(s * x, a * y);
    lemma_square_of_difference(s * y, a * x);
    lemma_regroup(s, x, s, x);
    lemma_regroup(a, y, a, y);
    lemma_regroup(s, y, s, y);
    lemma_regroup(a, x, a, x);
    // both cross terms are s a x y
    lemma_regroup(s, x, a, y);
    lemma_regroup(s, y, a, x);
    vstd::arithmetic::mul::lemma_mul_is_commutative(x, y);
}

/// What a one-pole high-pass has stored up, in units of 2^-64: with the
/// coefficient `alpha` it is `prev_out - alpha * prev_in`.
pub open spec fn high_pass_store(m: PrimaryModel) -> int {
    SCALE * m.prev_out@ - m.alpha@ * m.prev_in@
}

/// Whether a one-pole high-pass is settled for inputs within `bound`: what
/// it has stored up is at most `alpha * bound + 1 / (2 (1 - alpha))` units
/// in magnitude.
pub open spec fn high_pass_settled(m: PrimaryModel, bound: int) -> bool {
    let c = SCALE - m.alpha@;
    2 * c * magnitude(high_pass_store(m)) <= 2 * c * m.alpha@ * bound + SCALE * SCALE
}

/// The step of the high-pass bound, over plain integers: `s` stands for the
/// scale, `v` for what is stored up and `v2` for what is stored up
/// afterwards.
#[verifier::rlimit(40)]
proof fn lemma_high_pass_core(
    s: int,
    a: int,
    c: int,
    bound: int,
    p_in: int,
    v: int,
    e: int,
    v2: int,
)
    requires
        s > 0,
        0 <= a < s,
        c == s - a,
        0 <= bound,
        -bound <= p_in <= bound,
        2 * c * magnitude(v) <= 2 * c * a * bound + s * s,
        -s <= 2 * e <= s,
        s * v2 == a * v - a * c * p_in + s * e,
    ensures
        2 * c * magnitude(v2) <= 2 * c * a * bound + s * s,
{
    let mv = magnitude(v);
    let limit = 2 * c * a * bound + s * s;
    lemma_product_bound(a, v, a, mv);
    lemma_product_bound(a * c, p_in, a * c, bound);
    assert(a * c >= 0) by (nonlinear_arith)
        requires
            a >= 0,
            c > 0,
    ;
    assert(-(s * s) <= 2 * (s * e) <= s * s) by (nonlinear_arith)
        requires
            -s <= 2 * e <= s,
            s > 0,
    ;
    let mv2 = magnitude(v2);
    assert(2 * (s * mv2) <= 2 * (a * mv) + 2 * (a * c * bound) + s * s) by (nonlinear_arith)
        requires
            s * v2 == a * v - a * c * p_in + s * e,
            -(a * mv) <= a * v <= a * mv,
            -(a * c * bound) <= a * c * p_in <= a * c * bound,
            -(s * s) <= 2 * (s * e) <= s * s,
            mv2 == magnitude(v2),
            s > 0,
    ;
    assert(c * (2 * (a * mv)) <= a * limit) by (nonlinear_arith)
        requires
            2 * c * mv <= limit,
            a >= 0,
    ;
    assert(c * (2 * (s * mv2)) <= c * (2 * (a * mv)) + c * (2 * (a * c * bound)) + c * (s * s))
        by (nonlinear_arith)
        requires
            2 * (s * mv2) <= 2 * (a * mv) + 2 * (a * c * bound) + s * s,
            c > 0,
    ;
    let reach = 2 * c * a * bound;
    assert(limit == reach + s * s);
    assert(c * (2 * (a * c * bound)) == c * reach) by (nonlinear_arith)
        requires
            reach == 2 * c * a * bound,
    ;
    assert(a * limit == a * reach + a * (s * s)) by (nonlinear_arith)
        requires
            limit == reach + s * s,
    ;
    assert(s * limit == s * reach + s * (s * s)) by (nonlinear_arith)
        requires
            limit == reach + s * s,
    ;
    assert(a * reach + c * reach == s * reach) by (nonlinear_arith)
        requires
            c == s - a,
    ;
    assert(a * (s * s) + c * (s * s) == s * (s * s)) by (nonlinear_arith)
        requires
            c == s - a,
    ;
    assert(a * limit + c * (2 * (a * c * bound)) + c * (s * s) == s * limit);
    assert(s * (2 * c * mv2) == c * (2 * (s * mv2))) by (nonlinear_arith);
    lemma_cancel_factor(s, 2 * c * mv2, limit);
}

/// A one-pole high-pass at rest is settled for every bound.
pub proof fn lemma_high_pass_at_rest(alpha: Fixed, bound: int)
    requires
        0 <= alpha@ < SCALE,
        0 <= bound,
    ensures
        high_pass_settled(primary_at_rest(PrimaryFilterType::HighPass, alpha), bound),
{
    let c = SCALE - alpha@;
    assert(alpha@ * 0 == 0);
    assert(2 * c * 0 == 0);
    assert(2 * c * alpha@ * bound + SCALE * SCALE >= 0) by (nonlinear_arith)
        requires
            c > 0,
            alpha@ >= 0,
            bound >= 0,
    ;
}

/// A one-pole high-pass whose coefficient is at least 0 and below 1 is
/// stable. Where it is settled for inputs within `bound` and takes such an
/// input, it is settled afterwards, and its output `y` keeps to
/// `|y| <= 2 alpha * bound + 1 / (2 (1 - alpha))` units of 2^-32:
/// at most twice the bound and the number one.
#[verifier::rlimit(40)]
pub proof fn lemma_high_pass_bounded(m: PrimaryModel, x: Fixed, bound: int)
    requires
        m.kind == PrimaryFilterType::HighPass,
        0 <= m.alpha@ < SCALE,
        0 <= bound <= input_limit(),
        -bound <= x@ <= bound,
        -bound <= m.prev_in@ <= bound,
        high_pass_settled(m, bound),
    ensures
        high_pass_settled(primary_next(m, x), bound),
        -bound <= primary_next(m, x).prev_in@ <= bound,
        2 * (SCALE - m.alpha@) * SCALE * magnitude(primary_response(m, x)@) <= 4 * m.alpha@ * (SCALE
            - m.alpha@) * bound + SCALE * SCALE,
        magnitude(primary_response(m, x)@) <= 2 * bound + SCALE,
{
    let s = SCALE as int;
    let a = m.alpha@;
    let c = s - a;
    let v = high_pass_store(m);
    let mv = magnitude(v);
    let limit = 2 * c * a * bound + s * s;
    // what is stored up is below bound + 1, so the previous output is below 2 bound + 1
    assert(2 * c * mv <= 2 * c * (s * bound + s * s)) by (nonlinear_arith)
        requires
            2 * c * mv <= limit,
            limit == 2 * c * a * bound + s * s,
            0 <= a < s,
            c == s - a,
            bound >= 0,
    ;
    lemma_cancel_factor(2 * c, mv, s * bound + s * s);
    lemma_product_bound(a, m.prev_in@, s, bound);
    assert(-(2 * s * bound + s * s) <= s * m.prev_out@ <= 2 * s * bound + s * s)
        by (nonlinear_arith)
        requires
            v == s * m.prev_out@ - a * m.prev_in@,
            mv <= s * bound + s * s,
            mv == magnitude(v),
            -(s * bound) <= a * m.prev_in@ <= s * bound,
    ;
    assert(-(2 * bound + s) <= m.prev_out@ <= 2 * bound + s) by (nonlinear_arith)
        requires
            -(2 * s * bound + s * s) <= s * m.prev_out@ <= 2 * s * bound + s * s,
            s > 0,
    ;
    // nothing saturates
    let t = m.prev_out@ + x@ - m.prev_in@;
    assert(m.prev_out.add(x).sub(m.prev_in)@ == t);
    let y = primary_response(m, x);
    lemma_rescale_error(a * t);
    lemma_product_bound(a, t, s, 4 * bound + s);
    let r = rescale(a * t);
    assert(-(4 * bound + s) - 1 <= r <= 4 * bound + s + 1) by (nonlinear_arith)
        requires
            -0x8000_0000 <= s * r - a * t <= 0x8000_0000,
            -(s * (4 * bound + s)) <= a * t <= s * (4 * bound + s),
            s == 0x1_0000_0000,
    ;
    assert(y@ == r);
    let e = s * r - a * t;
    let next = primary_next(m, x);
    let v2 = high_pass_store(next);
    assert(v2 == s * y@ - a * x@);
    // both sides less s * e are a * s * (prev_out - prev_in)
    let w = m.prev_out@ - m.prev_in@;
    assert(v2 - e == a * w) by (nonlinear_arith)
        requires
            v2 - e == a * t - a * x@,
            t - x@ == w,
    ;
    assert(s * v2 - s * e == s * (a * w)) by (nonlinear_arith)
        requires
            v2 - e == a * w,
    ;
    assert(c * m.prev_in@ == s * m.prev_in@ - a * m.prev_in@) by (nonlinear_arith)
        requires
            c == s - a,
    ;
    assert(v - c * m.prev_in@ == s * w) by (nonlinear_arith)
        requires
            v == s * m.prev_out@ - a * m.prev_in@,
            c * m.prev_in@ == s * m.prev_in@ - a * m.prev_in@,
            w == m.prev_out@ - m.prev_in@,
    ;
    assert(a * v - a * (c * m.prev_in@) == a * (s * w)) by (nonlinear_arith)
        requires
            v - c * m.prev_in@ == s * w,
    ;
    vstd::arithmetic::mul::lemma_mul_is_associative(a, c, m.prev_in@);
    vstd::arithmetic::mul::lemma_mul_is_associative(a, s, w);
    vstd::arithmetic::mul::lemma_mul_is_associative(s, a, w);
    vstd::arithmetic::mul::lemma_mul_is_commutative(a, s);
    assert(s * v2 == a * v - a * c * m.prev_in@ + s * e);
    lemma_high_pass_core(s, a, c, bound, m.prev_in@, v, e, v2);
    // the output
    let my = magnitude(y@);
    let mv2 = magnitude(v2);
    lemma_product_bound(a, x@, a, bound);
    assert(s * my <= mv2 + a * bound) by (nonlinear_arith)
        requires
            v2 == s * y@ - a * x@,
            -(a * bound) <= a * x@ <= a * bound,
            my == magnitude(y@),
            mv2 == magnitude(v2),
            s > 0,
    ;
    assert(2 * c * (s * my) <= 2 * c * mv2 + 2 * c * (a * bound)) by (nonlinear_arith)
        requires
            s * my <= mv2 + a * bound,
            c > 0,
    ;
    assert(2 * c * s * my == 2 * c * (s * my)) by (nonlinear_arith);
    assert(2 * c * (a * bound) == 2 * c * a * bound) by (nonlinear_arith);
    assert(4 * a * c * bound == 2 * c * a * bound + 2 * c * a * bound) by (nonlinear_arith);
    assert(2 * c * (s * my) <= 2 * c * (s * (2 * bound + s))) by (nonlinear_arith)
        requires
            2 * c * (s * my) <= 4 * a * c * bound + s * s,
            0 <= a < s,
            c == s - a,
            bound >= 0,
    ;
    lemma_cancel_factor(2 * c, s * my, s * (2 * bound + s));
    lemma_cancel_factor(s, my, 2 * bound + s);
}

/// At a sample rate from 8000 to 192000 hertz, the coefficient of an
/// all-pass stage whose pole is not zero lies strictly between -1 and 1.
pub proof fn lemma_stage_coefficient_range(sample_rate: Fixed, pole: u64)
    requires
        8000 * SCALE <= sample_rate@ <= 192000 * SCALE,
        pole_rate(pole)@ > 0,
    ensures
        -SCALE < all_pass_coefficient(sample_rate, pole)@ < SCALE,
{
    let s = SCALE as int;
    let f = sample_rate@;
    let c = pole_rate(pole)@;
    assert(0 <= pole * POLE_SCALE_RAW <= 0xffff_ffff_ffff_ffff * POLE_SCALE_RAW)
        by (nonlinear_arith)
        requires
            0 <= pole <= 0xffff_ffff_ffff_ffff,
            POLE_SCALE_RAW > 0,
    ;
    vstd::arithmetic::div_mod::lemma_div_is_ordered(
        pole * POLE_SCALE_RAW + 500_000_000_000_000,
        0xffff_ffff_ffff_ffff * POLE_SCALE_RAW + 500_000_000_000_000,
        POLE_UNIT as int,
    );
    assert(c <= 74_670_908_866_994_191);
    let num = f - c;
    let den = f + c;
    assert(sample_rate.sub(pole_rate(pole))@ == num);
    assert(sample_rate.add(pole_rate(pole))@ == den);
    let q = (num * s) / den;
    vstd::arithmetic::div_mod::lemma_fundamental_div_mod(num * s, den);
    vstd::arithmetic::div_mod::lemma_mod_bound(num * s, den);
    let r = (num * s) % den;
    assert(q < s) by (nonlinear_arith)
        requires
            num * s == den * q + r,
            0 <= r,
            num < den,
            den > 0,
            s > 0,
    ;
    // the quotient is above -s: num * s + den * s = 2 f s is at least den
    assert(q > -s) by (nonlinear_arith)
        requires
            num * s == den * q + r,
            r < den,
            num + den == 2 * f,
            2 * f * s >= den,
            den > 0,
            s > 0,
    ;
}

/// At a sample rate from 8000 to 192000 hertz, all eight coefficients of a
/// phase network lie strictly between -1 and 1: its stages are stable.
pub proof fn lemma_phase_coefficients_range(sample_rate: Fixed, k: int)
    requires
        8000 * SCALE <= sample_rate@ <= 192000 * SCALE,
        0 <= k < 4,
    ensures
        -SCALE < direct_coefficients(sample_rate)[k]@ < SCALE,
        -SCALE < quadrature_coefficients(sample_rate)[k]@ < SCALE,
{
    lemma_stage_coefficient_range(sample_rate, crate::phase::DIRECT_POLE_0);
    lemma_stage_coefficient_range(sample_rate, crate::phase::DIRECT_POLE_1);
    lemma_stage_coefficient_range(sample_rate, crate::phase::DIRECT_POLE_2);
    lemma_stage_coefficient_range(sample_rate, crate::phase::DIRECT_POLE_3);
    lemma_stage_coefficient_range(sample_rate, crate::phase::QUADRATURE_POLE_0);
    lemma_stage_coefficient_range(sample_rate, crate::phase::QUADRATURE_POLE_1);
    lemma_stage_coefficient_range(sample_rate, crate::phase::QUADRATURE_POLE_2);
    lemma_stage_coefficient_range(sample_rate, crate::phase::QUADRATURE_POLE_3);
}

/// The coefficient of the one-pole low-pass is above zero for every sample
/// rate and cutoff: the filter always moves.
pub proof fn lemma_low_pass_alpha_positive(sample_rate: Fixed, cutoff: Fixed)
    ensures
        low_pass_alpha(sample_rate, cutoff)@ > 0,
{
}

/// For a sample rate above zero and up to 2^30 hertz and a cutoff from zero
/// to 2^26 hertz, the coefficient of the one-pole low-pass lies strictly
/// between 0 and 1 and that of the high-pass from 0 to 1; for a cutoff
/// above zero that of the high-pass lies below 1, and for one below half
/// the sample rate it lies above 0.
pub proof fn lemma_one_pole_alpha_range(sample_rate: Fixed, cutoff: Fixed)
    requires
        0 < sample_rate@ <= 0x4000_0000_0000_0000,
        0 <= cutoff@ <= 0x400_0000_0000_0000,
    ensures
        0 < low_pass_alpha(sample_rate, cutoff)@ < SCALE,
        0 <= high_pass_alpha(sample_rate, cutoff)@ <= SCALE,
        cutoff@ > 0 ==> high_pass_alpha(sample_rate, cutoff)@ < SCALE,
        2 * cutoff@ < sample_rate@ ==> high_pass_alpha(sample_rate, cutoff)@ > 0,
{
    let s = SCALE as int;
    let f = sample_rate@;
    let w = angular_rate(cutoff);
    assert(TWO_PI_RAW * cutoff@ >= 0) by (nonlinear_arith)
        requires
            cutoff@ >= 0,
            TWO_PI_RAW > 0,
    ;
    lemma_rescale_ordered(0, TWO_PI_RAW * cutoff@);
    assert(w@ >= 0);
    assert(TWO_PI_RAW * cutoff@ <= (7 * cutoff@) * s) by (nonlinear_arith)
        requires
            cutoff@ >= 0,
            TWO_PI_RAW <= 7 * s,
            s > 0,
    ;
    lemma_rescale_ordered(TWO_PI_RAW * cutoff@, (7 * cutoff@) * s);
    lemma_times_unit(7 * cutoff@);
    assert(w@ <= 7 * cutoff@);
    let den = sample_rate.add(w);
    assert(den@ >= w@ && den@ >= f && den@ > 0);
    assert(den@ > w@);
    assert(0 <= w@ * s < den@ * s) by (nonlinear_arith)
        requires
            0 <= w@ < den@,
            s > 0,
    ;
    assert(0 <= f * s <= den@ * s) by (nonlinear_arith)
        requires
            0 <= f <= den@,
            s > 0,
    ;
    vstd::arithmetic::div_mod::lemma_div_is_ordered(0, w@ * s, den@);
    vstd::arithmetic::div_mod::lemma_div_is_ordered(0, f * s, den@);
    vstd::arithmetic::div_mod::lemma_div_is_ordered(f * s, den@ * s, den@);
    vstd::arithmetic::div_mod::lemma_div_multiples_vanish(s, den@);
    // the quotient of the low-pass is below the scale
    let ql = (w@ * s) / den@;
    vstd::arithmetic::div_mod::lemma_fundamental_div_mod(w@ * s, den@);
    vstd::arithmetic::div_mod::lemma_mod_bound(w@ * s, den@);
    assert(ql < s) by (nonlinear_arith)
        requires
            w@ * s == den@ * ql + (w@ * s) % den@,
            0 <= (w@ * s) % den@,
            w@ * s < den@ * s,
            den@ > 0,
    ;
    let q = (f * s) / den@;
    vstd::arithmetic::div_mod::lemma_fundamental_div_mod(f * s, den@);
    vstd::arithmetic::div_mod::lemma_mod_bound(f * s, den@);
    if cutoff@ > 0 {
        // 2π times one unit is more than one unit, so the rate is above zero
        assert(TWO_PI_RAW * cutoff@ >= TWO_PI_RAW) by (nonlinear_arith)
            requires
                cutoff@ >= 1,
                TWO_PI_RAW > 0,
        ;
        lemma_rescale_ordered(TWO_PI_RAW as int, TWO_PI_RAW * cutoff@);
        assert(w@ >= 1);
        assert(q < s) by (nonlinear_arith)
            requires
                f * s == den@ * q + (f * s) % den@,
                0 <= (f * s) % den@,
                0 < f < den@,
                s > 0,
        ;
    }
    if 2 * cutoff@ < f {
        // 2π cutoff is below 4 times the sample rate, so the quotient is at
        // least a fifth
        assert(TWO_PI_RAW * cutoff@ <= TWO_PI_RAW * f) by (nonlinear_arith)
            requires
                0 <= cutoff@ <= f,
                TWO_PI_RAW > 0,
        ;
        assert(TWO_PI_RAW * f <= (7 * f) * s) by (nonlinear_arith)
            requires
                f > 0,
                TWO_PI_RAW <= 7 * s,
                s > 0,
        ;
        lemma_rescale_ordered(TWO_PI_RAW * cutoff@, (7 * f) * s);
        lemma_times_unit(7 * f);
        assert(w@ <= 7 * f);
        assert(den@ <= 8 * f);
        assert(q >= 1) by (nonlinear_arith)
            requires
                f * s == den@ * q + (f * s) % den@,
                (f * s) % den@ < den@,
                0 < den@ <= 8 * f,
                s == 0x1_0000_0000,
                f > 0,
        ;
    }
}

/// A one-pole low-pass whose coefficient lies between 0 and 1 gives out a
/// sample that lies between its previous output and its input. So where
/// the input never leaves an interval, neither does the output: the filter
/// is stable.
pub proof fn lemma_low_pass_stays_between(m: PrimaryModel, x: Fixed)
    requires
        m.kind == PrimaryFilterType::LowPass,
        0 <= m.alpha@ <= SCALE,
        proper(m.prev_out),
        proper(x),
    ensures
        m.prev_out@ <= x@ ==> m.prev_out@ <= primary_response(m, x)@ <= x@,
        x@ <= m.prev_out@ ==> x@ <= primary_response(m, x)@ <= m.prev_out@,
        proper(primary_response(m, x)),
{
    let s = SCALE as int;
    let a = m.alpha@;
    let delta = x.sub(m.prev_out);
    lemma_times_unit(delta@);
    assert(s * delta@ == delta@ * s) by (nonlinear_arith);
    assert(rescale(0) == 0);
    if delta@ >= 0 {
        assert(0 <= a * delta@ <= s * delta@) by (nonlinear_arith)
            requires
                0 <= a <= s,
                delta@ >= 0,
        ;
        lemma_rescale_ordered(0, a * delta@);
        lemma_rescale_ordered(a * delta@, delta@ * s);
    } else {
        assert(s * delta@ <= a * delta@ <= 0) by (nonlinear_arith)
            requires
                0 <= a <= s,
                delta@ < 0,
        ;
        lemma_rescale_ordered(a * delta@, 0);
        lemma_rescale_ordered(delta@ * s, a * delta@);
    }
}

} // verus!
