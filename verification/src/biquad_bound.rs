//! A bound on what a second-order filter holds while its input stays
//! within a bound: the filter is stable, roundings included, wherever its
//! poles are a pair of complex numbers strictly inside the unit circle.

use crate::filter::{
    biquad_next, biquad_response, biquad_silent, biquad_wide_output, biquad_wide_z1,
    biquad_wide_z2, high_pass_model, lemma_high_pass_shape, lemma_low_pass_shape,
    low_pass_model, representable, BiquadModel,
};
use crate::fixed::{
    lemma_rescale_error, lemma_rescale_odd, lemma_rescale_ordered, rescale, Fixed, SCALE,
};
use vstd::prelude::*;

verus! {

/// The energy that a second-order filter with the denominator coefficients
/// `a1`, `a2` holds in the state `(x1, x2)`, in units of 2^-96:
/// `a2 x1^2 - a1 x1 x2 + x2^2`. One step without input or rounding
/// multiplies it by `a2`.
pub open spec fn energy(s: int, a1: int, a2: int, x1: int, x2: int) -> int {
    a2 * (x1 * x1) - a1 * (x1 * x2) + s * (x2 * x2)
}

/// What the energy of a sum exceeds the sum of the energies by.
pub open spec fn cross(s: int, a1: int, a2: int, v1: int, v2: int, u1: int, u2: int) -> int {
    a2 * (2 * (v1 * u1)) - a1 * (v1 * u2 + v2 * u1) + s * (2 * (v2 * u2))
}

/// `(f x + g y) (f z + g w) = f^2 x z + f g (x w + y z) + g^2 y w`.
#[verifier::rlimit(40)]
proof fn lemma_expand(f: int, g: int, x: int, y: int, z: int, w: int)
    ensures
        (f * x + g * y) * (f * z + g * w) == (f * f) * (x * z) + (f * g) * (x * w + y * z) + (g * g)
            * (y * w),
{
    let fx = f * x;
    let gy = g * y;
    let fz = f * z;
    let gw = g * w;
    assert((fx + gy) * (fz + gw) == fx * fz + fx * gw + gy * fz + gy * gw) by (nonlinear_arith);
    assert(fx * fz == (f * f) * (x * z)) by (nonlinear_arith)
        requires
            fx == f * x,
            fz == f * z,
    ;
    assert(fx * gw == (f * g) * (x * w)) by (nonlinear_arith)
        requires
            fx == f * x,
            gw == g * w,
    ;
    assert(gy * fz == (f * g) * (y * z)) by (nonlinear_arith)
        requires
            gy == g * y,
            fz == f * z,
    ;
    assert(gy * gw == (g * g) * (y * w)) by (nonlinear_arith)
        requires
            gy == g * y,
            gw == g * w,
    ;
    assert((f * g) * (x * w) + (f * g) * (y * z) == (f * g) * (x * w + y * z))
        by (nonlinear_arith);
}

/// `k (A p + B c + C q) = A (k p) + B (k c) + C (k q)`.
proof fn lemma_scale_three(k: int, a: int, b: int, c: int, p: int, m: int, q: int)
    ensures
        k * (a * p + b * m + c * q) == a * (k * p) + b * (k * m) + c * (k * q),
{
    assert(k * (a * p + b * m + c * q) == k * (a * p) + k * (b * m) + k * (c * q))
        by (nonlinear_arith);
    assert(k * (a * p) == a * (k * p)) by (nonlinear_arith);
    assert(k * (b * m) == b * (k * m)) by (nonlinear_arith);
    assert(k * (c * q) == c * (k * q)) by (nonlinear_arith);
}

/// `k (a p - b m + c q) = (k a) p - (k b) m + (k c) q`.
proof fn lemma_scale_form(k: int, a: int, b: int, c: int, p: int, m: int, q: int)
    ensures
        k * (a * p - b * m + c * q) == (k * a) * p - (k * b) * m + (k * c) * q,
{
    vstd::arithmetic::mul::lemma_mul_is_distributive_add(k, a * p - b * m, c * q);
    vstd::arithmetic::mul::lemma_mul_is_distributive_sub(k, a * p, b * m);
    vstd::arithmetic::mul::lemma_mul_is_associative(k, a, p);
    vstd::arithmetic::mul::lemma_mul_is_associative(k, b, m);
    vstd::arithmetic::mul::lemma_mul_is_associative(k, c, q);
}

/// The energy is a quadratic form: the energy of `f v + g u` is
/// `f^2 energy(v) + f g cross(v, u) + g^2 energy(u)`.
#[verifier::rlimit(40)]
pub proof fn lemma_energy_of_sum(
    s: int,
    a1: int,
    a2: int,
    f: int,
    g: int,
    v1: int,
    v2: int,
    u1: int,
    u2: int,
)
    ensures
        energy(s, a1, a2, f * v1 + g * u1, f * v2 + g * u2) == (f * f) * energy(s, a1, a2, v1, v2)
            + (f * g) * cross(s, a1, a2, v1, v2, u1, u2) + (g * g) * energy(s, a1, a2, u1, u2),
{
    let ff = f * f;
    let fg = f * g;
    let gg = g * g;
    lemma_expand(f, g, v1, u1, v1, u1);
    lemma_expand(f, g, v1, u1, v2, u2);
    lemma_expand(f, g, v2, u2, v2, u2);
    assert(v1 * u1 + u1 * v1 == 2 * (v1 * u1)) by (nonlinear_arith);
    assert(v2 * u2 + u2 * v2 == 2 * (v2 * u2)) by (nonlinear_arith);
    assert(v1 * u2 + u1 * v2 == v1 * u2 + v2 * u1) by (nonlinear_arith);
    lemma_scale_three(a2, ff, fg, gg, v1 * v1, 2 * (v1 * u1), u1 * u1);
    lemma_scale_three(a1, ff, fg, gg, v1 * v2, v1 * u2 + v2 * u1, u1 * u2);
    lemma_scale_three(s, ff, fg, gg, v2 * v2, 2 * (v2 * u2), u2 * u2);
    let e11 = ff * (v1 * v1) + fg * (2 * (v1 * u1)) + gg * (u1 * u1);
    let e12 = ff * (v1 * v2) + fg * (v1 * u2 + v2 * u1) + gg * (u1 * u2);
    let e22 = ff * (v2 * v2) + fg * (2 * (v2 * u2)) + gg * (u2 * u2);
    assert(energy(s, a1, a2, f * v1 + g * u1, f * v2 + g * u2) == a2 * e11 - a1 * e12 + s * e22);
    let ev = energy(s, a1, a2, v1, v2);
    let eu = energy(s, a1, a2, u1, u2);
    let x = cross(s, a1, a2, v1, v2, u1, u2);
    assert(ff * ev == ff * (a2 * (v1 * v1)) - ff * (a1 * (v1 * v2)) + ff * (s * (v2 * v2)))
        by (nonlinear_arith)
        requires
            ev == a2 * (v1 * v1) - a1 * (v1 * v2) + s * (v2 * v2),
    ;
    assert(gg * eu == gg * (a2 * (u1 * u1)) - gg * (a1 * (u1 * u2)) + gg * (s * (u2 * u2)))
        by (nonlinear_arith)
        requires
            eu == a2 * (u1 * u1) - a1 * (u1 * u2) + s * (u2 * u2),
    ;
    assert(fg * x == fg * (a2 * (2 * (v1 * u1))) - fg * (a1 * (v1 * u2 + v2 * u1)) + fg * (s * (2
        * (v2 * u2)))) by (nonlinear_arith)
        requires
            x == a2 * (2 * (v1 * u1)) - a1 * (v1 * u2 + v2 * u1) + s * (2 * (v2 * u2)),
    ;
}

/// One step without input or rounding multiplies the energy by `a2`: for
/// `v = (-a1 z1 + s z2, -a2 z1)`, which is `s` times the next state,
/// `energy(v) = s a2 energy(z)`.
#[verifier::rlimit(40)]
pub proof fn lemma_energy_scales(s: int, a1: int, a2: int, z1: int, z2: int)
    ensures
        energy(s, a1, a2, -a1 * z1 + s * z2, -a2 * z1) == (s * a2) * energy(s, a1, a2, z1, z2),
{
    // v is z1 times (-a1, -a2) plus z2 times (s, 0)
    lemma_energy_of_sum(s, a1, a2, z1, z2, -a1, -a2, s, 0);
    assert(z1 * (-a1) + z2 * s == -a1 * z1 + s * z2) by (nonlinear_arith);
    assert(z1 * (-a2) + z2 * 0 == -a2 * z1) by (nonlinear_arith);
    let e1 = energy(s, a1, a2, -a1, -a2);
    let e2 = energy(s, a1, a2, s, 0);
    let x = cross(s, a1, a2, -a1, -a2, s, 0);
    assert(e1 == s * (a2 * a2)) by (nonlinear_arith)
        requires
            e1 == a2 * ((-a1) * (-a1)) - a1 * ((-a1) * (-a2)) + s * ((-a2) * (-a2)),
    ;
    assert(e2 == a2 * (s * s)) by (nonlinear_arith)
        requires
            e2 == a2 * (s * s) - a1 * (s * 0) + s * (0 * 0),
    ;
    assert(x == -(a1 * (a2 * s))) by (nonlinear_arith)
        requires
            x == a2 * (2 * ((-a1) * s)) - a1 * ((-a1) * 0 + (-a2) * s) + s * (2 * ((-a2) * 0)),
    ;
    let sa = s * a2;
    assert((z1 * z1) * e1 == sa * (a2 * (z1 * z1))) by (nonlinear_arith)
        requires
            e1 == s * (a2 * a2),
            sa == s * a2,
    ;
    assert((z1 * z2) * x == -(sa * (a1 * (z1 * z2)))) by (nonlinear_arith)
        requires
            x == -(a1 * (a2 * s)),
            sa == s * a2,
    ;
    assert((z2 * z2) * e2 == sa * (s * (z2 * z2))) by (nonlinear_arith)
        requires
            e2 == a2 * (s * s),
            sa == s * a2,
    ;
    let e = energy(s, a1, a2, z1, z2);
    assert(sa * e == sa * (a2 * (z1 * z1)) - sa * (a1 * (z1 * z2)) + sa * (s * (z2 * z2)))
        by (nonlinear_arith)
        requires
            e == a2 * (z1 * z1) - a1 * (z1 * z2) + s * (z2 * z2),
    ;
}

/// Where the poles are a pair of complex numbers, `a1^2 <= 4 a2` with
/// `a2` above zero, no state has an energy below zero, and the energy
/// bounds both parts of the state: `(4 a2 - a1^2) x1^2 <= 4 energy`.
#[verifier::rlimit(40)]
pub proof fn lemma_energy_positive(s: int, a1: int, a2: int, x1: int, x2: int)
    requires
        s > 0,
        a2 > 0,
        a1 * a1 <= 4 * (a2 * s),
    ensures
        energy(s, a1, a2, x1, x2) >= 0,
        (4 * (a2 * s) - a1 * a1) * (x1 * x1) <= (4 * s) * energy(s, a1, a2, x1, x2),
        (4 * (a2 * s) - a1 * a1) * (x2 * x2) <= (4 * a2) * energy(s, a1, a2, x1, x2),
{
    let e = energy(s, a1, a2, x1, x2);
    let gap = 4 * (a2 * s) - a1 * a1;
    let p = x1 * x1;
    let m = x1 * x2;
    let q = x2 * x2;
    let k1 = a2 * a2;
    let k2 = a1 * a2;
    let k3 = a1 * a1;
    let k4 = a2 * s;
    let k5 = s * s;
    let k6 = a1 * s;
    assert(x2 * x1 == m) by (nonlinear_arith)
        requires
            m == x1 * x2,
    ;
    // 4 a2 e = (2 a2 x1 - a1 x2)^2 + gap x2^2
    let t = (2 * a2) * x1 + (-a1) * x2;
    lemma_expand(2 * a2, -a1, x1, x2, x1, x2);
    assert((2 * a2) * (2 * a2) == 4 * k1 && (2 * a2) * (-a1) == -(2 * k2) && (-a1) * (-a1) == k3)
        by (nonlinear_arith)
        requires
            k1 == a2 * a2,
            k2 == a1 * a2,
            k3 == a1 * a1,
    ;
    assert(t * t == (4 * k1) * p + (-(2 * k2)) * (m + m) + k3 * q);
    assert(t * t >= 0) by (nonlinear_arith);
    lemma_scale_form(a2, a2, a1, s, p, m, q);
    vstd::arithmetic::mul::lemma_mul_is_commutative(a2, a1);
    vstd::arithmetic::mul::lemma_mul_is_associative(4, a2, e);
    assert((4 * a2) * e == 4 * (k1 * p) - 4 * (k2 * m) + 4 * (k4 * q));
    assert((4 * k1) * p + (-(2 * k2)) * (m + m) + k3 * q == 4 * (k1 * p) - 4 * (k2 * m) + k3 * q)
        by (nonlinear_arith);
    assert(gap * q == 4 * (k4 * q) - k3 * q) by (nonlinear_arith)
        requires
            gap == 4 * k4 - k3,
    ;
    assert((4 * a2) * e == t * t + gap * q);
    assert(gap * q >= 0) by (nonlinear_arith)
        requires
            gap >= 0,
            q == x2 * x2,
    ;
    assert(e >= 0) by (nonlinear_arith)
        requires
            (4 * a2) * e >= 0,
            a2 > 0,
    ;
    // 4 s e = (2 s x2 - a1 x1)^2 + gap x1^2
    let r = (2 * s) * x2 + (-a1) * x1;
    lemma_expand(2 * s, -a1, x2, x1, x2, x1);
    assert((2 * s) * (2 * s) == 4 * k5 && (2 * s) * (-a1) == -(2 * k6)) by (nonlinear_arith)
        requires
            k5 == s * s,
            k6 == a1 * s,
    ;
    assert(r * r == (4 * k5) * q + (-(2 * k6)) * (m + m) + k3 * p);
    assert(r * r >= 0) by (nonlinear_arith);
    lemma_scale_form(s, a2, a1, s, p, m, q);
    vstd::arithmetic::mul::lemma_mul_is_commutative(s, a2);
    vstd::arithmetic::mul::lemma_mul_is_commutative(s, a1);
    vstd::arithmetic::mul::lemma_mul_is_associative(4, s, e);
    assert((4 * s) * e == 4 * (k4 * p) - 4 * (k6 * m) + 4 * (k5 * q));
    assert((4 * k5) * q + (-(2 * k6)) * (m + m) + k3 * p == 4 * (k5 * q) - 4 * (k6 * m) + k3 * p)
        by (nonlinear_arith);
    assert(gap * p == 4 * (k4 * p) - k3 * p) by (nonlinear_arith)
        requires
            gap == 4 * k4 - k3,
    ;
    assert((4 * s) * e == r * r + gap * p);
}

/// Whether a state is settled for inputs that add at most the energy `w`
/// in one step: with `p = 1 - a2`, its energy is at most
/// `2 (1 + a2) w / p^2`.
pub open spec fn state_settled(s: int, a1: int, a2: int, z1: int, z2: int, w: int) -> bool {
    ((s - a2) * (s - a2)) * (s * energy(s, a1, a2, z1, z2)) <= (2 * (s + a2)) * w
}

/// From `k u <= k v` with `k` above zero follows `u <= v`.
proof fn lemma_cancel(k: int, u: int, v: int)
    by (nonlinear_arith)
    requires
        k > 0,
        k * u <= k * v,
    ensures
        u <= v,
{
}

/// One step of a second-order filter keeps a settled state settled. Here
/// `(n1, n2)` is the state after the step and `(u1, u2)` is what the input
/// and the roundings add: `s n1 = -a1 z1 + s z2 + u1` and
/// `s n2 = -a2 z1 + u2`.
#[verifier::rlimit(40)]
pub proof fn lemma_energy_step(
    s: int,
    a1: int,
    a2: int,
    z1: int,
    z2: int,
    n1: int,
    n2: int,
    u1: int,
    u2: int,
    w: int,
)
    requires
        s > 0,
        0 < a2 < s,
        a1 * a1 <= 4 * (a2 * s),
        s * n1 == (-a1 * z1 + s * z2) + u1,
        s * n2 == (-a2 * z1) + u2,
        energy(s, a1, a2, u1, u2) <= w,
        state_settled(s, a1, a2, z1, z2, w),
    ensures
        state_settled(s, a1, a2, n1, n2, w),
{
    let v1 = -a1 * z1 + s * z2;
    let v2 = -a2 * z1;
    let p = s - a2;
    let r = 2 * a2;
    let c = s + a2;
    let e = energy(s, a1, a2, z1, z2);
    let en = energy(s, a1, a2, n1, n2);
    let ev = energy(s, a1, a2, v1, v2);
    let eu = energy(s, a1, a2, u1, u2);
    let x = cross(s, a1, a2, v1, v2, u1, u2);
    lemma_energy_scales(s, a1, a2, z1, z2);
    assert(ev == (s * a2) * e);
    // s^2 en = ev + x + eu
    lemma_energy_of_sum(s, a1, a2, s, 0, n1, n2, 0, 0);
    assert(s * n1 + 0 * 0 == s * n1 && s * n2 + 0 * 0 == s * n2);
    assert((s * 0) * cross(s, a1, a2, n1, n2, 0, 0) == 0 && (0 * 0) * energy(s, a1, a2, 0, 0)
        == 0) by (nonlinear_arith);
    lemma_energy_of_sum(s, a1, a2, 1, 1, v1, v2, u1, u2);
    assert(1 * v1 + 1 * u1 == s * n1 && 1 * v2 + 1 * u2 == s * n2);
    assert((1 * 1) * ev == ev && (1 * 1) * x == x && (1 * 1) * eu == eu);
    let ss = s * s;
    assert(ss * en == ev + x + eu);
    // p r x <= p^2 ev + r^2 eu, as the energy of p v - r u is not below zero
    lemma_energy_of_sum(s, a1, a2, p, -r, v1, v2, u1, u2);
    lemma_energy_positive(s, a1, a2, p * v1 + (-r) * u1, p * v2 + (-r) * u2);
    let pp = p * p;
    let pr = p * r;
    let rr = r * r;
    assert(p * (-r) == -pr && (-r) * (-r) == rr) by (nonlinear_arith)
        requires
            pr == p * r,
            rr == r * r,
    ;
    assert((-pr) * x == -(pr * x)) by (nonlinear_arith);
    assert(pr * x <= pp * ev + rr * eu);
    // so p r s^2 en <= p c ev + r c eu
    vstd::arithmetic::mul::lemma_mul_is_distributive_add(pr, ev + x, eu);
    vstd::arithmetic::mul::lemma_mul_is_distributive_add(pr, ev, x);
    assert(pr * (ss * en) == pr * ev + pr * x + pr * eu);
    let pc = p * c;
    let rc = r * c;
    assert(pp + pr == pc && rr + pr == rc) by (nonlinear_arith)
        requires
            pp == p * p,
            pr == p * r,
            rr == r * r,
            pc == p * c,
            rc == r * c,
            c == p + r,
    ;
    vstd::arithmetic::mul::lemma_mul_is_distributive_add_other_way(ev, pp, pr);
    vstd::arithmetic::mul::lemma_mul_is_distributive_add_other_way(eu, rr, pr);
    assert(pr * (ss * en) <= pc * ev + rc * eu);
    // everything is a2 times something: divide by a2
    let left = (2 * p) * (ss * en);
    let right = pc * (s * e) + (2 * c) * eu;
    assert(pr * (ss * en) == a2 * left) by (nonlinear_arith)
        requires
            pr == p * r,
            r == 2 * a2,
            left == (2 * p) * (ss * en),
    ;
    assert(pc * ev == a2 * (pc * (s * e))) by (nonlinear_arith)
        requires
            ev == (s * a2) * e,
    ;
    assert(rc * eu == a2 * ((2 * c) * eu)) by (nonlinear_arith)
        requires
            rc == r * c,
            r == 2 * a2,
    ;
    vstd::arithmetic::mul::lemma_mul_is_distributive_add(a2, pc * (s * e), (2 * c) * eu);
    lemma_cancel(a2, left, right);
    // times p, with the settled state and the bound on eu
    let held = pp * (s * e);
    let most = (2 * c) * w;
    assert(held <= most);
    assert(eu >= 0) by {
        lemma_energy_positive(s, a1, a2, u1, u2);
    }
    assert(p * left <= p * right) by (nonlinear_arith)
        requires
            left <= right,
            p > 0,
    ;
    let se = s * e;
    vstd::arithmetic::mul::lemma_mul_is_distributive_add(p, pc * se, (2 * c) * eu);
    vstd::arithmetic::mul::lemma_mul_is_associative(p, pc, se);
    vstd::arithmetic::mul::lemma_mul_is_associative(p, p, c);
    vstd::arithmetic::mul::lemma_mul_is_commutative(pp, c);
    vstd::arithmetic::mul::lemma_mul_is_associative(c, pp, se);
    vstd::arithmetic::mul::lemma_mul_is_associative(p, 2 * c, eu);
    vstd::arithmetic::mul::lemma_mul_is_associative(p, 2, c);
    vstd::arithmetic::mul::lemma_mul_is_associative(2, p, c);
    assert(p * 2 == 2 * p);
    assert(p * right == c * held + (2 * pc) * eu);
    assert(c * held <= c * most) by (nonlinear_arith)
        requires
            held <= most,
            c > 0,
    ;
    assert((2 * pc) * eu <= (2 * pc) * w) by (nonlinear_arith)
        requires
            eu <= w,
            pc == p * c,
            p > 0,
            c > 0,
    ;
    assert(c * most + (2 * pc) * w == (2 * s) * most) by (nonlinear_arith)
        requires
            most == (2 * c) * w,
            pc == p * c,
            c + p == 2 * s,
    ;
    let held_next = pp * (s * en);
    assert(p * left == (2 * s) * held_next) by (nonlinear_arith)
        requires
            left == (2 * p) * (ss * en),
            ss == s * s,
            held_next == pp * (s * en),
            pp == p * p,
    ;
    lemma_cancel(2 * s, held_next, most);
}

/// The magnitude of `v`.
pub open spec fn size(v: int) -> int {
    if v < 0 {
        -v
    } else {
        v
    }
}

/// Whether the poles of a filter are a pair of complex numbers strictly
/// inside the unit circle: `0 < a2 < 1` and `a1^2 <= 4 a2`.
pub open spec fn poles_complex(m: BiquadModel) -> bool {
    0 < m.a2@ < SCALE && m.a1@ * m.a1@ <= 4 * (m.a2@ * SCALE)
}

/// The most that an input within `bound` and the roundings add to either
/// part of the state in one step, in units of 2^-64.
pub open spec fn biquad_drive(m: BiquadModel, bound: int) -> int {
    SCALE * (2 * rescale(size(m.b0@) * bound) + rescale(size(m.b1@) * bound) + rescale(
        size(m.b2@) * bound,
    ) + 1)
}

/// The most energy that an input within `bound` and the roundings add in
/// one step.
pub open spec fn biquad_input_energy(m: BiquadModel, bound: int) -> int {
    (4 * SCALE) * (biquad_drive(m, bound) * biquad_drive(m, bound))
}

/// Whether a filter is settled for inputs within `bound`: the energy of
/// its state is at most `2 (1 + a2) / (1 - a2)^2` times the energy that one
/// step adds.
pub open spec fn biquad_settled(m: BiquadModel, bound: int) -> bool {
    state_settled(SCALE as int, m.a1@, m.a2@, m.z1@, m.z2@, biquad_input_energy(m, bound))
}

/// A product within the product of the bounds, before and after rounding.
proof fn lemma_wide_bound(b: int, x: int, bound: int)
    requires
        -bound <= x <= bound,
    ensures
        -rescale(size(b) * bound) <= rescale(b * x) <= rescale(size(b) * bound),
        rescale(size(b) * bound) >= 0,
{
    assert(-(size(b) * bound) <= b * x <= size(b) * bound) by (nonlinear_arith)
        requires
            -bound <= x <= bound,
            size(b) == b || size(b) == -b,
            size(b) >= 0,
    ;
    lemma_rescale_ordered(b * x, size(b) * bound);
    lemma_rescale_ordered(-(size(b) * bound), b * x);
    lemma_rescale_odd(size(b) * bound);
    assert(size(b) * bound >= 0) by (nonlinear_arith)
        requires
            size(b) >= 0,
            bound >= 0,
    ;
    lemma_rescale_ordered(0, size(b) * bound);
}

/// The energy of what is added is at most four times the square of its
/// larger part.
proof fn lemma_added_energy(s: int, a1: int, a2: int, u1: int, u2: int, ub: int)
    requires
        s > 0,
        0 < a2 < s,
        -(2 * s) <= a1 <= 2 * s,
        -ub <= u1 <= ub,
        -ub <= u2 <= ub,
    ensures
        energy(s, a1, a2, u1, u2) <= (4 * s) * (ub * ub),
{
    let sq = ub * ub;
    assert(0 <= u1 * u1 <= sq && 0 <= u2 * u2 <= sq && -sq <= u1 * u2 <= sq) by (nonlinear_arith)
        requires
            -ub <= u1 <= ub,
            -ub <= u2 <= ub,
            sq == ub * ub,
    ;
    assert(a2 * (u1 * u1) <= s * sq) by (nonlinear_arith)
        requires
            0 < a2 < s,
            0 <= u1 * u1 <= sq,
    ;
    assert(-(a1 * (u1 * u2)) <= (2 * s) * sq) by (nonlinear_arith)
        requires
            -(2 * s) <= a1 <= 2 * s,
            -sq <= u1 * u2 <= sq,
            sq >= 0,
    ;
    assert(s * (u2 * u2) <= s * sq) by (nonlinear_arith)
        requires
            s > 0,
            u2 * u2 <= sq,
    ;
    assert((4 * s) * sq == s * sq + (2 * s) * sq + s * sq) by (nonlinear_arith);
}

/// A filter at rest is settled for every bound.
pub proof fn lemma_biquad_at_rest_settled(m: BiquadModel, bound: int)
    requires
        poles_complex(m),
        biquad_silent(m),
        0 <= bound,
    ensures
        biquad_settled(m, bound),
{
    let d = biquad_drive(m, bound);
    assert(d * d >= 0) by (nonlinear_arith);
    assert(energy(SCALE as int, m.a1@, m.a2@, 0, 0) == 0) by (nonlinear_arith);
    let w = biquad_input_energy(m, bound);
    assert(w >= 0) by (nonlinear_arith)
        requires
            w == (4 * SCALE) * (d * d),
            d * d >= 0,
            SCALE > 0,
    ;
    assert((2 * (SCALE + m.a2@)) * w >= 0) by (nonlinear_arith)
        requires
            w >= 0,
            m.a2@ > 0,
            SCALE > 0,
    ;
    assert(((SCALE - m.a2@) * (SCALE - m.a2@)) * (SCALE * 0) == 0) by (nonlinear_arith);
}

/// A second-order filter whose poles are a pair of complex numbers
/// strictly inside the unit circle is stable. Where it is settled for
/// inputs within `bound`, takes such an input, and the step does not
/// leave the range of the arithmetic, it is settled afterwards: the
/// energy of its state stays at most `2 (1 + a2) / (1 - a2)^2` times the
/// energy that one step adds, and with it both parts of the state stay
/// bounded: `(4 a2 - a1^2) z^2 <= 4 energy`.
#[verifier::rlimit(100)]
pub proof fn lemma_biquad_bounded(m: BiquadModel, x: Fixed, bound: int)
    requires
        poles_complex(m),
        0 <= bound,
        -bound <= x@ <= bound,
        biquad_settled(m, bound),
        representable(biquad_wide_output(m, x)),
        representable(biquad_wide_z1(m, x, biquad_wide_output(m, x))),
        representable(biquad_wide_z2(m, x, biquad_wide_output(m, x))),
    ensures
        biquad_settled(biquad_next(m, x), bound),
        poles_complex(biquad_next(m, x)),
        ({
            let n = biquad_next(m, x);
            let gap = 4 * (m.a2@ * SCALE) - m.a1@ * m.a1@;
            let held = energy(SCALE as int, m.a1@, m.a2@, n.z1@, n.z2@);
            &&& held >= 0
            &&& gap * (n.z1@ * n.z1@) <= (4 * SCALE) * held
            &&& gap * (n.z2@ * n.z2@) <= (4 * m.a2@) * held
        }),
        biquad_response(m, x)@ == rescale(m.b0@ * x@) + m.z1@,
{
    reveal(biquad_response);
    reveal(biquad_next);
    let s = SCALE as int;
    let a1 = m.a1@;
    let a2 = m.a2@;
    let y = biquad_wide_output(m, x);
    let n = biquad_next(m, x);
    let r0 = rescale(m.b0@ * x@);
    let r1 = rescale(m.b1@ * x@);
    let r2 = rescale(m.b2@ * x@);
    lemma_wide_bound(m.b0@, x@, bound);
    lemma_wide_bound(m.b1@, x@, bound);
    lemma_wide_bound(m.b2@, x@, bound);
    let c0 = rescale(size(m.b0@) * bound);
    let c1 = rescale(size(m.b1@) * bound);
    let c2 = rescale(size(m.b2@) * bound);
    let ub = biquad_drive(m, bound);
    assert(ub == s * (2 * c0 + c1 + c2 + 1));
    // |a1| < 2
    assert(-(2 * s) <= a1 <= 2 * s) by (nonlinear_arith)
        requires
            a1 * a1 <= 4 * (a2 * s),
            0 < a2 < s,
            s > 0,
    ;
    // what the input and the roundings add
    lemma_rescale_error(a1 * y);
    lemma_rescale_error(a2 * y);
    let e1 = s * rescale(a1 * y) - a1 * y;
    let e2 = s * rescale(a2 * y) - a2 * y;
    let u1 = s * r1 - a1 * r0 - e1;
    let u2 = s * r2 - a2 * r0 - e2;
    assert(y == r0 + m.z1@);
    assert(a1 * y == a1 * r0 + a1 * m.z1@) by (nonlinear_arith)
        requires
            y == r0 + m.z1@,
    ;
    assert(a2 * y == a2 * r0 + a2 * m.z1@) by (nonlinear_arith)
        requires
            y == r0 + m.z1@,
    ;
    assert(n.z1@ == r1 - rescale(a1 * y) + m.z2@);
    assert(n.z2@ == r2 - rescale(a2 * y));
    assert(s * n.z1@ == (-a1 * m.z1@ + s * m.z2@) + u1) by (nonlinear_arith)
        requires
            n.z1@ == r1 - rescale(a1 * y) + m.z2@,
            e1 == s * rescale(a1 * y) - a1 * y,
            a1 * y == a1 * r0 + a1 * m.z1@,
            u1 == s * r1 - a1 * r0 - e1,
    ;
    assert(s * n.z2@ == (-a2 * m.z1@) + u2) by (nonlinear_arith)
        requires
            n.z2@ == r2 - rescale(a2 * y),
            e2 == s * rescale(a2 * y) - a2 * y,
            a2 * y == a2 * r0 + a2 * m.z1@,
            u2 == s * r2 - a2 * r0 - e2,
    ;
    // both are within the drive
    assert(-(2 * s * c0) <= a1 * r0 <= 2 * s * c0) by (nonlinear_arith)
        requires
            -(2 * s) <= a1 <= 2 * s,
            -c0 <= r0 <= c0,
    ;
    assert(-(s * c0) <= a2 * r0 <= s * c0) by (nonlinear_arith)
        requires
            0 < a2 < s,
            -c0 <= r0 <= c0,
    ;
    assert(-(s * c1) <= s * r1 <= s * c1) by (nonlinear_arith)
        requires
            -c1 <= r1 <= c1,
            s > 0,
    ;
    assert(-(s * c2) <= s * r2 <= s * c2) by (nonlinear_arith)
        requires
            -c2 <= r2 <= c2,
            s > 0,
    ;
    assert(ub == 2 * s * c0 + s * c1 + s * c2 + s) by (nonlinear_arith)
        requires
            ub == s * (2 * c0 + c1 + c2 + 1),
    ;
    assert(s * c0 >= 0 && s * c1 >= 0 && s * c2 >= 0) by (nonlinear_arith)
        requires
            c0 >= 0,
            c1 >= 0,
            c2 >= 0,
            s > 0,
    ;
    assert(-ub <= u1 <= ub);
    assert(-ub <= u2 <= ub);
    lemma_added_energy(s, a1, a2, u1, u2, ub);
    lemma_energy_step(
        s,
        a1,
        a2,
        m.z1@,
        m.z2@,
        n.z1@,
        n.z2@,
        u1,
        u2,
        biquad_input_energy(m, bound),
    );
    lemma_energy_positive(s, a1, a2, n.z1@, n.z2@);
}

/// Whether a filter and a bound on its input leave room in the range of
/// the arithmetic: with `gap = 4 a2 - a1^2`, a state of the settled
/// energy is within `limit`, and `limit` and the products with the
/// numerator coefficients are far from the ends of the range.
pub open spec fn biquad_fits(m: BiquadModel, bound: int, limit: int) -> bool {
    let gap = 4 * (m.a2@ * SCALE) - m.a1@ * m.a1@;
    let p = SCALE - m.a2@;
    &&& gap > 0
    &&& 0 <= limit
    &&& (8 * (SCALE + m.a2@)) * biquad_input_energy(m, bound) <= ((p * p) * gap) * (limit * limit)
    &&& 4 * limit + biquad_drive(m, bound) <= i64::MAX
}

/// From `k u^2 <= k l^2` with `k` above zero and `l` not below zero
/// follows `|u| <= l`.
proof fn lemma_square_bound(k: int, u: int, l: int)
    by (nonlinear_arith)
    requires
        k > 0,
        l >= 0,
        k * (u * u) <= k * (l * l),
    ensures
        -l <= u <= l,
{
}

/// A settled filter that fits holds a state within `limit`, and a step of
/// it on an input within the bound does not leave the range of the
/// arithmetic.
#[verifier::rlimit(100)]
pub proof fn lemma_biquad_in_range(m: BiquadModel, x: Fixed, bound: int, limit: int)
    requires
        poles_complex(m),
        0 <= bound,
        -bound <= x@ <= bound,
        biquad_settled(m, bound),
        biquad_fits(m, bound, limit),
    ensures
        -limit <= m.z1@ <= limit,
        -limit <= m.z2@ <= limit,
        representable(biquad_wide_output(m, x)),
        representable(biquad_wide_z1(m, x, biquad_wide_output(m, x))),
        representable(biquad_wide_z2(m, x, biquad_wide_output(m, x))),
        -(rescale(size(m.b0@) * bound) + limit) <= biquad_wide_output(m, x) <= rescale(
            size(m.b0@) * bound,
        ) + limit,
{
    let s = SCALE as int;
    let a1 = m.a1@;
    let a2 = m.a2@;
    let p = s - a2;
    let c = s + a2;
    let gap = 4 * (a2 * s) - a1 * a1;
    let w = biquad_input_energy(m, bound);
    let e = energy(s, a1, a2, m.z1@, m.z2@);
    lemma_energy_positive(s, a1, a2, m.z1@, m.z2@);
    let pp = p * p;
    let held = pp * (s * e);
    assert(held <= (2 * c) * w);
    let k = pp * gap;
    assert(pp > 0) by (nonlinear_arith)
        requires
            pp == p * p,
            p > 0,
    ;
    assert(k > 0) by (nonlinear_arith)
        requires
            k == pp * gap,
            pp > 0,
            gap > 0,
    ;
    let q1 = m.z1@ * m.z1@;
    let q2 = m.z2@ * m.z2@;
    let ll = limit * limit;
    // the first part of the state
    let g1 = gap * q1;
    let h1 = (4 * s) * e;
    assert(pp * g1 <= pp * h1) by (nonlinear_arith)
        requires
            g1 <= h1,
            pp > 0,
    ;
    vstd::arithmetic::mul::lemma_mul_is_associative(pp, gap, q1);
    assert(pp * h1 == 4 * held) by (nonlinear_arith)
        requires
            h1 == (4 * s) * e,
            held == pp * (s * e),
    ;
    assert(k * q1 <= 4 * held);
    assert(4 * ((2 * c) * w) == (8 * c) * w) by (nonlinear_arith);
    assert(k * q1 <= k * ll);
    lemma_square_bound(k, m.z1@, limit);
    // the second part: a2 is below 1
    let sp = s * pp;
    let t1 = gap * q2;
    let t2 = (4 * a2) * e;
    assert(sp * t1 <= sp * t2) by (nonlinear_arith)
        requires
            t1 <= t2,
            sp == s * pp,
            s > 0,
            pp > 0,
    ;
    vstd::arithmetic::mul::lemma_mul_is_associative(pp, gap, q2);
    vstd::arithmetic::mul::lemma_mul_is_associative(s, pp, t1);
    assert(sp * t1 == s * (k * q2));
    assert(sp * t2 == (4 * a2) * held) by (nonlinear_arith)
        requires
            sp == s * pp,
            t2 == (4 * a2) * e,
            held == pp * (s * e),
    ;
    assert(s * (k * q2) <= (4 * a2) * held);
    assert((4 * a2) * held <= (4 * s) * held) by (nonlinear_arith)
        requires
            0 < a2 < s,
            held >= 0 || held < 0,
            held == pp * (s * e),
            e >= 0,
            pp > 0,
            s > 0,
    ;
    assert((4 * s) * held == s * (4 * held)) by (nonlinear_arith);
    assert(s * (k * q2) <= s * (k * ll)) by (nonlinear_arith)
        requires
            s * (k * q2) <= s * (4 * held),
            4 * held <= k * ll,
            s > 0,
    ;
    lemma_cancel(s, k * q2, k * ll);
    lemma_square_bound(k, m.z2@, limit);
    // the step
    lemma_wide_bound(m.b0@, x@, bound);
    lemma_wide_bound(m.b1@, x@, bound);
    lemma_wide_bound(m.b2@, x@, bound);
    let c0 = rescale(size(m.b0@) * bound);
    let c1 = rescale(size(m.b1@) * bound);
    let c2 = rescale(size(m.b2@) * bound);
    let ub = biquad_drive(m, bound);
    assert(ub == 2 * s * c0 + s * c1 + s * c2 + s) by (nonlinear_arith)
        requires
            ub == s * (2 * c0 + c1 + c2 + 1),
    ;
    assert(s * c0 >= c0 && s * c1 >= c1 && s * c2 >= c2) by (nonlinear_arith)
        requires
            c0 >= 0,
            c1 >= 0,
            c2 >= 0,
            s >= 1,
    ;
    let y = biquad_wide_output(m, x);
    assert(-(c0 + limit) <= y <= c0 + limit);
    assert(-(2 * s) <= a1 <= 2 * s) by (nonlinear_arith)
        requires
            a1 * a1 <= 4 * (a2 * s),
            0 < a2 < s,
            s > 0,
    ;
    let yb = c0 + limit;
    assert(-((2 * yb) * s) <= a1 * y <= (2 * yb) * s) by (nonlinear_arith)
        requires
            -(2 * s) <= a1 <= 2 * s,
            -yb <= y <= yb,
    ;
    assert(-(yb * s) <= a2 * y <= yb * s) by (nonlinear_arith)
        requires
            0 < a2 < s,
            -yb <= y <= yb,
    ;
    lemma_rescale_ordered(a1 * y, (2 * yb) * s);
    lemma_rescale_ordered(-((2 * yb) * s), a1 * y);
    lemma_rescale_odd((2 * yb) * s);
    crate::fixed::lemma_times_unit(2 * yb);
    lemma_rescale_ordered(a2 * y, yb * s);
    lemma_rescale_ordered(-(yb * s), a2 * y);
    lemma_rescale_odd(yb * s);
    crate::fixed::lemma_times_unit(yb);
}

/// A second-order filter is stable: where its poles are a pair of complex
/// numbers strictly inside the unit circle, it is settled for inputs
/// within `bound` and leaves room in the range, a step on such an input
/// leaves all of this as it is, and the output `y` keeps to
/// `|y| <= |b0| bound + limit`. A filter at rest is settled, so this holds
/// of every output of such a filter, however many samples it has taken.
pub proof fn lemma_biquad_stable(m: BiquadModel, x: Fixed, bound: int, limit: int)
    requires
        poles_complex(m),
        0 <= bound,
        -bound <= x@ <= bound,
        biquad_settled(m, bound),
        biquad_fits(m, bound, limit),
    ensures
        poles_complex(biquad_next(m, x)),
        biquad_settled(biquad_next(m, x), bound),
        biquad_fits(biquad_next(m, x), bound, limit),
        -(rescale(size(m.b0@) * bound) + limit) <= biquad_response(m, x)@ <= rescale(
            size(m.b0@) * bound,
        ) + limit,
{
    lemma_biquad_in_range(m, x, bound, limit);
    lemma_biquad_bounded(m, x, bound);
    reveal(biquad_next);
}

/// The second-order low-pass and the second-order high-pass are stable for
/// every sample rate and cutoff: their poles are a pair of complex numbers
/// strictly inside the unit circle, and they start settled for every
/// bound on the input. So `lemma_biquad_bounded` holds of every step of
/// theirs that does not leave the range of the arithmetic.
pub proof fn lemma_pass_filters_stable(sample_rate: Fixed, cutoff: Fixed, bound: int)
    requires
        0 <= bound,
    ensures
        poles_complex(low_pass_model(sample_rate, cutoff)),
        poles_complex(high_pass_model(sample_rate, cutoff)),
        biquad_settled(low_pass_model(sample_rate, cutoff), bound),
        biquad_settled(high_pass_model(sample_rate, cutoff), bound),
{
    lemma_low_pass_shape(sample_rate, cutoff);
    lemma_high_pass_shape(sample_rate, cutoff);
    lemma_biquad_at_rest_settled(low_pass_model(sample_rate, cutoff), bound);
    lemma_biquad_at_rest_settled(high_pass_model(sample_rate, cutoff), bound);
}

} // verus!
