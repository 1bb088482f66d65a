//! From the places of two loudspeakers and two ears, and the temperature of
//! the air, to the delays, gains and cutoffs of the canceller.
//!
//! The four paths are always listed in the order left speaker to left ear,
//! left speaker to right ear, right speaker to left ear, right speaker to
//! right ear.

use crate::fixed::{lemma_product_range, narrow, saturated, Fixed, SCALE};
use crate::roots::{
    floor_root5, floor_sqrt, lemma_floor_root5_is, lemma_floor_sqrt_monotonic,
    lemma_pow5_successor, pow5, root5_floor, sqrt_floor,
};
use vstd::prelude::*;

verus! {

/// Raw value of 273.15, the kelvin at zero degrees Celsius.
pub const ZERO_CELSIUS_RAW: i64 = 1_173_170_316_902;

/// Raw value of `1.403 * 8.314462 / 0.028966`: the adiabatic index of air
/// times the gas constant, over the molar mass of air.
pub const SOUND_FACTOR_RAW: i64 = 1_729_669_624_749;

/// The shadow cutoff of a loudspeaker straight ahead, in hertz.
pub const SHADOW_CUTOFF_MAX: i32 = 5000;

/// The places of the loudspeakers and the ears, each as `[x, y]` in metres.
#[derive(Clone, Copy, Debug)]
pub struct Geometry {
    pub left_speaker: [Fixed; 2],
    pub right_speaker: [Fixed; 2],
    pub left_ear: [Fixed; 2],
    pub right_ear: [Fixed; 2],
}

/// The distance between two points: the square root of the sum of the
/// squares of the differences of their coordinates, rounded down.
pub open spec fn point_distance(a: Seq<Fixed>, b: Seq<Fixed>) -> Fixed {
    let dx = a[0].sub(b[0]);
    let dy = a[1].sub(b[1]);
    saturated(floor_sqrt((dx@ * dx@ + dy@ * dy@) as nat) as int)
}

/// The lengths of the four paths.
pub open spec fn path_distances(g: Geometry) -> Seq<Fixed> {
    seq![
        point_distance(g.left_speaker@, g.left_ear@),
        point_distance(g.left_speaker@, g.right_ear@),
        point_distance(g.right_speaker@, g.left_ear@),
        point_distance(g.right_speaker@, g.right_ear@),
    ]
}

/// The speed of sound in metres per second at `t_c` degrees Celsius:
/// the square root of `1.403 * 8.314462 * (273.15 + t_c) / 0.028966`.
pub open spec fn sound_speed(t_c: Fixed) -> Fixed {
    Fixed::from_raw(SOUND_FACTOR_RAW).mul(Fixed::from_raw(ZERO_CELSIUS_RAW).add(t_c)).sqrt()
}

/// The frames that sound takes for each of the four paths: the distance
/// times `sample_rate / speed`.
pub open spec fn path_frames(sample_rate: Fixed, distances: Seq<Fixed>, speed: Fixed) -> Seq<
    Fixed,
> {
    Seq::new(4, |i: int| distances[i].mul(sample_rate.div(speed)))
}

/// The delays that align the two direct paths: the channel whose direct
/// path is shorter waits for the other one.
pub open spec fn main_delays(frames: Seq<Fixed>) -> Seq<Fixed> {
    if frames[0]@ > frames[3]@ {
        seq![Fixed::zero(), frames[0].sub(frames[3])]
    } else {
        seq![frames[3].sub(frames[0]), Fixed::zero()]
    }
}

/// The delays of the cancellation signals: what the crossing path to an
/// ear takes longer than the direct one, and at least one frame.
pub open spec fn crosstalk_delays(frames: Seq<Fixed>) -> Seq<Fixed> {
    seq![
        Fixed::one().max(frames[2].sub(frames[0]).abs()),
        Fixed::one().max(frames[1].sub(frames[3]).abs()),
    ]
}

/// `x` to the power 1.2, for `x` from 0 to 1: `x` times its fifth root.
/// The root is taken to 25 binary places and the product is rounded down,
/// but not below one unit: only zero has the power zero. A number outside
/// the interval is first brought to its nearer end.
pub open spec fn six_fifths_power(x: Fixed) -> Fixed {
    let q = x.clamp(Fixed::zero(), Fixed::one());
    Fixed {
        raw: ((q@ * floor_root5((q@ * 0x2000_0000_0000_0000_0000_0000) as nat)) / 0x200_0000) as i64,
    }.max(q.min(Fixed::from_raw(1)))
}

/// The shortest distance over the distance `d`, and at least one unit where
/// the shortest distance is above zero.
pub open spec fn path_ratio(shortest: Fixed, d: Fixed) -> Fixed {
    shortest.div(d).max(shortest.clamp(Fixed::zero(), Fixed::from_raw(1)))
}

/// The shortest of four distances.
pub open spec fn shortest(distances: Seq<Fixed>) -> Fixed {
    distances[0].min(distances[1]).min(distances[2]).min(distances[3])
}

/// The gain of each path: the shortest distance over the distance of the
/// path, to the power 1.2.
pub open spec fn amp_factors(distances: Seq<Fixed>) -> Seq<Fixed> {
    Seq::new(4, |i: int| six_fifths_power(path_ratio(shortest(distances), distances[i])))
}

/// The point that the shadow cutoffs are measured from: the sum of the
/// places of the two ears.
pub open spec fn listener_position(g: Geometry) -> Seq<Fixed> {
    seq![g.left_ear@[0].add(g.right_ear@[0]), g.left_ear@[1].add(g.right_ear@[1])]
}

/// The squared cosine of the angle that the direction `(dx, dy)` makes with
/// the x axis: `dx² / (dx² + dy²)`, with both magnitudes first divided by
/// the larger of them. The direction `(0, 0)` counts as the x axis itself.
pub open spec fn squared_cosine(dx: Fixed, dy: Fixed) -> Fixed {
    let m = dx.abs().max(dy.abs());
    if m.raw == 0 {
        Fixed::one()
    } else {
        let u = dx.abs().div(m);
        let v = dy.abs().div(m);
        u.mul(u).div(u.mul(u).add(v.mul(v)))
    }
}

/// The squared cosine does not tell a direction from its mirror images.
pub proof fn lemma_squared_cosine_mirrored(dx: Fixed, dy: Fixed)
    ensures
        squared_cosine(dx.neg(), dy) == squared_cosine(dx, dy),
        squared_cosine(dx, dy.neg()) == squared_cosine(dx, dy),
        squared_cosine(dx.neg(), dy.neg()) == squared_cosine(dx, dy),
{
    assert(dx.neg().abs() == dx.abs());
    assert(dy.neg().abs() == dy.abs());
}

/// The cutoff of the head-shadow low-pass for a loudspeaker at `speaker`
/// seen from `listener`: with `t` the angle of the direction from the
/// loudspeaker to the listener it is
/// `cutoff_min + (5000 - cutoff_min) cos² t`.
pub open spec fn shadow_cutoff(listener: Seq<Fixed>, speaker: Seq<Fixed>, cutoff_min: Fixed) -> Fixed {
    cutoff_min.add(
        Fixed::from_int(SHADOW_CUTOFF_MAX).sub(cutoff_min).mul(
            squared_cosine(listener[0].sub(speaker[0]), listener[1].sub(speaker[1])),
        ),
    )
}

/// Where the two direct paths are equally long, no channel waits for the
/// other: both main delays are zero.
pub proof fn lemma_symmetric_main_delays(sample_rate: Fixed, distances: Seq<Fixed>, speed: Fixed)
    requires
        distances[0] == distances[3],
    ensures
        main_delays(path_frames(sample_rate, distances, speed)) == seq![
            Fixed::zero(),
            Fixed::zero(),
        ],
{
    let f = path_frames(sample_rate, distances, speed);
    assert(f[0] == f[3]);
    assert(main_delays(f) =~= seq![Fixed::zero(), Fixed::zero()]);
}

/// Whether the right loudspeaker and the right ear are the mirror images of
/// the left ones in the y axis, with every coordinate within 2^29.
pub open spec fn mirrored(g: Geometry) -> bool {
    &&& g.right_speaker@[0]@ == -g.left_speaker@[0]@
    &&& g.right_speaker@[1] == g.left_speaker@[1]
    &&& g.right_ear@[0]@ == -g.left_ear@[0]@
    &&& g.right_ear@[1] == g.left_ear@[1]
    &&& -0x2000_0000_0000_0000 <= g.left_speaker@[0]@ <= 0x2000_0000_0000_0000
    &&& -0x2000_0000_0000_0000 <= g.left_speaker@[1]@ <= 0x2000_0000_0000_0000
    &&& -0x2000_0000_0000_0000 <= g.left_ear@[0]@ <= 0x2000_0000_0000_0000
    &&& -0x2000_0000_0000_0000 <= g.left_ear@[1]@ <= 0x2000_0000_0000_0000
}

/// In a mirrored geometry the two direct paths are equally long, and so are
/// the two crossing paths; so both main delays are zero.
pub proof fn lemma_mirrored_geometry(sample_rate: Fixed, g: Geometry, speed: Fixed)
    requires
        mirrored(g),
    ensures
        path_distances(g)[0] == path_distances(g)[3],
        path_distances(g)[1] == path_distances(g)[2],
        main_delays(path_frames(sample_rate, path_distances(g), speed)) == seq![
            Fixed::zero(),
            Fixed::zero(),
        ],
{
    let direct = g.left_speaker@[0]@ - g.left_ear@[0]@;
    let crossing = g.left_speaker@[0]@ - g.right_ear@[0]@;
    assert((-direct) * (-direct) == direct * direct) by (nonlinear_arith);
    assert((-crossing) * (-crossing) == crossing * crossing) by (nonlinear_arith);
    assert(g.right_speaker@[0].sub(g.right_ear@[0])@ == -direct);
    assert(g.right_speaker@[0].sub(g.left_ear@[0])@ == -crossing);
    lemma_symmetric_main_delays(sample_rate, path_distances(g), speed);
}

/// One to the power 1.2 is one, with no error.
pub proof fn lemma_six_fifths_of_one()
    ensures
        six_fifths_power(Fixed::one()) == Fixed::one(),
{
    assert(pow5(0x200_0000) == 0x2000_0000_0000_0000_0000_0000_0000_0000) by (nonlinear_arith);
    lemma_pow5_successor(0x200_0000);
    lemma_floor_root5_is(0x2000_0000_0000_0000_0000_0000_0000_0000, 0x200_0000);
    let q = Fixed::one().clamp(Fixed::zero(), Fixed::one());
    assert(q@ == 0x1_0000_0000);
    assert(q@ * 0x2000_0000_0000_0000_0000_0000 == 0x2000_0000_0000_0000_0000_0000_0000_0000);
    assert((q@ * 0x200_0000) / 0x200_0000 == q@);
}

/// Where every path has a length above zero, every gain lies above zero
/// and is at most one.
pub proof fn lemma_gains_in_range(distances: Seq<Fixed>, i: int)
    requires
        0 <= i < 4,
        distances[0]@ > 0,
        distances[1]@ > 0,
        distances[2]@ > 0,
        distances[3]@ > 0,
    ensures
        0 < amp_factors(distances)[i]@ <= SCALE,
{
    let x = path_ratio(shortest(distances), distances[i]);
    assert(shortest(distances)@ > 0);
    assert(x@ >= 1);
    let q = x.clamp(Fixed::zero(), Fixed::one());
    let v = (q@ * 0x2000_0000_0000_0000_0000_0000) as nat;
    crate::roots::lemma_floor_root5_exists(v);
    let r = floor_root5(v);
    if r > 0x200_0000 {
        lemma_pow5_successor(0x200_0000);
        crate::roots::lemma_pow5_monotonic(0x200_0001, r);
        assert(pow5(0x200_0000) == 0x2000_0000_0000_0000_0000_0000_0000_0000) by (nonlinear_arith);
    }
    assert(0 <= q@ * r <= 0x1_0000_0000 * 0x200_0000) by (nonlinear_arith)
        requires
            0 <= q@ <= 0x1_0000_0000,
            0 <= r <= 0x200_0000,
    ;
    vstd::arithmetic::div_mod::lemma_div_is_ordered(0, q@ * r, 0x200_0000);
    vstd::arithmetic::div_mod::lemma_div_is_ordered(
        q@ * r,
        0x200_0000_0000_0000int,
        0x200_0000,
    );
}

/// The gain of a path that is the shortest, and not of length zero, is
/// exactly one.
pub proof fn lemma_nearest_path_gain(distances: Seq<Fixed>, i: int)
    requires
        0 <= i < 4,
        distances[i] == shortest(distances),
        distances[i]@ > 0,
    ensures
        amp_factors(distances)[i] == Fixed::one(),
{
    let d = distances[i];
    assert((d@ * 0x1_0000_0000) / d@ == 0x1_0000_0000) by (nonlinear_arith)
        requires
            d@ > 0,
    ;
    assert(d.div(d) == Fixed::one());
    lemma_six_fifths_of_one();
}

/// The speed of sound does not fall as the air warms.
pub proof fn lemma_sound_speed_rises(cold: Fixed, warm: Fixed)
    requires
        cold@ <= warm@,
    ensures
        sound_speed(cold)@ <= sound_speed(warm)@,
{
    let factor = Fixed::from_raw(SOUND_FACTOR_RAW);
    let k_cold = Fixed::from_raw(ZERO_CELSIUS_RAW).add(cold);
    let k_warm = Fixed::from_raw(ZERO_CELSIUS_RAW).add(warm);
    assert(k_cold@ <= k_warm@);
    assert(factor@ * k_cold@ <= factor@ * k_warm@) by (nonlinear_arith)
        requires
            k_cold@ <= k_warm@,
            factor@ > 0,
    ;
    vstd::arithmetic::div_mod::lemma_div_is_ordered(
        factor@ * k_cold@ + 0x8000_0000,
        factor@ * k_warm@ + 0x8000_0000,
        SCALE as int,
    );
    let p_cold = factor.mul(k_cold);
    let p_warm = factor.mul(k_warm);
    assert(p_cold@ <= p_warm@);
    if p_cold@ > 0 {
        lemma_floor_sqrt_monotonic(
            (p_cold@ * 0x1_0000_0000) as nat,
            (p_warm@ * 0x1_0000_0000) as nat,
        );
    }
}

/// The distance between two points.
pub fn distance(a: &[Fixed; 2], b: &[Fixed; 2]) -> (d: Fixed)
    ensures
        d == point_distance(a@, b@),
{
    let dx = a[0].sub(b[0]);
    let dy = a[1].sub(b[1]);
    proof {
        lemma_product_range(dx@, dx@);
        lemma_product_range(dy@, dy@);
        assert(dx@ * dx@ >= 0) by (nonlinear_arith);
        assert(dy@ * dy@ >= 0) by (nonlinear_arith);
    }
    let sx: u128 = ((dx.raw as i128) * (dx.raw as i128)) as u128;
    let sy: u128 = ((dy.raw as i128) * (dy.raw as i128)) as u128;
    narrow(sqrt_floor(sx + sy) as i128)
}

/// The lengths of the four paths.
pub fn calc_distance(pos: &Geometry) -> (d: [Fixed; 4])
    ensures
        d@ == path_distances(*pos),
{
    let d = [
        distance(&pos.left_speaker, &pos.left_ear),
        distance(&pos.left_speaker, &pos.right_ear),
        distance(&pos.right_speaker, &pos.left_ear),
        distance(&pos.right_speaker, &pos.right_ear),
    ];
    assert(d@ =~= path_distances(*pos));
    d
}

/// The speed of sound at `t_c` degrees Celsius.
pub fn calc_speed_of_sound(t_c: Fixed) -> (c: Fixed)
    ensures
        c == sound_speed(t_c),
{
    let t_k = Fixed::from_raw(ZERO_CELSIUS_RAW).add(t_c);
    Fixed::from_raw(SOUND_FACTOR_RAW).mul(t_k).sqrt()
}

/// The main delays and the crosstalk delays, in frames, each for the left
/// and the right channel.
pub fn calc_delay_frames(sample_rate: Fixed, distances: [Fixed; 4], speed_of_sound: Fixed) -> (delays:
    [[Fixed; 2]; 2])
    ensures
        delays@[0]@ == main_delays(path_frames(sample_rate, distances@, speed_of_sound)),
        delays@[1]@ == crosstalk_delays(path_frames(sample_rate, distances@, speed_of_sound)),
{
    let k = sample_rate.div(speed_of_sound);
    let ls2le = distances[0].mul(k);
    let ls2re = distances[1].mul(k);
    let rs2le = distances[2].mul(k);
    let rs2re = distances[3].mul(k);
    let main = if ls2le.raw > rs2re.raw {
        [Fixed::zero(), ls2le.sub(rs2re)]
    } else {
        [rs2re.sub(ls2le), Fixed::zero()]
    };
    let ct = [Fixed::one().max(rs2le.sub(ls2le).abs()), Fixed::one().max(ls2re.sub(rs2re).abs())];
    proof {
        let f = path_frames(sample_rate, distances@, speed_of_sound);
        assert(f[0] == ls2le && f[1] == ls2re && f[2] == rs2le && f[3] == rs2re);
        assert(main@ =~= main_delays(f));
        assert(ct@ =~= crosstalk_delays(f));
    }
    [main, ct]
}

/// `x` to the power 1.2, for `x` from 0 to 1.
pub fn pow_six_fifths(x: Fixed) -> (y: Fixed)
    ensures
        y == six_fifths_power(x),
        0 <= y@ <= 0x1_0000_0000,
{
    let q = x.clamp(Fixed::zero(), Fixed::one());
    let wide: u128 = (q.raw as u128) * 0x2000_0000_0000_0000_0000_0000u128;
    let root = root5_floor(wide);
    proof {
        // The root of a number that is at most 2^125 is at most 2^25.
        let r = root as nat;
        if r > 0x200_0000 {
            crate::roots::lemma_pow5_successor(0x200_0000);
            crate::roots::lemma_pow5_monotonic(0x200_0001, r);
            assert(crate::roots::pow5(0x200_0000) == 0x2000_0000_0000_0000_0000_0000_0000_0000)
                by (nonlinear_arith);
        }
        assert(q@ * r <= 0x1_0000_0000 * 0x200_0000) by (nonlinear_arith)
            requires
                0 <= q@ <= 0x1_0000_0000,
                0 <= r <= 0x200_0000,
        ;
        assert(q@ * r >= 0) by (nonlinear_arith)
            requires
                0 <= q@,
                0 <= r,
        ;
    }
    let product: u128 = (q.raw as u128) * (root as u128);
    Fixed { raw: (product / 0x200_0000u128) as i64 }.max(q.min(Fixed::from_raw(1)))
}

/// The gain of each path.
pub fn calc_amp_factors(distances: [Fixed; 4]) -> (gains: [Fixed; 4])
    ensures
        gains@ == amp_factors(distances@),
{
    let min_distance = distances[0].min(distances[1]).min(distances[2]).min(distances[3]);
    let least = min_distance.clamp(Fixed::zero(), Fixed::from_raw(1));
    let gains = [
        pow_six_fifths(min_distance.div(distances[0]).max(least)),
        pow_six_fifths(min_distance.div(distances[1]).max(least)),
        pow_six_fifths(min_distance.div(distances[2]).max(least)),
        pow_six_fifths(min_distance.div(distances[3]).max(least)),
    ];
    assert(gains@ =~= amp_factors(distances@));
    gains
}

/// The point that the shadow cutoffs are measured from.
pub fn calc_listener_position(pos: &Geometry) -> (p: [Fixed; 2])
    ensures
        p@ == listener_position(*pos),
{
    let p = [pos.left_ear[0].add(pos.right_ear[0]), pos.left_ear[1].add(pos.right_ear[1])];
    assert(p@ =~= listener_position(*pos));
    p
}

/// The cutoff of the head-shadow low-pass for the loudspeaker at `coord2`
/// seen from `coord1`.
pub fn calc_shadow_cutoff(coord1: [Fixed; 2], coord2: [Fixed; 2], cutoff_min: Fixed) -> (cutoff: Fixed)
    ensures
        cutoff == shadow_cutoff(coord1@, coord2@, cutoff_min),
{
    let dx = coord1[0].sub(coord2[0]);
    let dy = coord1[1].sub(coord2[1]);
    let m = dx.abs().max(dy.abs());
    let cos2 = if m.raw == 0 {
        Fixed::one()
    } else {
        let u = dx.abs().div(m);
        let v = dy.abs().div(m);
        u.mul(u).div(u.mul(u).add(v.mul(v)))
    };
    cutoff_min.add(Fixed::from_int(SHADOW_CUTOFF_MAX).sub(cutoff_min).mul(cos2))
}

} // verus!
