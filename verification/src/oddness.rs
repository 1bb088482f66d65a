//! The canceller is odd: fed with the negated signal it gives the negated
//! output, sample for sample and with no error, because every product is
//! rounded alike on both sides of zero and every sum saturates alike.

use crate::ctc_engine::{
    cancellation_sum, channel_direct, channel_next, channel_output, channel_quadrature,
    channel_shadow, channel_tap, engine_after, engine_at_rest, engine_last_output, engine_next,
    engine_output, engine_silent, left_residual, lemma_at_rest_is_silent, right_residual,
    ChannelModel, EngineModel,
};
use crate::delay::{
    delay_advance, delay_read, delay_store, delay_well_formed, tap_fraction, tap_index,
    tap_successor, DelayModel, RING_LEN,
};
use crate::filter::{
    biquad_next, biquad_response, biquad_wide_output, biquad_wide_z1, biquad_wide_z2,
    primary_next, primary_response, BiquadModel, PrimaryFilterType, PrimaryModel,
};
use crate::fixed::{lemma_rescale_odd, Fixed};
use crate::phase::{cascade_next, cascade_response, cascade_tap, phase_well_formed};
use vstd::prelude::*;

verus! {

/// Whether `y` is the negative of `x`.
pub open spec fn opposite(x: Fixed, y: Fixed) -> bool {
    y@ == -x@
}

/// Products, sums and differences of opposite numbers are opposite, and so
/// are opposite numbers limited to an interval about zero.
pub proof fn lemma_opposite_arithmetic(a: Fixed, x1: Fixed, y1: Fixed, x2: Fixed, y2: Fixed)
    requires
        opposite(x1, y1),
        opposite(x2, y2),
    ensures
        opposite(a.mul(x1), a.mul(y1)),
        opposite(x1.mul(a), y1.mul(a)),
        opposite(x1.add(x2), y1.add(y2)),
        opposite(x1.sub(x2), y1.sub(y2)),
        opposite(
            x1.clamp(Fixed::one().neg(), Fixed::one()),
            y1.clamp(Fixed::one().neg(), Fixed::one()),
        ),
{
    assert(a@ * y1@ == -(a@ * x1@)) by (nonlinear_arith)
        requires
            y1@ == -x1@,
    ;
    assert(y1@ * a@ == -(x1@ * a@)) by (nonlinear_arith)
        requires
            y1@ == -x1@,
    ;
    lemma_rescale_odd(a@ * x1@);
    lemma_rescale_odd(x1@ * a@);
}

/// Whether two first-order filters are alike but for the sign of what
/// they remember.
pub open spec fn primary_opposite(m: PrimaryModel, n: PrimaryModel) -> bool {
    &&& m.kind == n.kind
    &&& m.alpha == n.alpha
    &&& opposite(m.prev_in, n.prev_in)
    &&& opposite(m.prev_out, n.prev_out)
}

/// Opposite first-order filters answer opposite inputs with opposite
/// outputs and stay opposite.
pub proof fn lemma_primary_odd(m: PrimaryModel, n: PrimaryModel, x: Fixed, y: Fixed)
    requires
        primary_opposite(m, n),
        opposite(x, y),
    ensures
        opposite(primary_response(m, x), primary_response(n, y)),
        primary_opposite(primary_next(m, x), primary_next(n, y)),
{
    let a = m.alpha;
    match m.kind {
        PrimaryFilterType::AllPass => {
            lemma_opposite_arithmetic(a, x, y, m.prev_in, n.prev_in);
            lemma_opposite_arithmetic(a, m.prev_out, n.prev_out, x, y);
            lemma_opposite_arithmetic(a, a.mul(x), a.mul(y), m.prev_in, n.prev_in);
            lemma_opposite_arithmetic(
                a,
                a.mul(x).add(m.prev_in),
                a.mul(y).add(n.prev_in),
                a.mul(m.prev_out),
                a.mul(n.prev_out),
            );
        },
        PrimaryFilterType::HighPass => {
            lemma_opposite_arithmetic(a, m.prev_out, n.prev_out, x, y);
            lemma_opposite_arithmetic(
                a,
                m.prev_out.add(x),
                n.prev_out.add(y),
                m.prev_in,
                n.prev_in,
            );
            lemma_opposite_arithmetic(
                a,
                m.prev_out.add(x).sub(m.prev_in),
                n.prev_out.add(y).sub(n.prev_in),
                x,
                y,
            );
        },
        PrimaryFilterType::LowPass => {
            lemma_opposite_arithmetic(a, x, y, m.prev_out, n.prev_out);
            lemma_opposite_arithmetic(a, x.sub(m.prev_out), y.sub(n.prev_out), x, y);
            lemma_opposite_arithmetic(
                a,
                m.prev_out,
                n.prev_out,
                a.mul(x.sub(m.prev_out)),
                a.mul(y.sub(n.prev_out)),
            );
        },
    }
}

/// Whether two cascades of four stages are opposite stage by stage.
pub open spec fn cascade_opposite(m: Seq<PrimaryModel>, n: Seq<PrimaryModel>) -> bool {
    &&& m.len() == 4
    &&& n.len() == 4
    &&& forall|k: int| 0 <= k < 4 ==> primary_opposite(#[trigger] m[k], n[k])
}

/// Opposite cascades answer opposite inputs with opposite outputs and stay
/// opposite.
#[verifier::rlimit(40)]
pub proof fn lemma_cascade_odd(m: Seq<PrimaryModel>, n: Seq<PrimaryModel>, x: Fixed, y: Fixed)
    requires
        cascade_opposite(m, n),
        opposite(x, y),
    ensures
        opposite(cascade_response(m, x), cascade_response(n, y)),
        cascade_opposite(cascade_next(m, x), cascade_next(n, y)),
{
    reveal_with_fuel(cascade_tap, 4);
    assert(primary_opposite(m[0], n[0]));
    assert(primary_opposite(m[1], n[1]));
    assert(primary_opposite(m[2], n[2]));
    assert(primary_opposite(m[3], n[3]));
    lemma_primary_odd(m[0], n[0], x, y);
    lemma_primary_odd(m[1], n[1], cascade_tap(m, x, 0), cascade_tap(n, y, 0));
    lemma_primary_odd(m[2], n[2], cascade_tap(m, x, 1), cascade_tap(n, y, 1));
    lemma_primary_odd(m[3], n[3], cascade_tap(m, x, 2), cascade_tap(n, y, 2));
}

/// Whether two second-order filters are alike but for the sign of their
/// state.
pub open spec fn biquad_opposite(m: BiquadModel, n: BiquadModel) -> bool {
    &&& m.b0 == n.b0
    &&& m.b1 == n.b1
    &&& m.b2 == n.b2
    &&& m.a1 == n.a1
    &&& m.a2 == n.a2
    &&& opposite(m.z1, n.z1)
    &&& opposite(m.z2, n.z2)
}

/// Opposite second-order filters answer opposite inputs with opposite
/// outputs and stay opposite.
pub proof fn lemma_biquad_odd(m: BiquadModel, n: BiquadModel, x: Fixed, y: Fixed)
    requires
        biquad_opposite(m, n),
        opposite(x, y),
    ensures
        opposite(biquad_response(m, x), biquad_response(n, y)),
        biquad_opposite(biquad_next(m, x), biquad_next(n, y)),
{
    reveal(biquad_response);
    reveal(biquad_next);
    assert(m.b0@ * y@ == -(m.b0@ * x@)) by (nonlinear_arith)
        requires
            y@ == -x@,
    ;
    assert(m.b1@ * y@ == -(m.b1@ * x@)) by (nonlinear_arith)
        requires
            y@ == -x@,
    ;
    assert(m.b2@ * y@ == -(m.b2@ * x@)) by (nonlinear_arith)
        requires
            y@ == -x@,
    ;
    lemma_rescale_odd(m.b0@ * x@);
    lemma_rescale_odd(m.b1@ * x@);
    lemma_rescale_odd(m.b2@ * x@);
    let out = biquad_wide_output(m, x);
    assert(biquad_wide_output(n, y) == -out);
    assert(m.a1@ * (-out) == -(m.a1@ * out)) by (nonlinear_arith);
    assert(m.a2@ * (-out) == -(m.a2@ * out)) by (nonlinear_arith);
    lemma_rescale_odd(m.a1@ * out);
    lemma_rescale_odd(m.a2@ * out);
    assert(biquad_wide_z1(n, y, -out) == -biquad_wide_z1(m, x, out));
    assert(biquad_wide_z2(n, y, -out) == -biquad_wide_z2(m, x, out));
}

/// Whether two delay lines are written at the same index and hold
/// opposite samples.
pub open spec fn delay_opposite(m: DelayModel, n: DelayModel) -> bool {
    &&& delay_well_formed(m)
    &&& delay_well_formed(n)
    &&& m.write_index == n.write_index
    &&& forall|i: int| 0 <= i < RING_LEN ==> opposite(#[trigger] m.samples[i], n.samples[i])
}

/// Opposite delay lines give opposite samples at every delay, and stay
/// opposite when opposite samples are stored and when both move on.
pub proof fn lemma_delay_odd(m: DelayModel, n: DelayModel, delay: Fixed, x: Fixed, y: Fixed)
    requires
        delay_opposite(m, n),
        opposite(x, y),
    ensures
        opposite(delay_read(m, delay), delay_read(n, delay)),
        delay_opposite(delay_store(m, x), delay_store(n, y)),
        delay_opposite(delay_advance(m), delay_advance(n)),
{
    let i = tap_index(m, delay);
    let j = tap_successor(m, delay);
    let f = tap_fraction(m, delay);
    assert(opposite(m.samples[i], n.samples[i]));
    assert(opposite(m.samples[j], n.samples[j]));
    lemma_opposite_arithmetic(f, m.samples[j], n.samples[j], m.samples[i], n.samples[i]);
    lemma_opposite_arithmetic(
        f,
        m.samples[j].sub(m.samples[i]),
        n.samples[j].sub(n.samples[i]),
        m.samples[i],
        n.samples[i],
    );
    lemma_opposite_arithmetic(
        f,
        m.samples[i],
        n.samples[i],
        f.mul(m.samples[j].sub(m.samples[i])),
        f.mul(n.samples[j].sub(n.samples[i])),
    );
    let ms = delay_store(m, x);
    let ns = delay_store(n, y);
    assert forall|k: int| 0 <= k < RING_LEN implies opposite(
        #[trigger] ms.samples[k],
        ns.samples[k],
    ) by {
        if k != m.write_index {
            assert(opposite(m.samples[k], n.samples[k]));
        }
    }
}

/// Whether two channels are alike but for the sign of everything that
/// they hold.
pub open spec fn channel_opposite(m: ChannelModel, n: ChannelModel) -> bool {
    &&& cascade_opposite(m.phase.direct, n.phase.direct)
    &&& cascade_opposite(m.phase.quadrature, n.phase.quadrature)
    &&& delay_opposite(m.main, n.main)
    &&& delay_opposite(m.cross, n.cross)
    &&& biquad_opposite(m.low_pass, n.low_pass)
    &&& biquad_opposite(m.high_pass, n.high_pass)
    &&& biquad_opposite(m.low_shelf, n.low_shelf)
    &&& m.main_delay == n.main_delay
    &&& m.ct_delay == n.ct_delay
}

/// Whether two cancellers are alike but for the sign of everything that
/// they hold. A canceller at rest is opposite to itself.
pub open spec fn engine_opposite(m: EngineModel, n: EngineModel) -> bool {
    channel_opposite(m.left, n.left) && channel_opposite(m.right, n.right)
}

/// Opposite channels give opposite direct and cancellation signals.
proof fn lemma_channel_head_odd(m: ChannelModel, n: ChannelModel, x: Fixed, y: Fixed)
    requires
        channel_opposite(m, n),
        opposite(x, y),
    ensures
        opposite(channel_direct(m, x), channel_direct(n, y)),
        opposite(channel_shadow(m), channel_shadow(n)),
{
    lemma_cascade_odd(m.phase.direct, n.phase.direct, x, y);
    lemma_delay_odd(m.cross, n.cross, m.ct_delay, x, y);
    lemma_biquad_odd(m.low_pass, n.low_pass, channel_tap(m), channel_tap(n));
}

/// Opposite channels answer opposite inputs and cancellation sums with
/// opposite outputs and stay opposite.
#[verifier::rlimit(40)]
proof fn lemma_channel_odd(
    m: ChannelModel,
    n: ChannelModel,
    x: Fixed,
    y: Fixed,
    res_m: Fixed,
    res_n: Fixed,
)
    requires
        channel_opposite(m, n),
        opposite(x, y),
        opposite(res_m, res_n),
    ensures
        opposite(channel_output(m, res_m), channel_output(n, res_n)),
        channel_opposite(channel_next(m, x, res_m), channel_next(n, y, res_n)),
{
    lemma_cascade_odd(m.phase.direct, n.phase.direct, x, y);
    lemma_cascade_odd(m.phase.quadrature, n.phase.quadrature, x, y);
    lemma_delay_odd(m.cross, n.cross, m.ct_delay, x, y);
    lemma_biquad_odd(m.low_pass, n.low_pass, channel_tap(m), channel_tap(n));
    lemma_biquad_odd(m.low_shelf, n.low_shelf, res_m, res_n);
    let trim_m = biquad_response(m.low_shelf, res_m);
    let trim_n = biquad_response(n.low_shelf, res_n);
    lemma_delay_odd(m.main, n.main, m.main_delay, trim_m, trim_n);
    let stored_m = delay_store(m.main, trim_m);
    let stored_n = delay_store(n.main, trim_n);
    lemma_delay_odd(stored_m, stored_n, m.main_delay, trim_m, trim_n);
    lemma_opposite_arithmetic(
        trim_m,
        delay_read(stored_m, m.main_delay),
        delay_read(stored_n, n.main_delay),
        trim_m,
        trim_n,
    );
    let quad_m = channel_quadrature(m, x);
    let quad_n = channel_quadrature(n, y);
    lemma_biquad_odd(m.high_pass, n.high_pass, quad_m, quad_n);
    let fb_m = biquad_response(m.high_pass, quad_m);
    let fb_n = biquad_response(n.high_pass, quad_n);
    lemma_delay_odd(m.cross, n.cross, m.ct_delay, fb_m, fb_n);
    lemma_delay_odd(delay_store(m.cross, fb_m), delay_store(n.cross, fb_n), m.ct_delay, fb_m, fb_n);
}

/// Opposite numbers give opposite cancellation sums.
proof fn lemma_sum_odd(
    d_m: Fixed,
    d_n: Fixed,
    own: Fixed,
    o_m: Fixed,
    o_n: Fixed,
    attenuation: Fixed,
    cross: Fixed,
)
    requires
        opposite(d_m, d_n),
        opposite(o_m, o_n),
    ensures
        opposite(
            cancellation_sum(d_m, own, o_m, attenuation, cross),
            cancellation_sum(d_n, own, o_n, attenuation, cross),
        ),
{
    lemma_opposite_arithmetic(own, d_m, d_n, o_m, o_n);
    lemma_opposite_arithmetic(attenuation, o_m, o_n, d_m, d_n);
    lemma_opposite_arithmetic(
        cross,
        o_m.mul(attenuation),
        o_n.mul(attenuation),
        d_m.mul(own),
        d_n.mul(own),
    );
    lemma_opposite_arithmetic(
        cross,
        d_m.mul(own),
        d_n.mul(own),
        o_m.mul(attenuation).mul(cross),
        o_n.mul(attenuation).mul(cross),
    );
}

/// The canceller is odd: opposite cancellers answer opposite frames, with
/// the same attenuation and gains, with opposite frames, and stay
/// opposite.
#[verifier::rlimit(100)]
pub proof fn lemma_engine_odd(
    m: EngineModel,
    n: EngineModel,
    frame: Seq<Fixed>,
    negated: Seq<Fixed>,
    attenuation: Fixed,
    gains: Seq<Fixed>,
)
    requires
        engine_opposite(m, n),
        opposite(frame[0], negated[0]),
        opposite(frame[1], negated[1]),
    ensures
        opposite(
            engine_output(m, frame, attenuation, gains)[0],
            engine_output(n, negated, attenuation, gains)[0],
        ),
        opposite(
            engine_output(m, frame, attenuation, gains)[1],
            engine_output(n, negated, attenuation, gains)[1],
        ),
        engine_opposite(
            engine_next(m, frame, attenuation, gains),
            engine_next(n, negated, attenuation, gains),
        ),
{
    reveal(engine_output);
    reveal(engine_next);
    lemma_channel_head_odd(m.left, n.left, frame[0], negated[0]);
    lemma_channel_head_odd(m.right, n.right, frame[1], negated[1]);
    lemma_sum_odd(
        channel_direct(m.left, frame[0]),
        channel_direct(n.left, negated[0]),
        gains[0],
        channel_shadow(m.right),
        channel_shadow(n.right),
        attenuation,
        gains[2],
    );
    lemma_sum_odd(
        channel_direct(m.right, frame[1]),
        channel_direct(n.right, negated[1]),
        gains[3],
        channel_shadow(m.left),
        channel_shadow(n.left),
        attenuation,
        gains[1],
    );
    lemma_channel_odd(
        m.left,
        n.left,
        frame[0],
        negated[0],
        left_residual(m, frame, attenuation, gains),
        left_residual(n, negated, attenuation, gains),
    );
    lemma_channel_odd(
        m.right,
        n.right,
        frame[1],
        negated[1],
        right_residual(m, frame, attenuation, gains),
        right_residual(n, negated, attenuation, gains),
    );
}

/// A canceller that holds nothing but silence is opposite to itself.
pub proof fn lemma_silent_is_opposite(m: EngineModel)
    requires
        engine_silent(m),
        phase_well_formed(m.left.phase),
        phase_well_formed(m.right.phase),
        delay_well_formed(m.left.main),
        delay_well_formed(m.left.cross),
        delay_well_formed(m.right.main),
        delay_well_formed(m.right.cross),
    ensures
        engine_opposite(m, m),
{
}

/// A canceller at rest is opposite to itself: two cancellers that were made
/// alike and are fed opposite signals give opposite signals.
pub proof fn lemma_at_rest_is_opposite(
    sample_rate: Fixed,
    ct_delays: Seq<Fixed>,
    main_delays: Seq<Fixed>,
    lp_cutoffs: Seq<Fixed>,
    hp_cutoff: Fixed,
    ls_cutoff: Fixed,
    ls_gain: Fixed,
)
    ensures
        ({
            let fresh = engine_at_rest(
                sample_rate,
                ct_delays,
                main_delays,
                lp_cutoffs,
                hp_cutoff,
                ls_cutoff,
                ls_gain,
            );
            engine_opposite(fresh, fresh)
        }),
{
    let fresh = engine_at_rest(
        sample_rate,
        ct_delays,
        main_delays,
        lp_cutoffs,
        hp_cutoff,
        ls_cutoff,
        ls_gain,
    );
    lemma_at_rest_is_silent(
        sample_rate,
        ct_delays,
        main_delays,
        lp_cutoffs,
        hp_cutoff,
        ls_cutoff,
        ls_gain,
    );
    lemma_silent_is_opposite(fresh);
}

/// Fed with opposite runs of frames, opposite cancellers end opposite and
/// give opposite last frames.
pub proof fn lemma_negated_run(
    m: EngineModel,
    n: EngineModel,
    frames: Seq<Seq<Fixed>>,
    negated: Seq<Seq<Fixed>>,
    attenuation: Fixed,
    gains: Seq<Fixed>,
)
    requires
        engine_opposite(m, n),
        frames.len() == negated.len(),
        forall|i: int|
            0 <= i < frames.len() ==> opposite(#[trigger] frames[i][0], negated[i][0])
                && opposite(frames[i][1], negated[i][1]),
    ensures
        engine_opposite(
            engine_after(m, frames, attenuation, gains),
            engine_after(n, negated, attenuation, gains),
        ),
        frames.len() > 0 ==> opposite(
            engine_last_output(m, frames, attenuation, gains)[0],
            engine_last_output(n, negated, attenuation, gains)[0],
        ) && opposite(
            engine_last_output(m, frames, attenuation, gains)[1],
            engine_last_output(n, negated, attenuation, gains)[1],
        ),
    decreases frames.len(),
{
    if frames.len() > 0 {
        let last = frames.len() - 1;
        assert(opposite(frames[last][0], negated[last][0]));
        lemma_negated_run(m, n, frames.drop_last(), negated.drop_last(), attenuation, gains);
        lemma_engine_odd(
            engine_after(m, frames.drop_last(), attenuation, gains),
            engine_after(n, negated.drop_last(), attenuation, gains),
            frames.last(),
            negated.last(),
            attenuation,
            gains,
        );
    }
}

} // verus!
