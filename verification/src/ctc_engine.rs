//! The crosstalk canceller: for each of the two channels a phase network, a
//! ring for the cancellation signal with its head-shadow low-pass and its
//! high-pass against drift, a low shelf, and a ring that aligns the output.

use crate::delay::{
    delay_advance, delay_all_zero, delay_read, delay_silent, delay_store, delay_well_formed,
    lemma_delay_silence, DelayModel, FractionalDelay, RING_LEN,
};
use crate::filter::{
    biquad_next, biquad_response, biquad_silent, high_pass_model, lemma_biquad_silence,
    lemma_high_pass_shape, lemma_low_pass_shape, lemma_shelf_at_rest, low_pass_model,
    low_shelf_model, BiquadFilter, BiquadModel, Processable,
};
use crate::fixed::{Fixed, SCALE};
use crate::phase::{
    cascade_next, cascade_response, cascade_silent, lemma_cascade_silence, phase_at_rest,
    phase_well_formed, PhaseModel, PhaseNetwork,
};
use vstd::prelude::*;

verus! {

/// Why a configuration is refused.
#[derive(Clone, Copy, Debug, PartialEq, Eq, Structural)]
pub enum ConfigError {
    /// A delay is below zero or not below the length of the ring.
    DelayOutOfRange,
    /// A cutoff is not above zero or not below half the sample rate.
    CutoffOutOfRange,
    /// A place or a setting is infinite or no number.
    NotFinite,
}

/// What one channel of the canceller consists of.
pub struct ChannelModel {
    pub phase: PhaseModel,
    /// The ring that aligns the output.
    pub main: DelayModel,
    /// The ring that holds the cancellation signal.
    pub cross: DelayModel,
    pub low_pass: BiquadModel,
    pub high_pass: BiquadModel,
    pub low_shelf: BiquadModel,
    pub main_delay: Fixed,
    pub ct_delay: Fixed,
}

/// What the canceller consists of: its two channels.
pub struct EngineModel {
    pub left: ChannelModel,
    pub right: ChannelModel,
}

/// Whether `delay` frames can be read from a ring: at least 0 and below 512.
pub open spec fn delay_in_range(delay: Fixed) -> bool {
    0 <= delay@ < RING_LEN * SCALE
}

/// Whether `cutoff` lies above zero and below half the sample rate.
pub open spec fn cutoff_in_range(sample_rate: Fixed, cutoff: Fixed) -> bool {
    0 < cutoff@ && 2 * cutoff@ < sample_rate@
}

/// The chains have their stages, the rings their samples, both rings are
/// written at the same index, and both delays can be read.
pub open spec fn channel_well_formed(c: ChannelModel) -> bool {
    &&& phase_well_formed(c.phase)
    &&& delay_well_formed(c.main)
    &&& delay_well_formed(c.cross)
    &&& c.main.write_index == c.cross.write_index
    &&& delay_in_range(c.main_delay)
    &&& delay_in_range(c.ct_delay)
}

/// Both channels are well formed and all four rings are written at the same
/// index.
pub open spec fn engine_well_formed(m: EngineModel) -> bool {
    &&& channel_well_formed(m.left)
    &&& channel_well_formed(m.right)
    &&& m.left.main.write_index == m.right.main.write_index
}

/// The direct signal of a channel: its input through the direct chain.
pub open spec fn channel_direct(c: ChannelModel, x: Fixed) -> Fixed {
    cascade_response(c.phase.direct, x)
}

/// What the cancellation ring of a channel gives at its crosstalk delay.
pub open spec fn channel_tap(c: ChannelModel) -> Fixed {
    delay_read(c.cross, c.ct_delay)
}

/// The cancellation signal of a channel: the tap of its ring through the
/// head-shadow low-pass.
pub open spec fn channel_shadow(c: ChannelModel) -> Fixed {
    biquad_response(c.low_pass, channel_tap(c))
}

/// The quadrature signal of a channel: its input through the quadrature
/// chain.
pub open spec fn channel_quadrature(c: ChannelModel, x: Fixed) -> Fixed {
    cascade_response(c.phase.quadrature, x)
}

/// The direct signal of a channel with its gain, less the cancellation
/// signal of the opposite channel with the attenuation and its gain.
pub open spec fn cancellation_sum(
    direct: Fixed,
    own_gain: Fixed,
    opposite: Fixed,
    attenuation: Fixed,
    cross_gain: Fixed,
) -> Fixed {
    direct.mul(own_gain).sub(opposite.mul(attenuation).mul(cross_gain))
}

/// What a channel gives out for the cancellation sum `residual`: the sum
/// through the low shelf, stored in the output ring, read back at the main
/// delay, and limited to the interval from -1 to 1.
pub open spec fn channel_output(c: ChannelModel, residual: Fixed) -> Fixed {
    delay_read(
        delay_store(c.main, biquad_response(c.low_shelf, residual)),
        c.main_delay,
    ).clamp(Fixed::one().neg(), Fixed::one())
}

/// A channel after the input `x` and the cancellation sum `residual`.
pub open spec fn channel_next(c: ChannelModel, x: Fixed, residual: Fixed) -> ChannelModel {
    ChannelModel {
        phase: PhaseModel {
            direct: cascade_next(c.phase.direct, x),
            quadrature: cascade_next(c.phase.quadrature, x),
        },
        main: delay_advance(delay_store(c.main, biquad_response(c.low_shelf, residual))),
        cross: delay_advance(
            delay_store(c.cross, biquad_response(c.high_pass, channel_quadrature(c, x))),
        ),
        low_pass: biquad_next(c.low_pass, channel_tap(c)),
        high_pass: biquad_next(c.high_pass, channel_quadrature(c, x)),
        low_shelf: biquad_next(c.low_shelf, residual),
        main_delay: c.main_delay,
        ct_delay: c.ct_delay,
    }
}

/// The cancellation sum of the left channel. The gains are those of the
/// paths left speaker to left ear, left to right, right to left and right
/// to right.
pub open spec fn left_residual(
    m: EngineModel,
    frame: Seq<Fixed>,
    attenuation: Fixed,
    gains: Seq<Fixed>,
) -> Fixed {
    cancellation_sum(
        channel_direct(m.left, frame[0]),
        gains[0],
        channel_shadow(m.right),
        attenuation,
        gains[2],
    )
}

/// The cancellation sum of the right channel.
pub open spec fn right_residual(
    m: EngineModel,
    frame: Seq<Fixed>,
    attenuation: Fixed,
    gains: Seq<Fixed>,
) -> Fixed {
    cancellation_sum(
        channel_direct(m.right, frame[1]),
        gains[3],
        channel_shadow(m.left),
        attenuation,
        gains[1],
    )
}

/// The frame that the canceller gives out for the frame `frame`.
#[verifier::opaque]
pub open spec fn engine_output(
    m: EngineModel,
    frame: Seq<Fixed>,
    attenuation: Fixed,
    gains: Seq<Fixed>,
) -> Seq<Fixed> {
    seq![
        channel_output(m.left, left_residual(m, frame, attenuation, gains)),
        channel_output(m.right, right_residual(m, frame, attenuation, gains)),
    ]
}

/// The canceller after the frame `frame`.
#[verifier::opaque]
pub open spec fn engine_next(
    m: EngineModel,
    frame: Seq<Fixed>,
    attenuation: Fixed,
    gains: Seq<Fixed>,
) -> EngineModel {
    EngineModel {
        left: channel_next(m.left, frame[0], left_residual(m, frame, attenuation, gains)),
        right: channel_next(m.right, frame[1], right_residual(m, frame, attenuation, gains)),
    }
}

/// A channel at rest.
pub open spec fn channel_at_rest(
    sample_rate: Fixed,
    ct_delay: Fixed,
    main_delay: Fixed,
    lp_cutoff: Fixed,
    hp_cutoff: Fixed,
    ls_cutoff: Fixed,
    ls_gain: Fixed,
) -> ChannelModel {
    ChannelModel {
        phase: phase_at_rest(sample_rate),
        main: delay_silent(),
        cross: delay_silent(),
        low_pass: low_pass_model(sample_rate, lp_cutoff),
        high_pass: high_pass_model(sample_rate, hp_cutoff),
        low_shelf: low_shelf_model(sample_rate, ls_cutoff, ls_gain),
        main_delay,
        ct_delay,
    }
}

/// The canceller at rest. The first of each pair belongs to the left
/// channel.
pub open spec fn engine_at_rest(
    sample_rate: Fixed,
    ct_delays: Seq<Fixed>,
    main_delays: Seq<Fixed>,
    lp_cutoffs: Seq<Fixed>,
    hp_cutoff: Fixed,
    ls_cutoff: Fixed,
    ls_gain: Fixed,
) -> EngineModel {
    EngineModel {
        left: channel_at_rest(
            sample_rate,
            ct_delays[0],
            main_delays[0],
            lp_cutoffs[0],
            hp_cutoff,
            ls_cutoff,
            ls_gain,
        ),
        right: channel_at_rest(
            sample_rate,
            ct_delays[1],
            main_delays[1],
            lp_cutoffs[1],
            hp_cutoff,
            ls_cutoff,
            ls_gain,
        ),
    }
}

/// Why a configuration is refused, if it is: a delay out of range comes
/// before a cutoff out of range.
pub open spec fn config_error(
    sample_rate: Fixed,
    ct_delays: Seq<Fixed>,
    main_delays: Seq<Fixed>,
    lp_cutoffs: Seq<Fixed>,
    hp_cutoff: Fixed,
    ls_cutoff: Fixed,
) -> Option<ConfigError> {
    if !(delay_in_range(ct_delays[0]) && delay_in_range(ct_delays[1]) && delay_in_range(
        main_delays[0],
    ) && delay_in_range(main_delays[1])) {
        Some(ConfigError::DelayOutOfRange)
    } else if !(cutoff_in_range(sample_rate, lp_cutoffs[0]) && cutoff_in_range(
        sample_rate,
        lp_cutoffs[1],
    ) && cutoff_in_range(sample_rate, hp_cutoff) && cutoff_in_range(sample_rate, ls_cutoff)) {
        Some(ConfigError::CutoffOutOfRange)
    } else {
        None
    }
}

/// A step keeps the canceller well formed.
pub proof fn lemma_step_well_formed(
    m: EngineModel,
    frame: Seq<Fixed>,
    attenuation: Fixed,
    gains: Seq<Fixed>,
)
    requires
        engine_well_formed(m),
    ensures
        engine_well_formed(engine_next(m, frame, attenuation, gains)),
{
    reveal(engine_next);
}

/// Whether a channel holds nothing but silence: its filters are at rest
/// and its rings hold only zeros.
pub open spec fn channel_silent(c: ChannelModel) -> bool {
    &&& cascade_silent(c.phase.direct)
    &&& cascade_silent(c.phase.quadrature)
    &&& delay_all_zero(c.main)
    &&& delay_all_zero(c.cross)
    &&& biquad_silent(c.low_pass)
    &&& biquad_silent(c.high_pass)
    &&& biquad_silent(c.low_shelf)
}

/// Whether the canceller holds nothing but silence.
pub open spec fn engine_silent(m: EngineModel) -> bool {
    channel_silent(m.left) && channel_silent(m.right)
}

/// A frame of silence.
pub open spec fn silent_frame() -> Seq<Fixed> {
    seq![Fixed::zero(), Fixed::zero()]
}

/// The canceller after the frames `frames`, the first one first.
pub open spec fn engine_after(
    m: EngineModel,
    frames: Seq<Seq<Fixed>>,
    attenuation: Fixed,
    gains: Seq<Fixed>,
) -> EngineModel
    decreases frames.len(),
{
    if frames.len() == 0 {
        m
    } else {
        engine_next(
            engine_after(m, frames.drop_last(), attenuation, gains),
            frames.last(),
            attenuation,
            gains,
        )
    }
}

/// The frame that the canceller gives out for the last of the frames
/// `frames`, after it has taken the ones before it.
pub open spec fn engine_last_output(
    m: EngineModel,
    frames: Seq<Seq<Fixed>>,
    attenuation: Fixed,
    gains: Seq<Fixed>,
) -> Seq<Fixed> {
    engine_output(
        engine_after(m, frames.drop_last(), attenuation, gains),
        frames.last(),
        attenuation,
        gains,
    )
}

/// A channel that holds only silence gives silence for silence and still
/// holds only silence afterwards.
#[verifier::rlimit(40)]
proof fn lemma_channel_silence(c: ChannelModel)
    requires
        channel_well_formed(c),
        channel_silent(c),
    ensures
        channel_direct(c, Fixed::zero()) == Fixed::zero(),
        channel_shadow(c) == Fixed::zero(),
        channel_output(c, Fixed::zero()) == Fixed::zero(),
        channel_silent(channel_next(c, Fixed::zero(), Fixed::zero())),
        channel_well_formed(channel_next(c, Fixed::zero(), Fixed::zero())),
{
    lemma_cascade_silence(c.phase.direct);
    lemma_cascade_silence(c.phase.quadrature);
    lemma_delay_silence(c.cross, c.ct_delay);
    lemma_biquad_silence(c.low_pass);
    lemma_biquad_silence(c.high_pass);
    lemma_biquad_silence(c.low_shelf);
    lemma_delay_silence(c.main, c.main_delay);
    let stored = delay_store(c.main, Fixed::zero());
    assert(stored.samples =~= c.main.samples);
    lemma_delay_silence(stored, c.main_delay);
    lemma_delay_silence(delay_store(c.cross, Fixed::zero()), c.ct_delay);
}

/// A canceller that holds only silence gives a silent frame for a silent
/// frame, whatever the attenuation and the gains, and still holds only
/// silence afterwards.
#[verifier::rlimit(40)]
pub proof fn lemma_silence_step(m: EngineModel, attenuation: Fixed, gains: Seq<Fixed>)
    requires
        engine_well_formed(m),
        engine_silent(m),
    ensures
        engine_output(m, silent_frame(), attenuation, gains) == silent_frame(),
        engine_silent(engine_next(m, silent_frame(), attenuation, gains)),
        engine_well_formed(engine_next(m, silent_frame(), attenuation, gains)),
{
    reveal(engine_output);
    reveal(engine_next);
    lemma_channel_silence(m.left);
    lemma_channel_silence(m.right);
    assert(0 * gains[0]@ == 0 && 0 * gains[1]@ == 0 && 0 * gains[2]@ == 0 && 0 * gains[3]@ == 0);
    assert(0 * attenuation@ == 0);
    assert(left_residual(m, silent_frame(), attenuation, gains) == Fixed::zero());
    assert(right_residual(m, silent_frame(), attenuation, gains) == Fixed::zero());
    assert(engine_output(m, silent_frame(), attenuation, gains) =~= silent_frame());
}

/// Fed with silent frames, however many, a canceller that holds only
/// silence gives out only silent frames.
pub proof fn lemma_silence_in_silence_out(
    m: EngineModel,
    frames: Seq<Seq<Fixed>>,
    attenuation: Fixed,
    gains: Seq<Fixed>,
)
    requires
        engine_well_formed(m),
        engine_silent(m),
        forall|i: int| 0 <= i < frames.len() ==> frames[i] == silent_frame(),
    ensures
        engine_silent(engine_after(m, frames, attenuation, gains)),
        engine_well_formed(engine_after(m, frames, attenuation, gains)),
        frames.len() > 0 ==> engine_last_output(m, frames, attenuation, gains) == silent_frame(),
    decreases frames.len(),
{
    if frames.len() > 0 {
        lemma_silence_in_silence_out(m, frames.drop_last(), attenuation, gains);
        lemma_silence_step(
            engine_after(m, frames.drop_last(), attenuation, gains),
            attenuation,
            gains,
        );
    }
}

/// A canceller at rest holds only silence.
pub proof fn lemma_at_rest_is_silent(
    sample_rate: Fixed,
    ct_delays: Seq<Fixed>,
    main_delays: Seq<Fixed>,
    lp_cutoffs: Seq<Fixed>,
    hp_cutoff: Fixed,
    ls_cutoff: Fixed,
    ls_gain: Fixed,
)
    ensures
        engine_silent(
            engine_at_rest(
                sample_rate,
                ct_delays,
                main_delays,
                lp_cutoffs,
                hp_cutoff,
                ls_cutoff,
                ls_gain,
            ),
        ),
{
    lemma_low_pass_shape(sample_rate, lp_cutoffs[0]);
    lemma_low_pass_shape(sample_rate, lp_cutoffs[1]);
    lemma_high_pass_shape(sample_rate, hp_cutoff);
    lemma_shelf_at_rest(sample_rate, ls_cutoff, ls_gain);
}

/// A canceller that was made and has been fed nothing but silence gives
/// nothing but silence, whatever the attenuation and the gains.
pub proof fn lemma_fresh_engine_is_silent(
    sample_rate: Fixed,
    ct_delays: Seq<Fixed>,
    main_delays: Seq<Fixed>,
    lp_cutoffs: Seq<Fixed>,
    hp_cutoff: Fixed,
    ls_cutoff: Fixed,
    ls_gain: Fixed,
    frames: Seq<Seq<Fixed>>,
    attenuation: Fixed,
    gains: Seq<Fixed>,
)
    requires
        config_error(sample_rate, ct_delays, main_delays, lp_cutoffs, hp_cutoff, ls_cutoff)
            is None,
        frames.len() > 0,
        forall|i: int| 0 <= i < frames.len() ==> frames[i] == silent_frame(),
    ensures
        engine_last_output(
            engine_at_rest(
                sample_rate,
                ct_delays,
                main_delays,
                lp_cutoffs,
                hp_cutoff,
                ls_cutoff,
                ls_gain,
            ),
            frames,
            attenuation,
            gains,
        ) == silent_frame(),
{
    let fresh = engine_at_rest(
        sample_rate,
        ct_delays,
        main_delays,
        lp_cutoffs,
        hp_cutoff,
        ls_cutoff,
        ls_gain,
    );
    lemma_at_rest_is_silent(
        sample_rate,
        ct_delays,
        main_delays,
        lp_cutoffs,
        hp_cutoff,
        ls_cutoff,
        ls_gain,
    );
    assert(engine_well_formed(fresh));
    lemma_silence_in_silence_out(fresh, frames, attenuation, gains);
}

/// With the attenuation zero nothing of the opposite channel is
/// subtracted: the cancellation sum is the direct signal with its gain.
pub proof fn lemma_no_attenuation(direct: Fixed, own_gain: Fixed, opposite: Fixed, cross_gain: Fixed)
    ensures
        cancellation_sum(direct, own_gain, opposite, Fixed::zero(), cross_gain) == direct.mul(
            own_gain,
        ),
{
    assert(opposite@ * 0 == 0);
    assert(0 * cross_gain@ == 0);
}

/// Two channels that are alike, fed alike and with like gains, play alike
/// and stay alike.
pub proof fn lemma_symmetry(m: EngineModel, frame: Seq<Fixed>, attenuation: Fixed, gains: Seq<Fixed>)
    requires
        m.left == m.right,
        frame[0] == frame[1],
        gains[0] == gains[3],
        gains[1] == gains[2],
    ensures
        engine_output(m, frame, attenuation, gains)[0] == engine_output(
            m,
            frame,
            attenuation,
            gains,
        )[1],
        engine_next(m, frame, attenuation, gains).left == engine_next(
            m,
            frame,
            attenuation,
            gains,
        ).right,
{
    reveal(engine_output);
    reveal(engine_next);
}

fn check_delay(delay: Fixed) -> (ok: bool)
    ensures
        ok == delay_in_range(delay),
{
    0 <= delay.raw && delay.raw < 512 * SCALE
}

fn check_cutoff(sample_rate: Fixed, cutoff: Fixed) -> (ok: bool)
    ensures
        ok == cutoff_in_range(sample_rate, cutoff),
{
    0 < cutoff.raw && 2 * (cutoff.raw as i128) < sample_rate.raw as i128
}

struct Channel {
    phase: PhaseNetwork,
    main: FractionalDelay,
    cross: FractionalDelay,
    low_pass: BiquadFilter,
    high_pass: BiquadFilter,
    low_shelf: BiquadFilter,
    main_delay: Fixed,
    ct_delay: Fixed,
}

impl View for Channel {
    type V = ChannelModel;

    closed spec fn view(&self) -> ChannelModel {
        ChannelModel {
            phase: self.phase@,
            main: self.main@,
            cross: self.cross@,
            low_pass: self.low_pass@,
            high_pass: self.high_pass@,
            low_shelf: self.low_shelf@,
            main_delay: self.main_delay,
            ct_delay: self.ct_delay,
        }
    }
}

impl Channel {
    fn new(
        sample_rate: Fixed,
        ct_delay: Fixed,
        main_delay: Fixed,
        lp_cutoff: Fixed,
        hp_cutoff: Fixed,
        ls_cutoff: Fixed,
        ls_gain: Fixed,
    ) -> (c: Self)
        ensures
            c@ == channel_at_rest(
                sample_rate,
                ct_delay,
                main_delay,
                lp_cutoff,
                hp_cutoff,
                ls_cutoff,
                ls_gain,
            ),
    {
        Self {
            phase: PhaseNetwork::new(sample_rate),
            main: FractionalDelay::new(),
            cross: FractionalDelay::new(),
            low_pass: BiquadFilter::low_pass(sample_rate, lp_cutoff),
            high_pass: BiquadFilter::high_pass(sample_rate, hp_cutoff),
            low_shelf: BiquadFilter::low_shelf(sample_rate, ls_cutoff, ls_gain),
            main_delay,
            ct_delay,
        }
    }

    /// The direct signal for the input `x`, and the cancellation signal.
    fn head(&mut self, x: Fixed) -> (signals: (Fixed, Fixed))
        ensures
            signals.0 == channel_direct(old(self)@, x),
            signals.1 == channel_shadow(old(self)@),
            final(self)@ == (ChannelModel {
                phase: PhaseModel {
                    direct: cascade_next(old(self)@.phase.direct, x),
                    quadrature: old(self)@.phase.quadrature,
                },
                low_pass: biquad_next(old(self)@.low_pass, channel_tap(old(self)@)),
                ..old(self)@
            }),
    {
        let direct = self.phase.direct(x);
        let tap = self.cross.read(self.ct_delay);
        let shadow = self.low_pass.process(tap);
        (direct, shadow)
    }

    /// The output for the cancellation sum `residual`, after `head` has run
    /// on the input `x`.
    fn tail(&mut self, x: Fixed, residual: Fixed) -> (out: Fixed)
        ensures
            -SCALE <= out@ <= SCALE,
            out == delay_read(
                delay_store(old(self)@.main, biquad_response(old(self)@.low_shelf, residual)),
                old(self)@.main_delay,
            ).clamp(Fixed::one().neg(), Fixed::one()),
            final(self)@ == (ChannelModel {
                phase: PhaseModel {
                    direct: old(self)@.phase.direct,
                    quadrature: cascade_next(old(self)@.phase.quadrature, x),
                },
                main: delay_advance(
                    delay_store(old(self)@.main, biquad_response(old(self)@.low_shelf, residual)),
                ),
                cross: delay_advance(
                    delay_store(
                        old(self)@.cross,
                        biquad_response(
                            old(self)@.high_pass,
                            cascade_response(old(self)@.phase.quadrature, x),
                        ),
                    ),
                ),
                high_pass: biquad_next(
                    old(self)@.high_pass,
                    cascade_response(old(self)@.phase.quadrature, x),
                ),
                low_shelf: biquad_next(old(self)@.low_shelf, residual),
                ..old(self)@
            }),
    {
        let trimmed = self.low_shelf.process(residual);
        self.main.store(trimmed);
        let aligned = self.main.read(self.main_delay);
        let quadrature = self.phase.quadrature(x);
        let feedback = self.high_pass.process(quadrature);
        self.cross.store(feedback);
        self.main.advance();
        self.cross.advance();
        aligned.clamp(Fixed::one().neg(), Fixed::one())
    }
}

/// The crosstalk canceller for two loudspeakers.
pub struct CtcEngine {
    left: Channel,
    right: Channel,
}

impl View for CtcEngine {
    type V = EngineModel;

    closed spec fn view(&self) -> EngineModel {
        EngineModel { left: self.left@, right: self.right@ }
    }
}

impl CtcEngine {
    /// The canceller at rest, for a sample rate and cutoffs in hertz, delays
    /// in frames and a shelf gain in decibels. The first of each pair
    /// belongs to the left channel. A delay must be at least 0 and below
    /// 512; a cutoff must be above 0 and below half the sample rate.
    #[verifier::rlimit(40)]
    pub fn new(
        sample_rate: Fixed,
        ct_delays: [Fixed; 2],
        main_delays: [Fixed; 2],
        lp_cutoffs: [Fixed; 2],
        hp_cutoff: Fixed,
        ls_cutoff: Fixed,
        ls_gain: Fixed,
    ) -> (made: Result<Self, ConfigError>)
        ensures
            match made {
                Ok(engine) => {
                    &&& config_error(
                        sample_rate,
                        ct_delays@,
                        main_delays@,
                        lp_cutoffs@,
                        hp_cutoff,
                        ls_cutoff,
                    ) is None
                    &&& engine@ == engine_at_rest(
                        sample_rate,
                        ct_delays@,
                        main_delays@,
                        lp_cutoffs@,
                        hp_cutoff,
                        ls_cutoff,
                        ls_gain,
                    )
                    &&& engine_well_formed(engine@)
                },
                Err(e) => config_error(
                    sample_rate,
                    ct_delays@,
                    main_delays@,
                    lp_cutoffs@,
                    hp_cutoff,
                    ls_cutoff,
                ) == Some(e),
            },
    {
        if !(check_delay(ct_delays[0]) && check_delay(ct_delays[1]) && check_delay(main_delays[0])
            && check_delay(main_delays[1])) {
            return Err(ConfigError::DelayOutOfRange);
        }
        if !(check_cutoff(sample_rate, lp_cutoffs[0]) && check_cutoff(sample_rate, lp_cutoffs[1])
            && check_cutoff(sample_rate, hp_cutoff) && check_cutoff(sample_rate, ls_cutoff)) {
            return Err(ConfigError::CutoffOutOfRange);
        }
        let left = Channel::new(
            sample_rate,
            ct_delays[0],
            main_delays[0],
            lp_cutoffs[0],
            hp_cutoff,
            ls_cutoff,
            ls_gain,
        );
        let right = Channel::new(
            sample_rate,
            ct_delays[1],
            main_delays[1],
            lp_cutoffs[1],
            hp_cutoff,
            ls_cutoff,
            ls_gain,
        );
        Ok(Self { left, right })
    }

    /// The crosstalk delays of the left and the right channel, in frames.
    pub fn ct_delays(&self) -> (d: [Fixed; 2])
        ensures
            d@ == seq![self@.left.ct_delay, self@.right.ct_delay],
    {
        let d = [self.left.ct_delay, self.right.ct_delay];
        assert(d@ =~= seq![self@.left.ct_delay, self@.right.ct_delay]);
        d
    }

    /// The main delays of the left and the right channel, in frames.
    pub fn main_delays(&self) -> (d: [Fixed; 2])
        ensures
            d@ == seq![self@.left.main_delay, self@.right.main_delay],
    {
        let d = [self.left.main_delay, self.right.main_delay];
        assert(d@ =~= seq![self@.left.main_delay, self@.right.main_delay]);
        d
    }

    /// One frame through the canceller. The gains are those of the paths
    /// left speaker to left ear, left to right, right to left and right to
    /// right. Each output sample lies between -1 and 1.
    #[verifier::rlimit(40)]
    pub fn process(&mut self, frame: [Fixed; 2], attenuation: Fixed, amp_factors: &[Fixed; 4]) -> (out:
        [Fixed; 2])
        ensures
            out@ == engine_output(old(self)@, frame@, attenuation, amp_factors@),
            final(self)@ == engine_next(old(self)@, frame@, attenuation, amp_factors@),
            -SCALE <= out@[0]@ <= SCALE,
            -SCALE <= out@[1]@ <= SCALE,
            engine_well_formed(old(self)@) ==> engine_well_formed(final(self)@),
    {
        proof {
            reveal(engine_output);
            reveal(engine_next);
        }
        let l = frame[0];
        let r = frame[1];
        let (l_0, ct_l) = self.left.head(l);
        let (r_0, ct_r) = self.right.head(r);
        let res_l = l_0.mul(amp_factors[0]).sub(ct_r.mul(attenuation).mul(amp_factors[2]));
        let res_r = r_0.mul(amp_factors[3]).sub(ct_l.mul(attenuation).mul(amp_factors[1]));
        let out_l = self.left.tail(l, res_l);
        let out_r = self.right.tail(r, res_r);
        let out = [out_l, out_r];
        proof {
            assert(out@ =~= engine_output(old(self)@, frame@, attenuation, amp_factors@));
            if engine_well_formed(old(self)@) {
                lemma_step_well_formed(old(self)@, frame@, attenuation, amp_factors@);
            }
        }
        out
    }
}

} // verus!
