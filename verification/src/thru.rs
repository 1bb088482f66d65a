//! The signal path from a captured frame to the frame that is played:
//! master gain, the canceller, and the mix of its output with its input.

use crate::control::{
    geometry_finite, geometry_value, tuning_finite, tuning_value, SingleGeometry, SingleTuning,
};
use crate::ctc_engine::{
    config_error, engine_at_rest, engine_next, engine_output, engine_well_formed, ConfigError,
    CtcEngine, EngineModel,
};
use crate::fixed::{lemma_times_unit, proper, Fixed};
use crate::geometry::{
    amp_factors, calc_amp_factors, calc_delay_frames, calc_distance, calc_listener_position,
    calc_shadow_cutoff, calc_speed_of_sound, crosstalk_delays, listener_position, main_delays,
    path_distances, path_frames, shadow_cutoff, sound_speed, Geometry,
};
use crate::single::{nearest_single, single_finite, single_value};
use vstd::prelude::*;

verus! {

/// What the listener can adjust.
#[derive(Clone, Copy, Debug)]
pub struct Tuning {
    /// Factor on the captured samples.
    pub master_gain: Fixed,
    /// How much of the cancellation signal is subtracted, from 0 to 1.
    pub attenuation: Fixed,
    /// The shadow cutoff of a loudspeaker straight to the side, in hertz.
    pub lowpass_cutoff_min: Fixed,
    /// The cutoff of the high-pass in the cancellation path, in hertz.
    pub highpass_cutoff: Fixed,
    /// The cutoff of the low shelf, in hertz.
    pub lowshelf_cutoff: Fixed,
    /// The gain of the low shelf, in decibels.
    pub lowshelf_gain: Fixed,
    /// The share of the canceller's output in what is played, from 0 to 1.
    pub wet_dry: Fixed,
    /// The temperature of the air, in degrees Celsius.
    pub temperature: Fixed,
}

/// The number of samples in the ring between capture and playback: the
/// frames in `latency` milliseconds, rounded down, times the channels.
pub open spec fn latency_samples(latency: usize, sample_rate: u32, channels: u16) -> int {
    ((latency * sample_rate) / 1000) * channels
}

/// The size of the ring between capture and playback, if a `usize` holds it.
pub fn ring_capacity(latency: usize, sample_rate: u32, channels: u16) -> (n: Option<usize>)
    ensures
        latency_samples(latency, sample_rate, channels) <= usize::MAX ==> n == Some(
            latency_samples(latency, sample_rate, channels) as usize,
        ),
        latency_samples(latency, sample_rate, channels) > usize::MAX ==> n is None,
{
    assert(latency * sample_rate <= 0xffff_ffff_ffff_ffff * 0xffff_ffff) by (nonlinear_arith)
        requires
            latency <= 0xffff_ffff_ffff_ffff,
            sample_rate <= 0xffff_ffff,
    ;
    let frames: u128 = (latency as u128) * (sample_rate as u128) / 1000;
    assert(frames * channels <= 0xffff_ffff_ffff_ffff_ffff_ffff * 0xffff) by (nonlinear_arith)
        requires
            frames <= 0xffff_ffff_ffff_ffff_ffff_ffff,
            channels <= 0xffff,
    ;
    let samples: u128 = frames * (channels as u128);
    if samples <= usize::MAX as u128 {
        Some(samples as usize)
    } else {
        None
    }
}

/// A sample of the canceller and the sample that went into it, mixed:
/// `wet_dry` of the first and the rest of the second.
pub open spec fn dry_wet_mix(wet: Fixed, dry: Fixed, wet_dry: Fixed) -> Fixed {
    wet.mul(wet_dry).add(dry.mul(Fixed::one().sub(wet_dry)))
}

/// All dry, the mix is the input; all wet, it is the output of the
/// canceller: neither is changed by a rounding.
pub proof fn lemma_mix_ends(wet: Fixed, dry: Fixed)
    requires
        proper(wet),
        proper(dry),
    ensures
        dry_wet_mix(wet, dry, Fixed::zero()) == dry,
        dry_wet_mix(wet, dry, Fixed::one()) == wet,
{
    assert(wet@ * 0 == 0);
    assert(dry@ * 0 == 0);
    lemma_times_unit(wet@);
    lemma_times_unit(dry@);
}

/// The frames of the four paths for a geometry.
pub open spec fn geometry_frames(sample_rate: Fixed, g: Geometry, temperature: Fixed) -> Seq<Fixed> {
    path_frames(sample_rate, path_distances(g), sound_speed(temperature))
}

/// The shadow cutoffs of the left and the right loudspeaker.
pub open spec fn shadow_cutoffs(g: Geometry, cutoff_min: Fixed) -> Seq<Fixed> {
    seq![
        shadow_cutoff(listener_position(g), g.left_speaker@, cutoff_min),
        shadow_cutoff(listener_position(g), g.right_speaker@, cutoff_min),
    ]
}

/// Why a geometry and a tuning are refused at a sample rate, if they are.
pub open spec fn thru_error(sample_rate: Fixed, g: Geometry, t: Tuning) -> Option<ConfigError> {
    config_error(
        sample_rate,
        crosstalk_delays(geometry_frames(sample_rate, g, t.temperature)),
        main_delays(geometry_frames(sample_rate, g, t.temperature)),
        shadow_cutoffs(g, t.lowpass_cutoff_min),
        t.highpass_cutoff,
        t.lowshelf_cutoff,
    )
}

/// What the signal path consists of.
pub struct ThruModel {
    pub engine: EngineModel,
    /// The gains of the four paths.
    pub gains: Seq<Fixed>,
    pub master_gain: Fixed,
    pub attenuation: Fixed,
    pub wet_dry: Fixed,
}

/// The signal path at rest for a geometry and a tuning.
pub open spec fn thru_at_rest(sample_rate: Fixed, g: Geometry, t: Tuning) -> ThruModel {
    ThruModel {
        engine: engine_at_rest(
            sample_rate,
            crosstalk_delays(geometry_frames(sample_rate, g, t.temperature)),
            main_delays(geometry_frames(sample_rate, g, t.temperature)),
            shadow_cutoffs(g, t.lowpass_cutoff_min),
            t.highpass_cutoff,
            t.lowshelf_cutoff,
            t.lowshelf_gain,
        ),
        gains: amp_factors(path_distances(g)),
        master_gain: t.master_gain,
        attenuation: t.attenuation,
        wet_dry: t.wet_dry,
    }
}

/// The captured frame with the master gain applied.
pub open spec fn thru_input(m: ThruModel, frame: Seq<Fixed>) -> Seq<Fixed> {
    seq![frame[0].mul(m.master_gain), frame[1].mul(m.master_gain)]
}

/// The frame that is played for the captured frame `frame`.
pub open spec fn thru_output(m: ThruModel, frame: Seq<Fixed>) -> Seq<Fixed> {
    let input = thru_input(m, frame);
    let wet = engine_output(m.engine, input, m.attenuation, m.gains);
    seq![dry_wet_mix(wet[0], input[0], m.wet_dry), dry_wet_mix(wet[1], input[1], m.wet_dry)]
}

/// The signal path after the captured frame `frame`.
pub open spec fn thru_next(m: ThruModel, frame: Seq<Fixed>) -> ThruModel {
    ThruModel {
        engine: engine_next(m.engine, thru_input(m, frame), m.attenuation, m.gains),
        gains: m.gains,
        master_gain: m.master_gain,
        attenuation: m.attenuation,
        wet_dry: m.wet_dry,
    }
}

/// Why places and settings given as singles are refused at a sample rate
/// in whole hertz, if they are: one that is infinite or no number comes
/// before a delay or a cutoff out of range.
pub open spec fn singles_error(sample_rate: u32, g: SingleGeometry, t: SingleTuning) -> Option<
    ConfigError,
> {
    if !(geometry_finite(g) && tuning_finite(t)) {
        Some(ConfigError::NotFinite)
    } else {
        thru_error(Fixed::from_whole(sample_rate), geometry_value(g), tuning_value(t))
    }
}

/// The number that a sample given as a single stands for; a sample that is
/// infinite or no number counts as silence.
pub open spec fn sample_value(bits: u32) -> Fixed {
    if single_finite(bits) {
        single_value(bits)
    } else {
        Fixed::zero()
    }
}

/// The frame that a frame given as singles stands for.
pub open spec fn frame_value(frame: Seq<u32>) -> Seq<Fixed> {
    seq![sample_value(frame[0]), sample_value(frame[1])]
}

/// The signal path from a captured frame to the frame that is played.
pub struct Thru {
    engine: CtcEngine,
    amp_factors: [Fixed; 4],
    master_gain: Fixed,
    attenuation: Fixed,
    wet_dry: Fixed,
}

impl View for Thru {
    type V = ThruModel;

    closed spec fn view(&self) -> ThruModel {
        ThruModel {
            engine: self.engine@,
            gains: self.amp_factors@,
            master_gain: self.master_gain,
            attenuation: self.attenuation,
            wet_dry: self.wet_dry,
        }
    }
}

impl Thru {
    /// The signal path at rest for a sample rate in hertz, a geometry and a
    /// tuning. It is refused where a delay that follows from the geometry
    /// cannot be read from a ring, or where a cutoff is not above zero and
    /// below half the sample rate.
    #[verifier::rlimit(40)]
    pub fn new(sample_rate: Fixed, position: &Geometry, tuning: &Tuning) -> (made: Result<
        Self,
        ConfigError,
    >)
        ensures
            match made {
                Ok(thru) => {
                    &&& thru_error(sample_rate, *position, *tuning) is None
                    &&& thru@ == thru_at_rest(sample_rate, *position, *tuning)
                    &&& engine_well_formed(thru@.engine)
                },
                Err(e) => thru_error(sample_rate, *position, *tuning) == Some(e),
            },
    {
        let distances = calc_distance(position);
        let amp_factors = calc_amp_factors(distances);
        let delays = calc_delay_frames(
            sample_rate,
            distances,
            calc_speed_of_sound(tuning.temperature),
        );
        let main_delays = delays[0];
        let ct_delays = delays[1];
        let listener = calc_listener_position(position);
        let shadow_cutoff_l = calc_shadow_cutoff(
            listener,
            position.left_speaker,
            tuning.lowpass_cutoff_min,
        );
        let shadow_cutoff_r = calc_shadow_cutoff(
            listener,
            position.right_speaker,
            tuning.lowpass_cutoff_min,
        );
        let cutoffs = [shadow_cutoff_l, shadow_cutoff_r];
        assert(cutoffs@ =~= shadow_cutoffs(*position, tuning.lowpass_cutoff_min));
        match CtcEngine::new(
            sample_rate,
            ct_delays,
            main_delays,
            cutoffs,
            tuning.highpass_cutoff,
            tuning.lowshelf_cutoff,
            tuning.lowshelf_gain,
        ) {
            Ok(engine) => Ok(
                Self {
                    engine,
                    amp_factors,
                    master_gain: tuning.master_gain,
                    attenuation: tuning.attenuation,
                    wet_dry: tuning.wet_dry,
                },
            ),
            Err(e) => Err(e),
        }
    }

    /// The signal path at rest for a sample rate in whole hertz and for
    /// places and settings given as singles. It is refused where one of
    /// them is infinite or no number, and else where `new` refuses the
    /// numbers that they stand for.
    pub fn from_singles(sample_rate: u32, position: &SingleGeometry, tuning: &SingleTuning) -> (made:
        Result<Self, ConfigError>)
        ensures
            match made {
                Ok(thru) => {
                    &&& singles_error(sample_rate, *position, *tuning) is None
                    &&& thru@ == thru_at_rest(
                        Fixed::from_whole(sample_rate),
                        geometry_value(*position),
                        tuning_value(*tuning),
                    )
                    &&& engine_well_formed(thru@.engine)
                },
                Err(e) => singles_error(sample_rate, *position, *tuning) == Some(e),
            },
    {
        let geometry = match position.read() {
            Ok(g) => g,
            Err(e) => {
                return Err(e);
            },
        };
        let settings = match tuning.read() {
            Ok(t) => t,
            Err(e) => {
                return Err(e);
            },
        };
        Self::new(Fixed::from_whole(sample_rate), &geometry, &settings)
    }

    /// The frame that is played for one captured frame, both given as
    /// singles. A captured sample that is infinite or no number counts as
    /// silence.
    pub fn process_singles(&mut self, frame: [u32; 2]) -> (out: [u32; 2])
        ensures
            out@ == seq![
                nearest_single(thru_output(old(self)@, frame_value(frame@))[0]),
                nearest_single(thru_output(old(self)@, frame_value(frame@))[1]),
            ],
            final(self)@ == thru_next(old(self)@, frame_value(frame@)),
            engine_well_formed(old(self)@.engine) ==> engine_well_formed(final(self)@.engine),
    {
        let l = match Fixed::from_single_bits(frame[0]) {
            Some(x) => x,
            None => Fixed::zero(),
        };
        let r = match Fixed::from_single_bits(frame[1]) {
            Some(x) => x,
            None => Fixed::zero(),
        };
        let input = [l, r];
        assert(input@ =~= frame_value(frame@));
        let played = self.process(input);
        let out = [played[0].to_single_bits(), played[1].to_single_bits()];
        assert(out@ =~= seq![
            nearest_single(thru_output(old(self)@, frame_value(frame@))[0]),
            nearest_single(thru_output(old(self)@, frame_value(frame@))[1]),
        ]);
        out
    }

    /// The canceller of this path.
    pub fn engine(&self) -> (e: &CtcEngine)
        ensures
            e@ == self@.engine,
    {
        &self.engine
    }

    /// The gains of the four paths.
    pub fn amp_factors(&self) -> (g: [Fixed; 4])
        ensures
            g@ == self@.gains,
    {
        self.amp_factors
    }

    /// The frame that is played for one captured frame.
    #[verifier::rlimit(40)]
    pub fn process(&mut self, frame: [Fixed; 2]) -> (out: [Fixed; 2])
        ensures
            out@ == thru_output(old(self)@, frame@),
            final(self)@ == thru_next(old(self)@, frame@),
            engine_well_formed(old(self)@.engine) ==> engine_well_formed(final(self)@.engine),
    {
        let l = frame[0].mul(self.master_gain);
        let r = frame[1].mul(self.master_gain);
        let input = [l, r];
        assert(input@ =~= thru_input(self@, frame@));
        let wet = self.engine.process(input, self.attenuation, &self.amp_factors);
        let w = self.wet_dry;
        let d = Fixed::one().sub(self.wet_dry);
        let out = [wet[0].mul(w).add(l.mul(d)), wet[1].mul(w).add(r.mul(d))];
        assert(out@ =~= thru_output(old(self)@, frame@));
        out
    }
}

} // verus!
