//! What the control surface delivers: the places and the settings as
//! single-precision numbers, by their bits.

use crate::ctc_engine::ConfigError;
use crate::fixed::Fixed;
use crate::geometry::Geometry;
use crate::single::{single_finite, single_value};
use crate::thru::Tuning;
use vstd::prelude::*;

verus! {

/// The places of the loudspeakers and the ears, each as the bits of `[x, y]`
/// in metres.
#[derive(Clone, Copy, Debug)]
pub struct SingleGeometry {
    pub left_speaker: [u32; 2],
    pub right_speaker: [u32; 2],
    pub left_ear: [u32; 2],
    pub right_ear: [u32; 2],
}

/// The settings of a `Tuning`, each as the bits of a single.
#[derive(Clone, Copy, Debug)]
pub struct SingleTuning {
    pub master_gain: u32,
    pub attenuation: u32,
    pub lowpass_cutoff_min: u32,
    pub highpass_cutoff: u32,
    pub lowshelf_cutoff: u32,
    pub lowshelf_gain: u32,
    pub wet_dry: u32,
    pub temperature: u32,
}

/// Whether both coordinates of a point are finite.
pub open spec fn point_finite(p: [u32; 2]) -> bool {
    single_finite(p@[0]) && single_finite(p@[1])
}

/// The point with the coordinates nearest to those of `p`.
pub open spec fn point_value(p: [u32; 2]) -> [Fixed; 2] {
    [single_value(p@[0]), single_value(p@[1])]
}

/// Whether all eight coordinates are finite.
pub open spec fn geometry_finite(g: SingleGeometry) -> bool {
    &&& point_finite(g.left_speaker)
    &&& point_finite(g.right_speaker)
    &&& point_finite(g.left_ear)
    &&& point_finite(g.right_ear)
}

/// The geometry with the coordinates nearest to those of `g`.
pub open spec fn geometry_value(g: SingleGeometry) -> Geometry {
    Geometry {
        left_speaker: point_value(g.left_speaker),
        right_speaker: point_value(g.right_speaker),
        left_ear: point_value(g.left_ear),
        right_ear: point_value(g.right_ear),
    }
}

/// Whether all eight settings are finite.
pub open spec fn tuning_finite(t: SingleTuning) -> bool {
    &&& single_finite(t.master_gain)
    &&& single_finite(t.attenuation)
    &&& single_finite(t.lowpass_cutoff_min)
    &&& single_finite(t.highpass_cutoff)
    &&& single_finite(t.lowshelf_cutoff)
    &&& single_finite(t.lowshelf_gain)
    &&& single_finite(t.wet_dry)
    &&& single_finite(t.temperature)
}

/// The tuning with the settings nearest to those of `t`.
pub open spec fn tuning_value(t: SingleTuning) -> Tuning {
    Tuning {
        master_gain: single_value(t.master_gain),
        attenuation: single_value(t.attenuation),
        lowpass_cutoff_min: single_value(t.lowpass_cutoff_min),
        highpass_cutoff: single_value(t.highpass_cutoff),
        lowshelf_cutoff: single_value(t.lowshelf_cutoff),
        lowshelf_gain: single_value(t.lowshelf_gain),
        wet_dry: single_value(t.wet_dry),
        temperature: single_value(t.temperature),
    }
}

/// The number that a setting stands for, or the refusal of one that is
/// infinite or no number.
pub fn read_single(bits: u32) -> (r: Result<Fixed, ConfigError>)
    ensures
        single_finite(bits) ==> r == Ok::<Fixed, ConfigError>(single_value(bits)),
        !single_finite(bits) ==> r == Err::<Fixed, ConfigError>(ConfigError::NotFinite),
{
    match Fixed::from_single_bits(bits) {
        Some(x) => Ok(x),
        None => Err(ConfigError::NotFinite),
    }
}

/// The point that two singles stand for.
pub fn read_point(p: &[u32; 2]) -> (r: Result<[Fixed; 2], ConfigError>)
    ensures
        point_finite(*p) ==> r == Ok::<[Fixed; 2], ConfigError>(point_value(*p)),
        !point_finite(*p) ==> r == Err::<[Fixed; 2], ConfigError>(ConfigError::NotFinite),
{
    let x = read_single(p[0])?;
    let y = read_single(p[1])?;
    let point = [x, y];
    assert(point@ =~= point_value(*p)@);
    Ok(point)
}

impl SingleGeometry {
    /// The geometry that these singles stand for; it is refused where one
    /// of them is infinite or no number.
    pub fn read(&self) -> (r: Result<Geometry, ConfigError>)
        ensures
            geometry_finite(*self) ==> r == Ok::<Geometry, ConfigError>(geometry_value(*self)),
            !geometry_finite(*self) ==> r == Err::<Geometry, ConfigError>(ConfigError::NotFinite),
    {
        let left_speaker = read_point(&self.left_speaker)?;
        let right_speaker = read_point(&self.right_speaker)?;
        let left_ear = read_point(&self.left_ear)?;
        let right_ear = read_point(&self.right_ear)?;
        Ok(Geometry { left_speaker, right_speaker, left_ear, right_ear })
    }
}

impl SingleTuning {
    /// The tuning that these singles stand for; it is refused where one of
    /// them is infinite or no number.
    pub fn read(&self) -> (r: Result<Tuning, ConfigError>)
        ensures
            tuning_finite(*self) ==> r == Ok::<Tuning, ConfigError>(tuning_value(*self)),
            !tuning_finite(*self) ==> r == Err::<Tuning, ConfigError>(ConfigError::NotFinite),
    {
        let master_gain = read_single(self.master_gain)?;
        let attenuation = read_single(self.attenuation)?;
        let lowpass_cutoff_min = read_single(self.lowpass_cutoff_min)?;
        let highpass_cutoff = read_single(self.highpass_cutoff)?;
        let lowshelf_cutoff = read_single(self.lowshelf_cutoff)?;
        let lowshelf_gain = read_single(self.lowshelf_gain)?;
        let wet_dry = read_single(self.wet_dry)?;
        let temperature = read_single(self.temperature)?;
        Ok(
            Tuning {
                master_gain,
                attenuation,
                lowpass_cutoff_min,
                highpass_cutoff,
                lowshelf_cutoff,
                lowshelf_gain,
                wet_dry,
                temperature,
            },
        )
    }
}

} // verus!
