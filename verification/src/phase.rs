//! Two chains of four all-pass filters whose outputs, for one input, stay
//! about a quarter of a period apart over the audio band.

use crate::filter::{
    lemma_primary_silence, primary_at_rest, primary_next, primary_response, primary_silent,
    PrimaryFilter, PrimaryFilterType, PrimaryModel, Processable,
};
use crate::fixed::{clamp_raw, narrow, Fixed};
use vstd::prelude::*;

verus! {

/// Poles of the direct chain, in units of 10^-15:
/// 1.252477174013740, 5.567151121010343, 22.33405370220630, 121.1823101311035.
pub const DIRECT_POLE_0: u64 = 1_252_477_174_013_740;

pub const DIRECT_POLE_1: u64 = 5_567_151_121_010_343;

pub const DIRECT_POLE_2: u64 = 22_334_053_702_206_300;

pub const DIRECT_POLE_3: u64 = 121_182_310_131_103_500;

/// Poles of the quadrature chain, in units of 10^-15:
/// 0.470942544153024, 2.511195608677685, 9.736028549641775, 52.32115162453549.
pub const QUADRATURE_POLE_0: u64 = 470_942_544_153_024;

pub const QUADRATURE_POLE_1: u64 = 2_511_195_608_677_685;

pub const QUADRATURE_POLE_2: u64 = 9_736_028_549_641_775;

pub const QUADRATURE_POLE_3: u64 = 52_321_151_624_535_490;

/// Raw value of 2π · 150.
pub const POLE_SCALE_RAW: i64 = 4_047_911_311_357;

/// The units of a pole in one: 10^15.
pub const POLE_UNIT: u64 = 1_000_000_000_000_000;

/// `2π · 150 · p` for the pole `p`, given in units of 10^-15: the angular
/// frequency of the stage times the sample rate, rounded to the nearest unit.
pub open spec fn pole_rate(pole: u64) -> Fixed {
    Fixed {
        raw: clamp_raw((pole * POLE_SCALE_RAW + 500_000_000_000_000) / (POLE_UNIT as int)) as i64,
    }
}

/// The coefficient of the all-pass stage with the pole `p`: with
/// `w = 2π · 150 · p / sample_rate` it is `(1 - w) / (1 + w)`, that is
/// `(sample_rate - 2π · 150 · p) / (sample_rate + 2π · 150 · p)`.
pub open spec fn all_pass_coefficient(sample_rate: Fixed, pole: u64) -> Fixed {
    sample_rate.sub(pole_rate(pole)).div(sample_rate.add(pole_rate(pole)))
}

/// The coefficients of the direct chain at a sample rate in hertz.
pub open spec fn direct_coefficients(sample_rate: Fixed) -> Seq<Fixed> {
    seq![
        all_pass_coefficient(sample_rate, DIRECT_POLE_0),
        all_pass_coefficient(sample_rate, DIRECT_POLE_1),
        all_pass_coefficient(sample_rate, DIRECT_POLE_2),
        all_pass_coefficient(sample_rate, DIRECT_POLE_3),
    ]
}

/// The coefficients of the quadrature chain at a sample rate in hertz.
pub open spec fn quadrature_coefficients(sample_rate: Fixed) -> Seq<Fixed> {
    seq![
        all_pass_coefficient(sample_rate, QUADRATURE_POLE_0),
        all_pass_coefficient(sample_rate, QUADRATURE_POLE_1),
        all_pass_coefficient(sample_rate, QUADRATURE_POLE_2),
        all_pass_coefficient(sample_rate, QUADRATURE_POLE_3),
    ]
}

/// Four all-pass stages at rest with the given coefficients.
pub open spec fn chain_at_rest(alphas: Seq<Fixed>) -> Seq<PrimaryModel> {
    Seq::new(4, |k: int| primary_at_rest(PrimaryFilterType::AllPass, alphas[k]))
}

/// The output of the first `k + 1` of four cascaded stages for the input `x`.
pub open spec fn cascade_tap(stages: Seq<PrimaryModel>, x: Fixed, k: int) -> Fixed
    decreases k,
{
    if k <= 0 {
        primary_response(stages[0], x)
    } else {
        primary_response(stages[k], cascade_tap(stages, x, k - 1))
    }
}

/// What four cascaded stages return for the input `x`: the output of the
/// last one, each stage fed by the one before it.
pub open spec fn cascade_response(stages: Seq<PrimaryModel>, x: Fixed) -> Fixed {
    cascade_tap(stages, x, 3)
}

/// The four stages after the input `x`.
pub open spec fn cascade_next(stages: Seq<PrimaryModel>, x: Fixed) -> Seq<PrimaryModel> {
    Seq::new(
        4,
        |k: int|
            if k == 0 {
                primary_next(stages[0], x)
            } else {
                primary_next(stages[k], cascade_tap(stages, x, k - 1))
            },
    )
}

/// Whether each of the four stages remembers only silence.
pub open spec fn cascade_silent(stages: Seq<PrimaryModel>) -> bool {
    forall|k: int| 0 <= k < 4 ==> primary_silent(#[trigger] stages[k])
}

/// Four stages that remember only silence answer silence with silence.
pub proof fn lemma_cascade_silence(stages: Seq<PrimaryModel>)
    requires
        cascade_silent(stages),
    ensures
        cascade_response(stages, Fixed::zero()) == Fixed::zero(),
        cascade_silent(cascade_next(stages, Fixed::zero())),
{
    reveal_with_fuel(cascade_tap, 4);
    lemma_primary_silence(stages[0]);
    lemma_primary_silence(stages[1]);
    lemma_primary_silence(stages[2]);
    lemma_primary_silence(stages[3]);
}

/// What a phase network consists of: the four stages of the direct chain and
/// the four stages of the quadrature chain.
pub struct PhaseModel {
    pub direct: Seq<PrimaryModel>,
    pub quadrature: Seq<PrimaryModel>,
}

/// Both chains have four stages.
pub open spec fn phase_well_formed(m: PhaseModel) -> bool {
    m.direct.len() == 4 && m.quadrature.len() == 4
}

/// The phase network at rest for a sample rate in hertz.
pub open spec fn phase_at_rest(sample_rate: Fixed) -> PhaseModel {
    PhaseModel {
        direct: chain_at_rest(direct_coefficients(sample_rate)),
        quadrature: chain_at_rest(quadrature_coefficients(sample_rate)),
    }
}

/// The coefficient of one all-pass stage.
pub fn calc_allpass_coeff(sample_rate: Fixed, pole: u64) -> (alpha: Fixed)
    ensures
        alpha == all_pass_coefficient(sample_rate, pole),
{
    let scaled: u128 = (pole as u128) * 4_047_911_311_357u128 + 500_000_000_000_000;
    let rate = narrow((scaled / 1_000_000_000_000_000u128) as i128);
    sample_rate.sub(rate).div(sample_rate.add(rate))
}

/// The coefficients of both chains at a sample rate in hertz: those of the
/// direct chain, then those of the quadrature chain.
pub fn calc_allpass_coeffs(sample_rate: Fixed) -> (coeffs: ([Fixed; 4], [Fixed; 4]))
    ensures
        coeffs.0@ == direct_coefficients(sample_rate),
        coeffs.1@ == quadrature_coefficients(sample_rate),
{
    let a = [
        calc_allpass_coeff(sample_rate, DIRECT_POLE_0),
        calc_allpass_coeff(sample_rate, DIRECT_POLE_1),
        calc_allpass_coeff(sample_rate, DIRECT_POLE_2),
        calc_allpass_coeff(sample_rate, DIRECT_POLE_3),
    ];
    let b = [
        calc_allpass_coeff(sample_rate, QUADRATURE_POLE_0),
        calc_allpass_coeff(sample_rate, QUADRATURE_POLE_1),
        calc_allpass_coeff(sample_rate, QUADRATURE_POLE_2),
        calc_allpass_coeff(sample_rate, QUADRATURE_POLE_3),
    ];
    assert(a@ =~= direct_coefficients(sample_rate));
    assert(b@ =~= quadrature_coefficients(sample_rate));
    (a, b)
}

/// A pair of all-pass chains fed with the same signal.
pub struct PhaseNetwork {
    direct: [PrimaryFilter; 4],
    quadrature: [PrimaryFilter; 4],
}

impl View for PhaseNetwork {
    type V = PhaseModel;

    closed spec fn view(&self) -> PhaseModel {
        PhaseModel {
            direct: Seq::new(4, |k: int| self.direct@[k]@),
            quadrature: Seq::new(4, |k: int| self.quadrature@[k]@),
        }
    }
}

/// Runs the input through four cascaded stages.
#[verifier::rlimit(40)]
fn run_chain(stages: &mut [PrimaryFilter; 4], input: Fixed) -> (output: Fixed)
    ensures
        output == cascade_response(Seq::new(4, |k: int| old(stages)@[k]@), input),
        Seq::new(4, |k: int| final(stages)@[k]@) == cascade_next(
            Seq::new(4, |k: int| old(stages)@[k]@),
            input,
        ),
{
    let ghost before = Seq::new(4, |k: int| stages@[k]@);
    let y0 = stages[0].process(input);
    let y1 = stages[1].process(y0);
    let y2 = stages[2].process(y1);
    let y3 = stages[3].process(y2);
    proof {
        reveal_with_fuel(cascade_tap, 4);
        assert(y0 == cascade_tap(before, input, 0));
        assert(y1 == cascade_tap(before, input, 1));
        assert(y2 == cascade_tap(before, input, 2));
        assert(y3 == cascade_tap(before, input, 3));
        assert(Seq::new(4, |k: int| stages@[k]@) =~= cascade_next(before, input));
    }
    y3
}

impl PhaseNetwork {
    /// The phase network at rest for a sample rate in hertz.
    pub fn new(sample_rate: Fixed) -> (n: Self)
        ensures
            n@ == phase_at_rest(sample_rate),
            phase_well_formed(n@),
    {
        let (a, b) = calc_allpass_coeffs(sample_rate);
        let n = Self {
            direct: [
                PrimaryFilter::all_pass(a[0]),
                PrimaryFilter::all_pass(a[1]),
                PrimaryFilter::all_pass(a[2]),
                PrimaryFilter::all_pass(a[3]),
            ],
            quadrature: [
                PrimaryFilter::all_pass(b[0]),
                PrimaryFilter::all_pass(b[1]),
                PrimaryFilter::all_pass(b[2]),
                PrimaryFilter::all_pass(b[3]),
            ],
        };
        assert(n@.direct =~= phase_at_rest(sample_rate).direct);
        assert(n@.quadrature =~= phase_at_rest(sample_rate).quadrature);
        n
    }

    /// One sample through the direct chain; the quadrature chain is left as
    /// it is.
    pub fn direct(&mut self, input: Fixed) -> (output: Fixed)
        ensures
            output == cascade_response(old(self)@.direct, input),
            final(self)@.direct == cascade_next(old(self)@.direct, input),
            final(self)@.quadrature == old(self)@.quadrature,
            phase_well_formed(final(self)@),
    {
        run_chain(&mut self.direct, input)
    }

    /// One sample through the quadrature chain; the direct chain is left as
    /// it is.
    pub fn quadrature(&mut self, input: Fixed) -> (output: Fixed)
        ensures
            output == cascade_response(old(self)@.quadrature, input),
            final(self)@.quadrature == cascade_next(old(self)@.quadrature, input),
            final(self)@.direct == old(self)@.direct,
            phase_well_formed(final(self)@),
    {
        run_chain(&mut self.quadrature, input)
    }
}

} // verus!
