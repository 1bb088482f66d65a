//! A ring of 512 samples that is read at fractional delays by linear
//! interpolation.

use crate::fixed::{lemma_times_unit, proper, Fixed, SCALE};
use vstd::prelude::*;

verus! {

/// Number of samples in a delay line, a power of two.
pub const RING_LEN: usize = 512;

/// What a delay line consists of: its samples and the index of the slot that
/// the next write fills.
pub struct DelayModel {
    pub samples: Seq<Fixed>,
    pub write_index: int,
}

/// A delay line has 512 samples and its write index points at one of them.
pub open spec fn delay_well_formed(m: DelayModel) -> bool {
    &&& m.samples.len() == RING_LEN
    &&& 0 <= m.write_index < RING_LEN
}

/// The delay line that holds silence.
pub open spec fn delay_silent() -> DelayModel {
    DelayModel { samples: Seq::new(RING_LEN as nat, |i: int| Fixed::zero()), write_index: 0 }
}

/// The position `write_index - delay`, in raw units of a frame.
pub open spec fn read_position(m: DelayModel, delay: Fixed) -> int {
    m.write_index * (SCALE as int) - delay@
}

/// Index of the slot at or before the read position.
pub open spec fn tap_index(m: DelayModel, delay: Fixed) -> int {
    (read_position(m, delay) / (SCALE as int)) % (RING_LEN as int)
}

/// Index of the slot after the one at `tap_index`.
pub open spec fn tap_successor(m: DelayModel, delay: Fixed) -> int {
    (tap_index(m, delay) + 1) % (RING_LEN as int)
}

/// How far the read position lies beyond the slot at `tap_index`: at least 0
/// and below 1.
pub open spec fn tap_fraction(m: DelayModel, delay: Fixed) -> Fixed {
    Fixed { raw: (read_position(m, delay) % (SCALE as int)) as i64 }
}

/// The sample read at `delay` frames behind the write index: with `a` the
/// sample at `tap_index`, `b` the one after it and `f` the fraction, it is
/// `a + f * (b - a)`.
pub open spec fn delay_read(m: DelayModel, delay: Fixed) -> Fixed {
    let a = m.samples[tap_index(m, delay)];
    let b = m.samples[tap_successor(m, delay)];
    a.add(tap_fraction(m, delay).mul(b.sub(a)))
}

/// The delay line with `x` in the slot at the write index.
pub open spec fn delay_store(m: DelayModel, x: Fixed) -> DelayModel {
    DelayModel { samples: m.samples.update(m.write_index, x), write_index: m.write_index }
}

/// The delay line with the write index moved on by one slot.
pub open spec fn delay_advance(m: DelayModel) -> DelayModel {
    DelayModel { samples: m.samples, write_index: (m.write_index + 1) % (RING_LEN as int) }
}

/// The delay line after `x` was written: stored, and the write index moved on.
pub open spec fn delay_write(m: DelayModel, x: Fixed) -> DelayModel {
    delay_advance(delay_store(m, x))
}

/// The sample that was written `k` writes ago, for `k` from 1 to 512.
pub open spec fn sample_ago(m: DelayModel, k: int) -> Fixed {
    m.samples[(m.write_index - k) % (RING_LEN as int)]
}

/// The delay line after the samples `xs` were written, the first one first.
pub open spec fn delay_written(m: DelayModel, xs: Seq<Fixed>) -> DelayModel
    decreases xs.len(),
{
    if xs.len() == 0 {
        m
    } else {
        delay_write(delay_written(m, xs.drop_last()), xs.last())
    }
}

/// A write keeps a delay line well formed, puts its sample one write back
/// and moves every earlier sample one write further back.
pub proof fn lemma_write_shifts(m: DelayModel, x: Fixed, k: int)
    requires
        delay_well_formed(m),
        1 <= k <= RING_LEN,
    ensures
        delay_well_formed(delay_write(m, x)),
        sample_ago(delay_write(m, x), 1) == x,
        k < RING_LEN ==> sample_ago(delay_write(m, x), k + 1) == sample_ago(m, k),
{
}

/// After a run of writes, the sample that was written `k` writes ago is the
/// `k`-th from the end of the run.
pub proof fn lemma_written_history(m: DelayModel, xs: Seq<Fixed>, k: int)
    requires
        delay_well_formed(m),
        1 <= k <= xs.len(),
        k <= RING_LEN,
    ensures
        delay_well_formed(delay_written(m, xs)),
        sample_ago(delay_written(m, xs), k) == xs[xs.len() - k],
    decreases xs.len(),
{
    lemma_written_well_formed(m, xs.drop_last());
    let before = delay_written(m, xs.drop_last());
    if k == 1 {
        lemma_write_shifts(before, xs.last(), 1);
    } else {
        lemma_written_history(m, xs.drop_last(), k - 1);
        lemma_write_shifts(before, xs.last(), k - 1);
    }
}

/// A run of writes keeps a delay line well formed.
pub proof fn lemma_written_well_formed(m: DelayModel, xs: Seq<Fixed>)
    requires
        delay_well_formed(m),
    ensures
        delay_well_formed(delay_written(m, xs)),
    decreases xs.len(),
{
    if xs.len() > 0 {
        lemma_written_well_formed(m, xs.drop_last());
    }
}

/// Read at a whole delay of `k` frames, a delay line returns the sample that
/// was written `k` writes ago, with no error.
pub proof fn lemma_read_whole_delay(m: DelayModel, k: i32)
    requires
        delay_well_formed(m),
        proper(sample_ago(m, k as int)),
    ensures
        delay_read(m, Fixed::from_int(k)) == sample_ago(m, k as int),
{
    let d = Fixed::from_int(k);
    let p = read_position(m, d);
    assert(p == (m.write_index - k) * (SCALE as int)) by (nonlinear_arith)
        requires
            p == m.write_index * (SCALE as int) - k * (SCALE as int),
    ;
    vstd::arithmetic::div_mod::lemma_fundamental_div_mod_converse(
        p,
        SCALE as int,
        m.write_index - k,
        0,
    );
    let a = sample_ago(m, k as int);
    let b = m.samples[tap_successor(m, d)];
    assert(tap_fraction(m, d) == Fixed::zero());
    assert(0 * b.sub(a)@ == 0);
}

/// Read at a delay of `k` frames and a fraction `f` of a frame, a delay line
/// returns the sample written `k + 1` writes ago, moved towards the one
/// written `k` writes ago by `1 - f` of their difference.
pub proof fn lemma_read_fractional_delay(m: DelayModel, k: i32, f: Fixed)
    requires
        delay_well_formed(m),
        0 < f@ < SCALE,
        0 <= k < RING_LEN,
    ensures
        delay_read(m, Fixed::from_int(k).add(f)) == sample_ago(m, k + 1).add(
            Fixed::one().sub(f).mul(sample_ago(m, k as int).sub(sample_ago(m, k + 1))),
        ),
{
    let d = Fixed::from_int(k).add(f);
    assert(d@ == k * (SCALE as int) + f@);
    let p = read_position(m, d);
    assert(p == (m.write_index - k - 1) * (SCALE as int) + (SCALE as int - f@))
        by (nonlinear_arith)
        requires
            p == m.write_index * (SCALE as int) - (k * (SCALE as int) + f@),
    ;
    vstd::arithmetic::div_mod::lemma_fundamental_div_mod_converse(
        p,
        SCALE as int,
        m.write_index - k - 1,
        SCALE as int - f@,
    );
    assert(tap_fraction(m, d) == Fixed::one().sub(f));
    assert(tap_index(m, d) == (m.write_index - k - 1) % (RING_LEN as int));
    assert(tap_successor(m, d) == (m.write_index - k) % (RING_LEN as int));
}

/// What goes into a delay line comes out again: after a run of writes,
/// reading at a whole delay of `k` frames returns the `k`-th sample from
/// the end of the run, with no error.
pub proof fn lemma_round_trip(m: DelayModel, xs: Seq<Fixed>, k: i32)
    requires
        delay_well_formed(m),
        1 <= k <= xs.len(),
        k <= RING_LEN,
        proper(xs[xs.len() - k]),
    ensures
        delay_read(delay_written(m, xs), Fixed::from_int(k)) == xs[xs.len() - k],
{
    lemma_written_history(m, xs, k as int);
    lemma_read_whole_delay(delay_written(m, xs), k);
}

/// A unit impulse comes back whole after a whole delay: where the sample
/// written `k` writes ago is 1, reading at `k` frames returns 1.
pub proof fn lemma_impulse_whole_delay(m: DelayModel, k: i32)
    requires
        delay_well_formed(m),
        sample_ago(m, k as int) == Fixed::one(),
    ensures
        delay_read(m, Fixed::from_int(k)) == Fixed::one(),
{
    lemma_read_whole_delay(m, k);
}

/// A unit impulse read at a delay of `k` frames and a fraction `f` comes
/// back as `1 - f` after `k` writes and as `f` one write later, with
/// silence before and after it.
pub proof fn lemma_impulse_fractional_delay(m: DelayModel, k: i32, f: Fixed)
    requires
        delay_well_formed(m),
        0 < f@ < SCALE,
        0 <= k < RING_LEN,
    ensures
        sample_ago(m, k as int) == Fixed::one() && sample_ago(m, k + 1) == Fixed::zero()
            ==> delay_read(m, Fixed::from_int(k).add(f)) == Fixed::one().sub(f),
        sample_ago(m, k as int) == Fixed::zero() && sample_ago(m, k + 1) == Fixed::one()
            ==> delay_read(m, Fixed::from_int(k).add(f)) == f,
        sample_ago(m, k as int) == Fixed::zero() && sample_ago(m, k + 1) == Fixed::zero()
            ==> delay_read(m, Fixed::from_int(k).add(f)) == Fixed::zero(),
{
    lemma_read_fractional_delay(m, k, f);
    let g = Fixed::one().sub(f);
    assert(g@ == SCALE - f@);
    lemma_times_unit(g@);
    assert(g@ * 0 == 0);
}

/// Whether every sample of a delay line is zero.
pub open spec fn delay_all_zero(m: DelayModel) -> bool {
    forall|i: int| 0 <= i < RING_LEN ==> (#[trigger] m.samples[i]) == Fixed::zero()
}

/// A delay line that holds only zeros returns zero at every delay, and
/// still holds only zeros after a zero is stored and after the write index
/// moves on.
pub proof fn lemma_delay_silence(m: DelayModel, delay: Fixed)
    requires
        delay_well_formed(m),
        delay_all_zero(m),
    ensures
        delay_read(m, delay) == Fixed::zero(),
        delay_all_zero(delay_store(m, Fixed::zero())),
        delay_all_zero(delay_advance(m)),
{
    let a = m.samples[tap_index(m, delay)];
    let b = m.samples[tap_successor(m, delay)];
    assert(a == Fixed::zero() && b == Fixed::zero());
    assert(tap_fraction(m, delay)@ * 0 == 0);
}

/// A delay line of 512 samples.
pub struct FractionalDelay {
    buf: [Fixed; 512],
    w: usize,
}

impl View for FractionalDelay {
    type V = DelayModel;

    closed spec fn view(&self) -> DelayModel {
        DelayModel { samples: self.buf@, write_index: self.w as int }
    }
}

impl FractionalDelay {
    #[verifier::type_invariant]
    spec fn write_index_in_ring(self) -> bool {
        self.w < RING_LEN
    }

    /// A delay line that holds silence.
    pub fn new() -> (d: Self)
        ensures
            d@ == delay_silent(),
            delay_well_formed(d@),
    {
        let d = Self { buf: [Fixed { raw: 0 }; 512], w: 0 };
        assert(d@.samples =~= delay_silent().samples);
        d
    }

    /// The sample at `delay` frames behind the write index, interpolated
    /// linearly between the two slots next to that position.
    pub fn read(&self, delay: Fixed) -> (x: Fixed)
        ensures
            x == delay_read(self@, delay),
            delay_well_formed(self@),
    {
        proof {
            use_type_invariant(self);
        }
        let p: i128 = (self.w as i128) * 0x1_0000_0000i128 - delay.raw as i128;
        let whole: i128 = match p.checked_div_euclid(0x1_0000_0000i128) {
            Some(q) => q,
            None => 0,
        };
        let part: i128 = match p.checked_rem_euclid(0x1_0000_0000i128) {
            Some(r) => r,
            None => 0,
        };
        let i: i128 = match whole.checked_rem_euclid(512i128) {
            Some(r) => r,
            None => 0,
        };
        let j: i128 = if i + 1 == 512 { 0 } else { i + 1 };
        let a = self.buf[i as usize];
        let b = self.buf[j as usize];
        let f = Fixed { raw: part as i64 };
        a.add(f.mul(b.sub(a)))
    }

    /// Puts `x` into the slot at the write index, which stays where it is.
    pub fn store(&mut self, x: Fixed)
        ensures
            final(self)@ == delay_store(old(self)@, x),
            delay_well_formed(final(self)@),
    {
        proof {
            use_type_invariant(&*self);
        }
        self.buf[self.w] = x;
    }

    /// Moves the write index on by one slot.
    pub fn advance(&mut self)
        ensures
            final(self)@ == delay_advance(old(self)@),
            delay_well_formed(final(self)@),
    {
        proof {
            use_type_invariant(&*self);
        }
        self.w = if self.w + 1 == RING_LEN { 0 } else { self.w + 1 };
    }

    /// Writes `x`: stores it and moves the write index on.
    pub fn write(&mut self, x: Fixed)
        ensures
            final(self)@ == delay_write(old(self)@, x),
            delay_well_formed(final(self)@),
    {
        self.store(x);
        self.advance();
    }
}

} // verus!
