//! Sound generation: voices, their synthesis algorithms, and the mixing
//! policy.
//!
//! All arithmetic is fixed point. A phase is a `u64` accumulator below
//! [`MAX_PHASE`], standing for an angle in `[0, 2*pi)`. A sample is an
//! `i64`; the sine waveform ranges over `[-SCALE_ONE, SCALE_ONE]` and a
//! voice's amplitude scales that unit range up to the output numeric
//! range. Frequencies are counted in millihertz so that note frequencies
//! keep three fractional digits.

pub mod config;
pub mod filter;

use vstd::prelude::*;
use vstd::arithmetic::div_mod::{
    lemma_div_is_ordered, lemma_multiply_divide_le, lemma_multiply_divide_lt,
    lemma_div_pos_is_pos, lemma_div_multiples_vanish,
};
use vstd::arithmetic::mul::lemma_mul_inequality;

use crate::hwp::HardwareParams;
use self::config::{configs_wf, SoundConfigCollection};
use self::filter::{chain_apply, filters_wf, Filter, FilterCollection};

verus! {

/// A count of discrete time steps, one per output sample frame.
pub type Ticks = u32;

/// The phase accumulator modulus; it stands for the angle `2*pi`.
pub const MAX_PHASE: u64 = 0x1_0000_0000;

/// Half the phase modulus; it stands for the angle `pi`.
pub const HALF_PHASE: u64 = 0x8000_0000;

/// The unit value of the sine waveform and of all scale fractions: a
/// scale of `SCALE_ONE` means a factor of one.
pub const SCALE_ONE: i64 = 32768;

/// `HALF_PHASE * HALF_PHASE / SCALE_ONE`: the divisor that brings the
/// parabolic sine numerator down to the unit range.
pub const SINE_DEN: u64 = 0x8000_0000_0000;

/// The largest amplitude a voice may carry; it covers signed outputs of
/// up to 32 bits.
pub const MAX_AMPLITUDE: i64 = 0x7FFF_FFFF;

/// The fixed mixing divisor: the concurrency cap of the fixed-cap
/// normalization policy.
pub const MAX_CONCURRENT: u32 = 4;

/// The number of frames in a generated wavetable period.
pub const PERIOD_SAMPLE_SIZE: usize = 1000;

/// The magnitude of a sample.
pub open spec fn mag(x: int) -> int {
    if x >= 0 {
        x
    } else {
        -x
    }
}

/// Scaling a sample by the fraction `num / den`, rounding the magnitude
/// down and keeping the sign, as the executable code does.
pub open spec fn scaled(val: int, num: int, den: int) -> int {
    if val >= 0 {
        val * num / den
    } else {
        -((-val) * num / den)
    }
}

/// Scaling by a fraction of at most one never grows a sample's magnitude.
pub proof fn lemma_scaled_le(val: int, num: int, den: int)
    requires
        0 < den,
        0 <= num <= den,
    ensures
        -mag(val) <= scaled(val, num, den) <= mag(val),
        0 <= val ==> 0 <= scaled(val, num, den),
        val <= 0 ==> scaled(val, num, den) <= 0,
{
    let m = mag(val);
    lemma_mul_inequality(num, den, m);
    lemma_div_is_ordered(m * num, m * den, den);
    lemma_div_multiples_vanish(m, den);
    lemma_div_pos_is_pos(m * num, den);
    vstd::arithmetic::mul::lemma_mul_nonnegative(m, num);
    vstd::arithmetic::mul::lemma_mul_is_commutative(m, num);
    vstd::arithmetic::mul::lemma_mul_is_commutative(m, den);
}

/// Scaling a sample of magnitude at most `den` by `num / den` yields a
/// magnitude of at most `num`.
pub proof fn lemma_scaled_amp(val: int, num: int, den: int)
    requires
        0 < den,
        0 <= num,
        mag(val) <= den,
    ensures
        -num <= scaled(val, num, den) <= num,
{
    let m = mag(val);
    lemma_mul_inequality(m, den, num);
    vstd::arithmetic::mul::lemma_mul_is_commutative(m, num);
    vstd::arithmetic::mul::lemma_mul_is_commutative(den, num);
    lemma_multiply_divide_le(m * num, den, num);
    lemma_div_pos_is_pos(m * num, den);
    vstd::arithmetic::mul::lemma_mul_nonnegative(m, num);
}

/// Scales `val` by the fraction `num / den`, rounding the magnitude down.
pub fn scale_sample(val: i64, num: u64, den: u64) -> (r: i64)
    requires
        0 < den,
        -0x7FFF_FFFF_FFFF_FFFF <= val,
        mag(scaled(val as int, num as int, den as int)) <= 0x7FFF_FFFF_FFFF_FFFF,
    ensures
        r == scaled(val as int, num as int, den as int),
{
    proof {
        vstd::arithmetic::mul::lemma_mul_upper_bound(
            mag(val as int),
            0x7FFF_FFFF_FFFF_FFFF,
            num as int,
            0xFFFF_FFFF_FFFF_FFFF,
        );
        vstd::arithmetic::mul::lemma_mul_nonnegative(mag(val as int), num as int);
    }
    if val >= 0 {
        let m: u128 = (val as u128) * (num as u128) / (den as u128);
        m as i64
    } else {
        let neg: i64 = -val;
        let m: u128 = (neg as u128) * (num as u128) / (den as u128);
        -(m as i64)
    }
}

/// The engine's sine waveform: a parabolic approximation of the sine of
/// `phase * 2 * pi / MAX_PHASE`, scaled to the unit range. It is exact at
/// zero, at the quarter points and at the half point, and bounded by
/// [`SCALE_ONE`] everywhere.
pub open spec fn sine_wave(phase: int) -> int {
    if phase < HALF_PHASE {
        4 * phase * (HALF_PHASE - phase) / (SINE_DEN as int)
    } else {
        -(4 * (phase - HALF_PHASE) * (MAX_PHASE - phase) / (SINE_DEN as int))
    }
}

/// The parabola `4 * x * (h - x)` stays below `h * h` on `[0, h]`.
proof fn lemma_parabola_bound(x: int, h: int)
    requires
        0 <= x <= h,
    ensures
        0 <= 4 * x * (h - x) <= h * h,
{
    assert(4 * x * (h - x) == h * h - (h - 2 * x) * (h - 2 * x)) by (nonlinear_arith);
    assert((h - 2 * x) * (h - 2 * x) >= 0) by (nonlinear_arith);
    assert(4 * x * (h - x) >= 0) by (nonlinear_arith)
        requires
            0 <= x <= h,
    ;
}

/// The sine waveform is bounded by the unit amplitude: for any phase in
/// the accumulator range, `-SCALE_ONE <= sine_wave(phase) <= SCALE_ONE`.
pub proof fn lemma_sine_wave_bounded(phase: int)
    requires
        0 <= phase < MAX_PHASE,
    ensures
        -SCALE_ONE <= sine_wave(phase) <= SCALE_ONE,
{
    let h = HALF_PHASE as int;
    let d = SINE_DEN as int;
    if phase < h {
        lemma_parabola_bound(phase, h);
        lemma_div_is_ordered(4 * phase * (h - phase), h * h, d);
        lemma_div_pos_is_pos(4 * phase * (h - phase), d);
        assert(h * h / d == SCALE_ONE);
    } else {
        let q = phase - h;
        lemma_parabola_bound(q, h);
        assert(4 * q * (MAX_PHASE - phase) == 4 * q * (h - q));
        lemma_div_is_ordered(4 * q * (h - q), h * h, d);
        lemma_div_pos_is_pos(4 * q * (h - q), d);
        assert(h * h / d == SCALE_ONE);
    }
}

/// The sine of a phase-accumulator angle, in the unit range.
pub fn sine(phase: u64) -> (r: i64)
    requires
        phase < MAX_PHASE,
    ensures
        r == sine_wave(phase as int),
        -SCALE_ONE <= r <= SCALE_ONE,
{
    proof {
        lemma_sine_wave_bounded(phase as int);
    }
    if phase < HALF_PHASE {
        let x: u128 = phase as u128;
        let num: u128 = 4 * x * ((HALF_PHASE - phase) as u128);
        let v: u128 = num / (SINE_DEN as u128);
        proof {
            lemma_parabola_bound(phase as int, HALF_PHASE as int);
        }
        v as i64
    } else {
        let q: u128 = (phase - HALF_PHASE) as u128;
        let num: u128 = 4 * q * ((MAX_PHASE as u128) - (phase as u128));
        let v: u128 = num / (SINE_DEN as u128);
        proof {
            lemma_parabola_bound(phase as int - HALF_PHASE as int, HALF_PHASE as int);
        }
        -(v as i64)
    }
}

/// The number of ticks a wall-clock duration spans at a sampling rate:
/// `floor(seconds * rate)`, with the duration given in milliseconds.
pub fn duration_to_ticks(duration_ms: u64, rate: Ticks) -> (t: Ticks)
    requires
        1 <= rate,
        duration_ms * rate <= u64::MAX,
        duration_ms * rate / 1000 < u32::MAX,
    ensures
        t == duration_ms * rate / 1000,
{
    ((duration_ms * (rate as u64)) / 1000) as u32
}

/// The phase-accumulator step of an oscillator:
/// `MAX_PHASE * freq / rate`, with the frequency in millihertz.
pub open spec fn spec_step(freq_mhz: int, rate: int) -> int {
    MAX_PHASE * freq_mhz / (rate * 1000)
}

/// The per-tick phase step for a frequency below the sampling rate; it
/// always lies below the phase modulus.
pub fn calc_step(freq_mhz: u64, rate: Ticks) -> (step: u64)
    requires
        1 <= rate,
        freq_mhz < rate * 1000,
    ensures
        step == spec_step(freq_mhz as int, rate as int),
        step < MAX_PHASE,
{
    let den: u64 = (rate as u64) * 1000;
    proof {
        vstd::arithmetic::mul::lemma_mul_upper_bound(
            MAX_PHASE as int,
            MAX_PHASE as int,
            freq_mhz as int,
            0xFFFF_FFFF_FFFF_FFFF,
        );
    }
    let step: u128 = (MAX_PHASE as u128) * (freq_mhz as u128) / (den as u128);
    proof {
        let m = MAX_PHASE as int;
        let f = freq_mhz as int;
        let d = den as int;
        lemma_mul_inequality(f, d - 1, m);
        vstd::arithmetic::mul::lemma_mul_is_commutative(f, m);
        vstd::arithmetic::mul::lemma_mul_is_commutative(d - 1, m);
        assert(m * f <= m * (d - 1) < m * d) by (nonlinear_arith)
            requires
                m * f <= m * (d - 1) && m > 0 && d > 0,
        ;
        lemma_multiply_divide_lt(m * f, d, m);
        vstd::arithmetic::mul::lemma_mul_is_commutative(d, m);
        lemma_div_pos_is_pos(m * f, d);
        vstd::arithmetic::mul::lemma_mul_nonnegative(m, f);
    }
    step as u64
}

/// Clamping of a scale factor: the magnitude, capped at the unit scale.
pub open spec fn spec_verify_scale(scale: int) -> int {
    let m = mag(scale);
    if m > SCALE_ONE {
        SCALE_ONE as int
    } else {
        m
    }
}

/// Clamps a scale factor into `[0, SCALE_ONE]`, taking magnitudes of
/// negative inputs, so that it is never applied unclamped.
pub fn verify_scale(scale: i64) -> (r: i64)
    ensures
        r == spec_verify_scale(scale as int),
        0 <= r <= SCALE_ONE,
{
    if scale >= SCALE_ONE {
        SCALE_ONE
    } else if scale >= 0 {
        scale
    } else if scale <= -SCALE_ONE {
        SCALE_ONE
    } else {
        -scale
    }
}

/// The largest amplitude the output numeric type `T` can carry: one less
/// than two to the power of one less than its bit width.
pub fn max_amplitude<T>() -> (r: usize)
    requires
        1 <= vstd::layout::size_of::<T>() <= 8,
        vstd::arithmetic::power2::pow2((vstd::layout::size_of::<T>() * 8 - 1) as nat) - 1
            <= usize::MAX,
    ensures
        r == vstd::arithmetic::power2::pow2((vstd::layout::size_of::<T>() * 8 - 1) as nat) - 1,
{
    let bytes: usize = core::mem::size_of::<T>();
    let shift: u64 = (bytes * 8 - 1) as u64;
    proof {
        vstd::bits::lemma_u64_pow2_no_overflow(shift as nat);
        vstd::bits::lemma_u64_shl_is_mul(1u64, shift);
    }
    let v: u64 = 1u64 << shift;
    (v - 1) as usize
}

/// The tracking of a voice's position in time: how many ticks have
/// passed, against how many the voice is meant to last.
#[derive(Clone, Copy, Debug, PartialEq, Eq, Structural)]
pub struct Ticker {
    /// Ticks seen so far; the next generated sample belongs to this tick.
    pub tick_count: Ticks,
    /// The length of the voice in ticks.
    pub duration: Ticks,
}

/// A ticker is well formed when its count never runs more than one past
/// its duration; the count freezes there, in the completed state.
pub open spec fn ticker_wf(t: Ticker) -> bool {
    &&& t.duration < u32::MAX
    &&& t.tick_count <= t.duration + 1
}

/// A ticker is complete once its count exceeds its duration.
pub open spec fn ticker_complete(t: Ticker) -> bool {
    t.tick_count > t.duration
}

/// A tick advances the count by one until the completed state is
/// reached; there the count freezes.
pub open spec fn ticker_ticked(t: Ticker) -> Ticker {
    if t.tick_count <= t.duration {
        Ticker { tick_count: (t.tick_count + 1) as u32, duration: t.duration }
    } else {
        t
    }
}

impl Ticker {
    /// A ticker at tick zero for a voice of the given duration.
    pub fn new(duration: Ticks) -> (t: Ticker)
        requires
            duration < u32::MAX,
        ensures
            t.tick_count == 0,
            t.duration == duration,
            ticker_wf(t),
            !ticker_complete(t),
    {
        Ticker { tick_count: 0, duration }
    }

    /// Whether the voice has outlived its duration: true exactly once the
    /// tick count exceeds it.
    pub fn is_complete(&self) -> (r: bool)
        ensures
            r == ticker_complete(*self),
    {
        self.tick_count > self.duration
    }

    /// Advances time by one tick; past the completed state the count
    /// freezes, so completion is permanent.
    pub fn tick(&mut self)
        requires
            ticker_wf(*old(self)),
        ensures
            *final(self) == ticker_ticked(*old(self)),
            ticker_wf(*final(self)),
    {
        if self.tick_count <= self.duration {
            self.tick_count = self.tick_count + 1;
        }
    }
}

/// The ghost model of a phase-accumulator oscillator voice.
#[verifier::ext_equal]
pub struct SinusoidView {
    /// The per-channel phase accumulators.
    pub phase: Seq<u64>,
    /// The per-channel phase steps.
    pub step: Seq<u64>,
    /// The per-channel amplitudes.
    pub amplitude: Seq<i64>,
    /// The filter chain, in application order.
    pub filters: Seq<Filter>,
    /// The voice's position in time.
    pub ticker: Ticker,
}

/// A phase advanced by one step, wrapped back below the modulus.
pub open spec fn wrap_phase(phase: int, step: int) -> int {
    if phase + step >= MAX_PHASE {
        phase + step - MAX_PHASE
    } else {
        phase + step
    }
}

impl SinusoidView {
    /// Well-formedness: one phase, step and amplitude per channel, all in
    /// their ranges, well-formed filters, a well-formed ticker.
    pub open spec fn wf(self) -> bool {
        &&& self.step.len() == self.phase.len()
        &&& self.amplitude.len() == self.phase.len()
        &&& (forall|i: int| 0 <= i < self.phase.len() ==> (#[trigger] self.phase[i]) < MAX_PHASE)
        &&& (forall|i: int| 0 <= i < self.step.len() ==> (#[trigger] self.step[i]) < MAX_PHASE)
        &&& (forall|i: int|
            0 <= i < self.amplitude.len() ==> 0 <= (#[trigger] self.amplitude[i]) <= MAX_AMPLITUDE)
        &&& filters_wf(self.filters)
        &&& ticker_wf(self.ticker)
    }

    /// The number of channels the voice can serve.
    pub open spec fn channels(self) -> nat {
        self.phase.len()
    }

    /// The raw synthesis output of one channel at the current tick: the
    /// sine of the channel's phase, scaled by the channel's amplitude.
    pub open spec fn raw(self, channel: int) -> int {
        scaled(sine_wave(self.phase[channel] as int), self.amplitude[channel] as int, SCALE_ONE as int)
    }

    /// What `generate` returns: the raw output run through the filter
    /// chain at the current tick.
    pub open spec fn gen(self, channel: int) -> int {
        chain_apply(self.filters, self.raw(channel), self.ticker.tick_count as int, channel)
    }

    /// The voice after one tick: every phase advanced by its step and
    /// wrapped, the ticker advanced.
    pub open spec fn ticked(self) -> SinusoidView {
        SinusoidView {
            phase: Seq::new(
                self.phase.len(),
                |i: int| wrap_phase(self.phase[i] as int, self.step[i] as int) as u64,
            ),
            ticker: ticker_ticked(self.ticker),
            ..self
        }
    }

    /// Whether the voice has outlived its duration.
    pub open spec fn complete(self) -> bool {
        ticker_complete(self.ticker)
    }
}

/// Any oscillator's output is bounded by the channel's amplitude, at
/// every tick and whatever its filter chain does.
pub proof fn lemma_oscillator_bounded(v: SinusoidView, channel: int)
    requires
        v.wf(),
        0 <= channel < v.channels(),
    ensures
        mag(v.gen(channel)) <= v.amplitude[channel],
{
    lemma_sine_wave_bounded(v.phase[channel] as int);
    lemma_scaled_amp(sine_wave(v.phase[channel] as int), v.amplitude[channel] as int, SCALE_ONE as int);
    crate::sound::filter::lemma_chain_apply_bound(
        v.filters,
        v.raw(channel),
        v.ticker.tick_count as int,
        channel,
    );
}

/// Ticking keeps every stored phase inside `[0, MAX_PHASE)`: however far
/// the accumulated phase runs, the wrap keeps the invariant.
pub proof fn lemma_phase_wraparound(v: SinusoidView)
    requires
        v.wf(),
    ensures
        v.ticked().wf(),
        forall|i: int| 0 <= i < v.channels() ==> 0 <= #[trigger] v.ticked().phase[i] < MAX_PHASE,
{
    assert forall|i: int| 0 <= i < v.channels() implies 0 <= #[trigger] v.ticked().phase[i]
        < MAX_PHASE by {
        assert(0 <= wrap_phase(v.phase[i] as int, v.step[i] as int) < MAX_PHASE);
    }
}

/// A phase-accumulator oscillator voice: per channel, a phase advanced by
/// a frequency-derived step each tick, read through the sine waveform and
/// scaled by an amplitude.
#[derive(Debug)]
pub struct Sinusoid {
    /// The per-channel phase accumulators, below [`MAX_PHASE`].
    pub phase: Vec<u64>,
    /// The per-channel phase steps, below [`MAX_PHASE`].
    pub step: Vec<u64>,
    /// The per-channel amplitudes, in `[0, MAX_AMPLITUDE]`.
    pub amplitude: Vec<i64>,
    /// The filter chain applied to every generated sample.
    pub filters: FilterCollection,
    /// The voice's position in time.
    pub ticker: Ticker,
}

impl View for Sinusoid {
    type V = SinusoidView;

    open spec fn view(&self) -> SinusoidView {
        SinusoidView {
            phase: self.phase@,
            step: self.step@,
            amplitude: self.amplitude@,
            filters: self.filters.filters@,
            ticker: self.ticker,
        }
    }
}

impl Sinusoid {
    /// Builds an oscillator voice: one channel per configuration entry,
    /// phases taken as given, steps derived from the frequencies and the
    /// sampling rate, with an empty filter chain and a duration measured
    /// in ticks of the sampling rate.
    pub fn new<T>(config: &SoundConfigCollection, duration_ms: u64, hwp: &HardwareParams<T>) -> (s:
        Sinusoid)
        requires
            hwp.rate >= 1,
            duration_ms * hwp.rate <= u64::MAX,
            duration_ms * hwp.rate / 1000 < u32::MAX,
            configs_wf(config.configs@),
            forall|i: int|
                0 <= i < config.configs@.len() ==> (#[trigger] config.configs@[i]).freq_mhz
                    < hwp.rate * 1000,
        ensures
            s@.wf(),
            s@.channels() == config.configs@.len(),
            forall|i: int|
                0 <= i < config.configs@.len() ==> #[trigger] s@.phase[i]
                    == config.configs@[i].phase,
            forall|i: int|
                0 <= i < config.configs@.len() ==> #[trigger] s@.step[i] == spec_step(
                    config.configs@[i].freq_mhz as int,
                    hwp.rate as int,
                ),
            forall|i: int|
                0 <= i < config.configs@.len() ==> #[trigger] s@.amplitude[i]
                    == config.configs@[i].amplitude,
            s@.filters =~= Seq::<Filter>::empty(),
            s@.ticker.tick_count == 0,
            s@.ticker.duration == duration_ms * hwp.rate / 1000,
    {
        let d = duration_to_ticks(duration_ms, hwp.rate());
        let n = config.len();
        let mut phase: Vec<u64> = Vec::new();
        let mut step: Vec<u64> = Vec::new();
        let mut amplitude: Vec<i64> = Vec::new();
        let mut i: usize = 0;
        while i < n
            invariant
                i <= n == config.configs@.len(),
                hwp.rate >= 1,
                configs_wf(config.configs@),
                forall|j: int|
                    0 <= j < config.configs@.len() ==> (#[trigger] config.configs@[j]).freq_mhz
                        < hwp.rate * 1000,
                phase@.len() == i,
                step@.len() == i,
                amplitude@.len() == i,
                forall|j: int|
                    0 <= j < i ==> #[trigger] phase@[j] == config.configs@[j].phase,
                forall|j: int|
                    0 <= j < i ==> #[trigger] step@[j] == spec_step(
                        config.configs@[j].freq_mhz as int,
                        hwp.rate as int,
                    ),
                forall|j: int|
                    0 <= j < i ==> #[trigger] amplitude@[j] == config.configs@[j].amplitude,
                forall|j: int| 0 <= j < i ==> #[trigger] phase@[j] < MAX_PHASE,
                forall|j: int| 0 <= j < i ==> #[trigger] step@[j] < MAX_PHASE,
                forall|j: int| 0 <= j < i ==> 0 <= #[trigger] amplitude@[j] <= MAX_AMPLITUDE,
            decreases n - i,
        {
            let c = config.get(i);
            phase.push(c.phase);
            step.push(calc_step(c.freq_mhz, hwp.rate()));
            amplitude.push(c.amplitude);
            i = i + 1;
        }
        Sinusoid { phase, step, amplitude, filters: FilterCollection::new(), ticker: Ticker::new(d) }
    }

    /// Appends a filter to the voice's chain.
    pub fn add_filter(&mut self, filter: Filter)
        requires
            crate::sound::filter::filter_wf(filter),
        ensures
            final(self)@ =~= (SinusoidView { filters: old(self)@.filters.push(filter), ..old(self)@ }),
    {
        self.filters.add_filter(filter);
    }

    /// One channel's sample at the current tick: the sine of the phase,
    /// scaled by the amplitude, run through the filter chain. Its
    /// magnitude never exceeds the channel's amplitude.
    pub fn generate(&self, channel: u32) -> (r: i64)
        requires
            self@.wf(),
            channel < self@.channels(),
        ensures
            r == self@.gen(channel as int),
            mag(r as int) <= self@.amplitude[channel as int],
    {
        proof {
            lemma_oscillator_bounded(self@, channel as int);
            lemma_sine_wave_bounded(self@.phase[channel as int] as int);
            lemma_scaled_amp(
                sine_wave(self@.phase[channel as int] as int),
                self@.amplitude[channel as int] as int,
                SCALE_ONE as int,
            );
        }
        let ch = channel as usize;
        let wave = sine(self.phase[ch]);
        let raw = scale_sample(wave, self.amplitude[ch] as u64, SCALE_ONE as u64);
        self.filters.apply(raw, self.ticker.tick_count, channel)
    }

    /// Advances every channel's phase by its step, wrapping below the
    /// modulus, and advances the ticker.
    pub fn tick(&mut self)
        requires
            old(self)@.wf(),
        ensures
            final(self)@ =~= old(self)@.ticked(),
            final(self)@.wf(),
    {
        proof {
            lemma_phase_wraparound(old(self)@);
        }
        let n = self.phase.len();
        let mut i: usize = 0;
        while i < n
            invariant
                i <= n == self.phase@.len(),
                self.step@ == old(self)@.step,
                self.amplitude@ == old(self)@.amplitude,
                self.filters.filters@ == old(self)@.filters,
                self.ticker == old(self)@.ticker,
                old(self)@.wf(),
                self.phase@.len() == old(self)@.phase.len(),
                forall|j: int|
                    0 <= j < i ==> #[trigger] self.phase@[j] == wrap_phase(
                        old(self)@.phase[j] as int,
                        old(self)@.step[j] as int,
                    ),
                forall|j: int| i <= j < n ==> #[trigger] self.phase@[j] == old(self)@.phase[j],
            decreases n - i,
        {
            let p = self.phase[i];
            let st = self.step[i];
            let mut np = p + st;
            if np >= MAX_PHASE {
                np = np - MAX_PHASE;
            }
            self.phase[i] = np;
            i = i + 1;
        }
        self.ticker.tick();
        proof {
            assert(self.phase@ =~= old(self)@.ticked().phase);
        }
    }

    /// Whether the voice has outlived its duration.
    pub fn is_complete(&self) -> (r: bool)
        ensures
            r == self@.complete(),
    {
        self.ticker.is_complete()
    }
}

/// A pre-loaded, interleaved multi-channel sample buffer with its channel
/// count: the opaque input of wavetable and sample-playback voices.
#[derive(Debug)]
pub struct InputConfig {
    /// The interleaved samples, one frame per `channels` entries.
    pub data: Vec<i64>,
    /// The number of interleaved channels in `data`, at least one.
    pub channels: u32,
}

impl InputConfig {
    /// Wraps an already-loaded interleaved buffer.
    pub fn new(data: Vec<i64>, channels: u32) -> (c: InputConfig)
        ensures
            c.data@ == data@,
            c.channels == channels,
    {
        InputConfig { data, channels }
    }
}

/// The ghost model of a sample-playback voice.
#[verifier::ext_equal]
pub struct CachedSoundView {
    /// The interleaved recording.
    pub data: Seq<i64>,
    /// The number of interleaved channels in the recording.
    pub channels: u32,
    /// The current frame.
    pub idx: usize,
}

impl CachedSoundView {
    /// The number of frames in the recording.
    pub open spec fn frames(self) -> int {
        self.data.len() as int / self.channels as int
    }

    /// Well-formedness: a positive channel count dividing the buffer
    /// length, samples within the output range, the frame index at most
    /// one past the end.
    pub open spec fn wf(self) -> bool {
        &&& self.channels >= 1
        &&& self.data.len() % (self.channels as nat) == 0
        &&& (forall|i: int| 0 <= i < self.data.len() ==> mag(#[trigger] self.data[i] as int) <= MAX_AMPLITUDE)
        &&& self.idx <= self.frames()
    }

    /// Whether the recording is exhausted.
    pub open spec fn complete(self) -> bool {
        self.idx >= self.frames()
    }

    /// What `generate` returns: the recorded value of the current frame
    /// on the requested channel, or silence once exhausted.
    pub open spec fn gen(self, channel: int) -> int {
        if self.complete() {
            0
        } else {
            self.data[self.idx * self.channels + channel % (self.channels as int)] as int
        }
    }

    /// The voice after one tick: the frame index advanced until the
    /// recording is exhausted.
    pub open spec fn ticked(self) -> CachedSoundView {
        if self.complete() {
            self
        } else {
            CachedSoundView { idx: (self.idx + 1) as usize, ..self }
        }
    }
}

/// A sample-playback voice: a fixed recording played frame by frame, then
/// silence.
#[derive(Debug)]
pub struct CachedSound {
    /// The recording and its channel count.
    pub period_config: InputConfig,
    /// The current frame.
    pub idx: usize,
}

impl View for CachedSound {
    type V = CachedSoundView;

    open spec fn view(&self) -> CachedSoundView {
        CachedSoundView {
            data: self.period_config.data@,
            channels: self.period_config.channels,
            idx: self.idx,
        }
    }
}

/// The whole buffer length of a well-formed recording is its frame count
/// times its channel count, and a frame below the count indexes within
/// the buffer.
proof fn lemma_frames_layout(len: int, channels: int, idx: int, in_ch: int)
    requires
        channels >= 1,
        len >= 0,
        len % channels == 0,
        0 <= in_ch < channels,
    ensures
        len == (len / channels) * channels,
        len / channels <= len,
        0 <= idx <= len / channels ==> 0 <= idx * channels <= len,
        0 <= idx < len / channels ==> 0 <= idx * channels + in_ch < len,
        idx >= len / channels && idx >= 0 ==> idx * channels >= len,
{
    vstd::arithmetic::div_mod::lemma_fundamental_div_mod(len, channels);
    let frames = len / channels;
    lemma_div_pos_is_pos(len, channels);
    assert(len == channels * frames);
    vstd::arithmetic::mul::lemma_mul_is_commutative(channels, frames);
    vstd::arithmetic::div_mod::lemma_div_nonincreasing(len, channels);
    if 0 <= idx <= frames {
        lemma_mul_inequality(idx, frames, channels);
        vstd::arithmetic::mul::lemma_mul_nonnegative(idx, channels);
    }
    if 0 <= idx < frames {
        assert(idx * channels + in_ch < len) by (nonlinear_arith)
            requires
                len == channels * frames && idx < frames && in_ch < channels && channels >= 1
                    && idx >= 0 && in_ch >= 0,
        ;
        vstd::arithmetic::mul::lemma_mul_nonnegative(idx, channels);
    }
    if idx >= frames && idx >= 0 {
        assert(idx * channels >= len) by (nonlinear_arith)
            requires
                len == channels * frames && idx >= frames && channels >= 1,
        ;
    }
}

impl CachedSound {
    /// A playback voice at the start of its recording.
    pub fn new(period_config: InputConfig) -> (s: CachedSound)
        requires
            period_config.channels >= 1,
            period_config.data@.len() % (period_config.channels as nat) == 0,
            forall|i: int|
                0 <= i < period_config.data@.len() ==> mag(
                    #[trigger] period_config.data@[i] as int,
                ) <= MAX_AMPLITUDE,
        ensures
            s@.wf(),
            s@.data == period_config.data@,
            s@.channels == period_config.channels,
            s@.idx == 0,
    {
        proof {
            lemma_div_pos_is_pos(period_config.data@.len() as int, period_config.channels as int);
        }
        CachedSound { period_config, idx: 0 }
    }

    /// The recorded value of the current frame on the requested channel,
    /// or silence once the recording is exhausted. Channels beyond the
    /// recording's own wrap around.
    pub fn generate(&self, channel: u32) -> (r: i64)
        requires
            self@.wf(),
        ensures
            r == self@.gen(channel as int),
            mag(r as int) <= MAX_AMPLITUDE,
    {
        let len = self.period_config.data.len();
        let chs = self.period_config.channels;
        let in_channel = (channel % chs) as usize;
        proof {
            lemma_frames_layout(
                self@.data.len() as int,
                chs as int,
                self.idx as int,
                in_channel as int,
            );
        }
        if self.is_complete() {
            0
        } else {
            self.period_config.data[self.idx * (chs as usize) + in_channel]
        }
    }

    /// Advances to the next frame; an exhausted recording stays put.
    pub fn tick(&mut self)
        requires
            old(self)@.wf(),
        ensures
            final(self)@ =~= old(self)@.ticked(),
            final(self)@.wf(),
    {
        let len = self.period_config.data.len();
        proof {
            lemma_frames_layout(len as int, self@.channels as int, self.idx as int, 0);
        }
        if !self.is_complete() {
            self.idx = self.idx + 1;
        }
    }

    /// Whether the recording is exhausted: true once the frame index
    /// times the channel count reaches the buffer length.
    pub fn is_complete(&self) -> (r: bool)
        requires
            self@.wf(),
        ensures
            r == self@.complete(),
    {
        let len = self.period_config.data.len();
        proof {
            lemma_frames_layout(len as int, self@.channels as int, self.idx as int, 0);
        }
        self.idx * (self.period_config.channels as usize) >= len
    }
}


/// The unit of the fractional wavetable read index: index values count
/// `1 / INDEX_ONE` frames.
pub const INDEX_ONE: u64 = 0x1_0000_0000;

/// The largest number of frames a wavetable may hold.
pub const MAX_TABLE_FRAMES: usize = 0x10_0000;

/// A fractional index advanced by one step, wrapped below the table end.
pub open spec fn wrap_index(idx: int, step: int, limit: int) -> int {
    if idx + step >= limit {
        idx + step - limit
    } else {
        idx + step
    }
}

/// The per-tick step of a wavetable read index: the whole table spans one
/// cycle, so the step is `frames * INDEX_ONE * freq / rate` index units.
pub open spec fn spec_index_step(frames: int, freq_mhz: int, rate: int) -> int {
    frames * INDEX_ONE * freq_mhz / (rate * 1000)
}

/// A phase offset scaled into table space: the fraction `phase /
/// MAX_PHASE` of the whole table.
pub open spec fn spec_index_start(frames: int, phase: int) -> int {
    phase * (frames * INDEX_ONE) / (MAX_PHASE as int)
}

/// The per-tick wavetable index step for a frequency below the sampling
/// rate; it always lies below the table end.
fn calc_index_step(frames: u64, freq_mhz: u64, rate: Ticks) -> (step: u64)
    requires
        1 <= frames <= MAX_TABLE_FRAMES,
        1 <= rate,
        freq_mhz < rate * 1000,
    ensures
        step == spec_index_step(frames as int, freq_mhz as int, rate as int),
        step < frames * INDEX_ONE,
{
    let den: u64 = (rate as u64) * 1000;
    let span: u64 = frames * INDEX_ONE;
    proof {
        vstd::arithmetic::mul::lemma_mul_upper_bound(
            span as int,
            0x10_0000_0000_0000,
            freq_mhz as int,
            0xFFFF_FFFF_FFFF_FFFF,
        );
        let a = span as int;
        let f = freq_mhz as int;
        let d = den as int;
        lemma_mul_inequality(f, d - 1, a);
        vstd::arithmetic::mul::lemma_mul_is_commutative(f, a);
        vstd::arithmetic::mul::lemma_mul_is_commutative(d - 1, a);
        assert(a * f <= a * (d - 1) < a * d) by (nonlinear_arith)
            requires
                a * f <= a * (d - 1) && a > 0 && d > 0,
        ;
        lemma_multiply_divide_lt(a * f, d, a);
        vstd::arithmetic::mul::lemma_mul_is_commutative(d, a);
        lemma_div_pos_is_pos(a * f, d);
        vstd::arithmetic::mul::lemma_mul_nonnegative(a, f);
    }
    let step: u128 = (span as u128) * (freq_mhz as u128) / (den as u128);
    step as u64
}

/// The starting wavetable index for a phase offset; it always lies below
/// the table end.
fn calc_index_start(frames: u64, phase: u64) -> (idx: u64)
    requires
        1 <= frames <= MAX_TABLE_FRAMES,
        phase < MAX_PHASE,
    ensures
        idx == spec_index_start(frames as int, phase as int),
        idx < frames * INDEX_ONE,
{
    let span: u64 = frames * INDEX_ONE;
    proof {
        vstd::arithmetic::mul::lemma_mul_upper_bound(
            phase as int,
            0xFFFF_FFFF,
            span as int,
            0x10_0000_0000_0000,
        );
        let a = span as int;
        let ph = phase as int;
        let m = MAX_PHASE as int;
        lemma_mul_inequality(ph, m - 1, a);
        vstd::arithmetic::mul::lemma_mul_is_commutative(ph, a);
        vstd::arithmetic::mul::lemma_mul_is_commutative(m - 1, a);
        assert(a * ph <= a * (m - 1) < a * m) by (nonlinear_arith)
            requires
                a * ph <= a * (m - 1) && a > 0 && m > 0,
        ;
        lemma_multiply_divide_lt(a * ph, m, a);
        vstd::arithmetic::mul::lemma_mul_is_commutative(m, a);
        lemma_div_pos_is_pos(a * ph, m);
        vstd::arithmetic::mul::lemma_mul_nonnegative(a, ph);
        vstd::arithmetic::mul::lemma_mul_is_commutative(a, ph);
    }
    let idx: u128 = (phase as u128) * (span as u128) / (MAX_PHASE as u128);
    idx as u64
}

/// The ghost model of a wavetable-lookup voice.
#[verifier::ext_equal]
pub struct CachedPeriodView {
    /// The interleaved waveform table.
    pub table: Seq<i64>,
    /// The number of interleaved channels in the table.
    pub in_channels: u32,
    /// The per-channel amplitudes.
    pub amplitude: Seq<i64>,
    /// The per-channel fractional read indices, in `INDEX_ONE` units.
    pub idx: Seq<u64>,
    /// The per-channel index steps.
    pub step: Seq<u64>,
    /// The table end in index units: `frames * INDEX_ONE`.
    pub idx_limit: u64,
    /// The filter chain, in application order.
    pub filters: Seq<Filter>,
    /// The voice's position in time.
    pub ticker: Ticker,
}

impl CachedPeriodView {
    /// The number of frames in the table.
    pub open spec fn frames(self) -> int {
        self.table.len() as int / self.in_channels as int
    }

    /// The number of channels the voice can serve.
    pub open spec fn channels(self) -> nat {
        self.idx.len()
    }

    /// Well-formedness: a non-empty table of unit-range samples whose
    /// length the channel count divides, indices and steps below the
    /// table end, amplitudes in range, well-formed filters and ticker.
    pub open spec fn wf(self) -> bool {
        &&& self.in_channels >= 1
        &&& self.table.len() % (self.in_channels as nat) == 0
        &&& 1 <= self.frames() <= MAX_TABLE_FRAMES
        &&& (forall|i: int|
            0 <= i < self.table.len() ==> mag(#[trigger] self.table[i] as int) <= SCALE_ONE)
        &&& self.idx_limit == self.frames() * INDEX_ONE
        &&& self.step.len() == self.idx.len()
        &&& self.amplitude.len() == self.idx.len()
        &&& (forall|i: int| 0 <= i < self.idx.len() ==> (#[trigger] self.idx[i]) < self.idx_limit)
        &&& (forall|i: int| 0 <= i < self.step.len() ==> (#[trigger] self.step[i]) < self.idx_limit)
        &&& (forall|i: int|
            0 <= i < self.amplitude.len() ==> 0 <= (#[trigger] self.amplitude[i]) <= MAX_AMPLITUDE)
        &&& filters_wf(self.filters)
        &&& ticker_wf(self.ticker)
    }

    /// The linear interpolation between the two table samples around the
    /// channel's read index, wrapping toward frame zero at the table end.
    pub open spec fn interp(self, channel: int) -> int {
        let fi = self.idx[channel] as int / INDEX_ONE as int;
        let frac = self.idx[channel] as int % INDEX_ONE as int;
        let in_ch = channel % (self.in_channels as int);
        let lower = self.table[fi * self.in_channels + in_ch] as int;
        let upper = self.table[((fi + 1) % self.frames()) * self.in_channels + in_ch] as int;
        lower + scaled(upper - lower, frac, INDEX_ONE as int)
    }

    /// The raw synthesis output of one channel: the interpolated table
    /// value scaled by the channel's amplitude.
    pub open spec fn raw(self, channel: int) -> int {
        scaled(self.interp(channel), self.amplitude[channel] as int, SCALE_ONE as int)
    }

    /// What `generate` returns: the raw output run through the filter
    /// chain at the current tick.
    pub open spec fn gen(self, channel: int) -> int {
        chain_apply(self.filters, self.raw(channel), self.ticker.tick_count as int, channel)
    }

    /// The voice after one tick: every read index advanced by its step
    /// and wrapped at the table end, the ticker advanced.
    pub open spec fn ticked(self) -> CachedPeriodView {
        CachedPeriodView {
            idx: Seq::new(
                self.idx.len(),
                |i: int| wrap_index(self.idx[i] as int, self.step[i] as int, self.idx_limit as int) as u64,
            ),
            ticker: ticker_ticked(self.ticker),
            ..self
        }
    }

    /// Whether the voice has outlived its duration.
    pub open spec fn complete(self) -> bool {
        ticker_complete(self.ticker)
    }
}

/// The frame index under a well-formed read index lies inside the table,
/// and so does its successor frame after the wrap.
proof fn lemma_table_indices(v: CachedPeriodView, channel: int)
    requires
        v.wf(),
        0 <= channel < v.channels(),
    ensures
        0 <= (v.idx[channel] as int / INDEX_ONE as int) < v.frames(),
        0 <= (v.idx[channel] as int % INDEX_ONE as int) < INDEX_ONE,
        ({
            let fi = v.idx[channel] as int / INDEX_ONE as int;
            let in_ch = channel % (v.in_channels as int);
            &&& 0 <= in_ch < v.in_channels
            &&& 0 <= fi * v.in_channels + in_ch < v.table.len()
            &&& 0 <= ((fi + 1) % v.frames()) * v.in_channels + in_ch < v.table.len()
        }),
{
    let one = INDEX_ONE as int;
    let cur = v.idx[channel] as int;
    let frames = v.frames();
    lemma_div_pos_is_pos(cur, one);
    assert(cur < frames * one);
    vstd::arithmetic::mul::lemma_mul_is_commutative(frames, one);
    lemma_multiply_divide_lt(cur, one, frames);
    vstd::arithmetic::div_mod::lemma_mod_bound(cur, one);
    let fi = cur / one;
    let in_ch = channel % (v.in_channels as int);
    vstd::arithmetic::div_mod::lemma_mod_bound(channel, v.in_channels as int);
    lemma_frames_layout(v.table.len() as int, v.in_channels as int, fi, in_ch);
    vstd::arithmetic::div_mod::lemma_mod_bound(fi + 1, frames);
    lemma_frames_layout(v.table.len() as int, v.in_channels as int, (fi + 1) % frames, in_ch);
}

/// The interpolated table value lies between its two source samples, so
/// its magnitude stays within the unit range.
pub proof fn lemma_interp_bounded(v: CachedPeriodView, channel: int)
    requires
        v.wf(),
        0 <= channel < v.channels(),
    ensures
        mag(v.interp(channel)) <= SCALE_ONE,
{
    lemma_table_indices(v, channel);
    let fi = v.idx[channel] as int / INDEX_ONE as int;
    let frac = v.idx[channel] as int % INDEX_ONE as int;
    let in_ch = channel % (v.in_channels as int);
    let lower = v.table[fi * v.in_channels + in_ch] as int;
    let upper = v.table[((fi + 1) % v.frames()) * v.in_channels + in_ch] as int;
    lemma_scaled_le(upper - lower, frac, INDEX_ONE as int);
}

/// A wavetable voice's output is bounded by the channel's amplitude, at
/// every tick and whatever its filter chain does.
pub proof fn lemma_wavetable_bounded(v: CachedPeriodView, channel: int)
    requires
        v.wf(),
        0 <= channel < v.channels(),
    ensures
        mag(v.gen(channel)) <= v.amplitude[channel],
{
    lemma_interp_bounded(v, channel);
    lemma_scaled_amp(v.interp(channel), v.amplitude[channel] as int, SCALE_ONE as int);
    crate::sound::filter::lemma_chain_apply_bound(
        v.filters,
        v.raw(channel),
        v.ticker.tick_count as int,
        channel,
    );
}

/// Reading a table at a whole-frame index returns the stored sample
/// exactly: when the fractional part is zero, no interpolation error is
/// introduced.
pub proof fn lemma_interp_exact_at_integer(v: CachedPeriodView, channel: int)
    requires
        v.wf(),
        0 <= channel < v.channels(),
        v.idx[channel] as int % INDEX_ONE as int == 0,
    ensures
        v.interp(channel) == v.table[(v.idx[channel] as int / INDEX_ONE as int) * v.in_channels
            + channel % (v.in_channels as int)],
{
    lemma_table_indices(v, channel);
    let fi = v.idx[channel] as int / INDEX_ONE as int;
    let in_ch = channel % (v.in_channels as int);
    let lower = v.table[fi * v.in_channels + in_ch] as int;
    let upper = v.table[((fi + 1) % v.frames()) * v.in_channels + in_ch] as int;
    let d = upper - lower;
    let m = mag(d);
    assert(m * 0 == 0);
    assert(0int / INDEX_ONE as int == 0) by {
        vstd::arithmetic::div_mod::lemma_div_of0(INDEX_ONE as int);
    }
    assert(scaled(d, 0, INDEX_ONE as int) == 0);
}

/// A wavetable-lookup voice: a read-only waveform table read per channel
/// at a fractional index with linear interpolation, the index advanced by
/// a frequency-derived step each tick and wrapped at the table end.
#[derive(Debug)]
pub struct CachedPeriod {
    /// The waveform table and its channel count.
    pub period_config: InputConfig,
    /// The per-channel amplitudes, in `[0, MAX_AMPLITUDE]`.
    pub amplitude: Vec<i64>,
    /// The per-channel fractional read indices.
    pub idx: Vec<u64>,
    /// The per-channel index steps.
    pub idx_step: Vec<u64>,
    /// The table end in index units.
    pub idx_limit: u64,
    /// The filter chain applied to every generated sample.
    pub filters: FilterCollection,
    /// The voice's position in time.
    pub ticker: Ticker,
}

impl View for CachedPeriod {
    type V = CachedPeriodView;

    open spec fn view(&self) -> CachedPeriodView {
        CachedPeriodView {
            table: self.period_config.data@,
            in_channels: self.period_config.channels,
            amplitude: self.amplitude@,
            idx: self.idx@,
            step: self.idx_step@,
            idx_limit: self.idx_limit,
            filters: self.filters.filters@,
            ticker: self.ticker,
        }
    }
}

impl CachedPeriod {
    /// Builds a wavetable voice over an interleaved table: one channel
    /// per configuration entry, the read index starting at the phase
    /// offset scaled into table space and stepping with the frequency,
    /// with an empty filter chain and a duration measured in ticks.
    pub fn new<T>(
        period_config: InputConfig,
        sound_config: &SoundConfigCollection,
        duration_ms: u64,
        params: &HardwareParams<T>,
    ) -> (s: CachedPeriod)
        requires
            params.rate >= 1,
            duration_ms * params.rate <= u64::MAX,
            duration_ms * params.rate / 1000 < u32::MAX,
            period_config.channels >= 1,
            period_config.data@.len() % (period_config.channels as nat) == 0,
            1 <= period_config.data@.len() as int / (period_config.channels as int)
                <= MAX_TABLE_FRAMES,
            forall|i: int|
                0 <= i < period_config.data@.len() ==> mag(#[trigger] period_config.data@[i] as int)
                    <= SCALE_ONE,
            configs_wf(sound_config.configs@),
            forall|i: int|
                0 <= i < sound_config.configs@.len() ==> (
                #[trigger] sound_config.configs@[i]).freq_mhz < params.rate * 1000,
        ensures
            s@.wf(),
            s@.table == period_config.data@,
            s@.in_channels == period_config.channels,
            s@.channels() == sound_config.configs@.len(),
            forall|i: int|
                0 <= i < sound_config.configs@.len() ==> #[trigger] s@.amplitude[i]
                    == sound_config.configs@[i].amplitude,
            forall|i: int|
                0 <= i < sound_config.configs@.len() ==> #[trigger] s@.step[i] == spec_index_step(
                    s@.frames(),
                    sound_config.configs@[i].freq_mhz as int,
                    params.rate as int,
                ),
            forall|i: int|
                0 <= i < sound_config.configs@.len() ==> #[trigger] s@.idx[i] == spec_index_start(
                    s@.frames(),
                    sound_config.configs@[i].phase as int,
                ),
            s@.filters =~= Seq::<Filter>::empty(),
            s@.ticker.tick_count == 0,
            s@.ticker.duration == duration_ms * params.rate / 1000,
    {
        let d = duration_to_ticks(duration_ms, params.rate());
        let len = period_config.data.len();
        let chs = period_config.channels as usize;
        let frames: u64 = (len / chs) as u64;
        proof {
            lemma_frames_layout(len as int, chs as int, 0, 0);
        }
        let idx_limit: u64 = frames * INDEX_ONE;
        let n = sound_config.len();
        let ghost cfgs = sound_config.configs@;
        let mut amplitude: Vec<i64> = Vec::new();
        let mut idx: Vec<u64> = Vec::new();
        let mut idx_step: Vec<u64> = Vec::new();
        let mut i: usize = 0;
        while i < n
            invariant
                i <= n == cfgs.len(),
                cfgs == sound_config.configs@,
                params.rate >= 1,
                configs_wf(cfgs),
                forall|j: int|
                    0 <= j < cfgs.len() ==> (#[trigger] cfgs[j]).freq_mhz < params.rate * 1000,
                1 <= frames <= MAX_TABLE_FRAMES,
                idx_limit == frames * INDEX_ONE,
                amplitude@.len() == i,
                idx@.len() == i,
                idx_step@.len() == i,
                forall|j: int| 0 <= j < i ==> #[trigger] amplitude@[j] == cfgs[j].amplitude,
                forall|j: int|
                    0 <= j < i ==> #[trigger] idx@[j] == spec_index_start(
                        frames as int,
                        cfgs[j].phase as int,
                    ),
                forall|j: int|
                    0 <= j < i ==> #[trigger] idx_step@[j] == spec_index_step(
                        frames as int,
                        cfgs[j].freq_mhz as int,
                        params.rate as int,
                    ),
                forall|j: int| 0 <= j < i ==> 0 <= #[trigger] amplitude@[j] <= MAX_AMPLITUDE,
                forall|j: int| 0 <= j < i ==> #[trigger] idx@[j] < idx_limit,
                forall|j: int| 0 <= j < i ==> #[trigger] idx_step@[j] < idx_limit,
            decreases n - i,
        {
            let c = sound_config.get(i);
            amplitude.push(c.amplitude);
            idx.push(calc_index_start(frames, c.phase));
            idx_step.push(calc_index_step(frames, c.freq_mhz, params.rate()));
            i = i + 1;
        }
        let s = CachedPeriod {
            period_config,
            amplitude,
            idx,
            idx_step,
            idx_limit,
            filters: FilterCollection::new(),
            ticker: Ticker::new(d),
        };
        proof {
            assert(s@.frames() == frames as int);
        }
        s
    }

    /// Appends a filter to the voice's chain.
    pub fn add_filter(&mut self, filter: Filter)
        requires
            crate::sound::filter::filter_wf(filter),
        ensures
            final(self)@ =~= (CachedPeriodView {
                filters: old(self)@.filters.push(filter),
                ..old(self)@
            }),
    {
        self.filters.add_filter(filter);
    }

    /// One channel's sample at the current tick: the table value linearly
    /// interpolated at the channel's read index, scaled by the amplitude,
    /// run through the filter chain. Its magnitude never exceeds the
    /// channel's amplitude.
    pub fn generate(&self, channel: u32) -> (r: i64)
        requires
            self@.wf(),
            channel < self@.channels(),
        ensures
            r == self@.gen(channel as int),
            mag(r as int) <= self@.amplitude[channel as int],
    {
        proof {
            lemma_table_indices(self@, channel as int);
            lemma_interp_bounded(self@, channel as int);
            lemma_wavetable_bounded(self@, channel as int);
            lemma_scaled_amp(
                self@.interp(channel as int),
                self@.amplitude[channel as int] as int,
                SCALE_ONE as int,
            );
        }
        let ch = channel as usize;
        let cur = self.idx[ch];
        let fi = (cur / INDEX_ONE) as usize;
        let frac = cur % INDEX_ONE;
        let chs = self.period_config.channels as usize;
        let in_ch = (channel % self.period_config.channels) as usize;
        let len = self.period_config.data.len();
        let frames = len / chs;
        let lower = self.period_config.data[fi * chs + in_ch];
        let upper = self.period_config.data[((fi + 1) % frames) * chs + in_ch];
        let delta = upper - lower;
        proof {
            lemma_scaled_le(delta as int, frac as int, INDEX_ONE as int);
        }
        let interp = lower + scale_sample(delta, frac, INDEX_ONE);
        let raw = scale_sample(interp, self.amplitude[ch] as u64, SCALE_ONE as u64);
        self.filters.apply(raw, self.ticker.tick_count, channel)
    }

    /// Advances every channel's read index by its step, wrapping at the
    /// table end, and advances the ticker.
    pub fn tick(&mut self)
        requires
            old(self)@.wf(),
        ensures
            final(self)@ =~= old(self)@.ticked(),
            final(self)@.wf(),
    {
        let n = self.idx.len();
        let mut i: usize = 0;
        while i < n
            invariant
                i <= n == self.idx@.len(),
                self.period_config.data@ == old(self)@.table,
                self.period_config.channels == old(self)@.in_channels,
                self.idx_step@ == old(self)@.step,
                self.amplitude@ == old(self)@.amplitude,
                self.idx_limit == old(self)@.idx_limit,
                self.filters.filters@ == old(self)@.filters,
                self.ticker == old(self)@.ticker,
                old(self)@.wf(),
                self.idx@.len() == old(self)@.idx.len(),
                forall|j: int|
                    0 <= j < i ==> #[trigger] self.idx@[j] == wrap_index(
                        old(self)@.idx[j] as int,
                        old(self)@.step[j] as int,
                        old(self)@.idx_limit as int,
                    ),
                forall|j: int| i <= j < n ==> #[trigger] self.idx@[j] == old(self)@.idx[j],
            decreases n - i,
        {
            let cur = self.idx[i];
            let st = self.idx_step[i];
            let mut ni = cur + st;
            if ni >= self.idx_limit {
                ni = ni - self.idx_limit;
            }
            self.idx[i] = ni;
            i = i + 1;
        }
        self.ticker.tick();
        proof {
            assert(self.idx@ =~= old(self)@.ticked().idx);
        }
    }

    /// Whether the voice has outlived its duration.
    pub fn is_complete(&self) -> (r: bool)
        ensures
            r == self@.complete(),
    {
        self.ticker.is_complete()
    }
}


/// The largest number of voices a mix may hold at once; far above any
/// real use, it keeps every mixing sum inside `i64`.
pub const MAX_VOICES: usize = 0x10000;

/// One voice of the closed set of simple (non-composite) voice kinds.
#[derive(Debug)]
pub enum BaseSound {
    /// A phase-accumulator oscillator.
    Sinusoid(Sinusoid),
    /// A wavetable-lookup oscillator.
    Cached(CachedPeriod),
    /// A pre-recorded sample player.
    Sample(CachedSound),
}

/// The ghost model of a simple voice.
#[verifier::ext_equal]
pub enum BaseSoundView {
    /// A phase-accumulator oscillator.
    Sinusoid(SinusoidView),
    /// A wavetable-lookup oscillator.
    Cached(CachedPeriodView),
    /// A pre-recorded sample player.
    Sample(CachedSoundView),
}

impl View for BaseSound {
    type V = BaseSoundView;

    open spec fn view(&self) -> BaseSoundView {
        match self {
            BaseSound::Sinusoid(v) => BaseSoundView::Sinusoid(v@),
            BaseSound::Cached(v) => BaseSoundView::Cached(v@),
            BaseSound::Sample(v) => BaseSoundView::Sample(v@),
        }
    }
}

/// Well-formedness of a simple voice.
pub open spec fn base_wf(v: BaseSoundView) -> bool {
    match v {
        BaseSoundView::Sinusoid(s) => s.wf(),
        BaseSoundView::Cached(s) => s.wf(),
        BaseSoundView::Sample(s) => s.wf(),
    }
}

/// Whether a simple voice can serve the given channel.
pub open spec fn base_supports(v: BaseSoundView, channel: int) -> bool {
    match v {
        BaseSoundView::Sinusoid(s) => 0 <= channel < s.channels(),
        BaseSoundView::Cached(s) => 0 <= channel < s.channels(),
        BaseSoundView::Sample(_) => 0 <= channel,
    }
}

/// What a simple voice generates on a channel at its current tick.
pub open spec fn base_gen(v: BaseSoundView, channel: int) -> int {
    match v {
        BaseSoundView::Sinusoid(s) => s.gen(channel),
        BaseSoundView::Cached(s) => s.gen(channel),
        BaseSoundView::Sample(s) => s.gen(channel),
    }
}

/// A simple voice after one tick.
pub open spec fn base_ticked(v: BaseSoundView) -> BaseSoundView {
    match v {
        BaseSoundView::Sinusoid(s) => BaseSoundView::Sinusoid(s.ticked()),
        BaseSoundView::Cached(s) => BaseSoundView::Cached(s.ticked()),
        BaseSoundView::Sample(s) => BaseSoundView::Sample(s.ticked()),
    }
}

/// Whether a simple voice has finished.
pub open spec fn base_complete(v: BaseSoundView) -> bool {
    match v {
        BaseSoundView::Sinusoid(s) => s.complete(),
        BaseSoundView::Cached(s) => s.complete(),
        BaseSoundView::Sample(s) => s.complete(),
    }
}

/// Any simple voice's output is bounded by the largest amplitude.
pub proof fn lemma_base_gen_bounded(v: BaseSoundView, channel: int)
    requires
        base_wf(v),
        base_supports(v, channel),
    ensures
        mag(base_gen(v, channel)) <= MAX_AMPLITUDE,
{
    match v {
        BaseSoundView::Sinusoid(s) => {
            lemma_oscillator_bounded(s, channel);
            assert(0 <= s.amplitude[channel] <= MAX_AMPLITUDE);
        },
        BaseSoundView::Cached(s) => {
            lemma_wavetable_bounded(s, channel);
            assert(0 <= s.amplitude[channel] <= MAX_AMPLITUDE);
        },
        BaseSoundView::Sample(s) => {
            if !s.complete() {
                vstd::arithmetic::div_mod::lemma_mod_bound(channel, s.channels as int);
                lemma_frames_layout(
                    s.data.len() as int,
                    s.channels as int,
                    s.idx as int,
                    channel % (s.channels as int),
                );
            }
        },
    }
}

/// Ticking keeps a simple voice well formed and its channel support.
pub proof fn lemma_base_ticked_wf(v: BaseSoundView)
    requires
        base_wf(v),
    ensures
        base_wf(base_ticked(v)),
        forall|ch: int| base_supports(v, ch) ==> #[trigger] base_supports(base_ticked(v), ch),
{
    match v {
        BaseSoundView::Sinusoid(s) => lemma_phase_wraparound(s),
        BaseSoundView::Cached(_) => {},
        BaseSoundView::Sample(_) => {},
    }
}

impl BaseSound {
    /// One channel's sample at the current tick.
    pub fn generate(&self, channel: u32) -> (r: i64)
        requires
            base_wf(self@),
            base_supports(self@, channel as int),
        ensures
            r == base_gen(self@, channel as int),
            mag(r as int) <= MAX_AMPLITUDE,
    {
        proof {
            lemma_base_gen_bounded(self@, channel as int);
        }
        match self {
            BaseSound::Sinusoid(s) => s.generate(channel),
            BaseSound::Cached(s) => s.generate(channel),
            BaseSound::Sample(s) => s.generate(channel),
        }
    }

    /// Advances the voice by one tick.
    pub fn tick(&mut self)
        requires
            base_wf(old(self)@),
        ensures
            final(self)@ == base_ticked(old(self)@),
            base_wf(final(self)@),
    {
        proof {
            lemma_base_ticked_wf(old(self)@);
        }
        match self {
            BaseSound::Sinusoid(s) => s.tick(),
            BaseSound::Cached(s) => s.tick(),
            BaseSound::Sample(s) => s.tick(),
        }
    }

    /// Whether the voice has finished.
    pub fn is_complete(&self) -> (r: bool)
        requires
            base_wf(self@),
        ensures
            r == base_complete(self@),
    {
        match self {
            BaseSound::Sinusoid(s) => s.is_complete(),
            BaseSound::Cached(s) => s.is_complete(),
            BaseSound::Sample(s) => s.is_complete(),
        }
    }
}

/// The ghost models of a sequence of simple voices.
pub open spec fn base_views(sounds: Seq<BaseSound>) -> Seq<BaseSoundView> {
    Seq::new(sounds.len(), |i: int| sounds[i]@)
}

/// The mix of simple voices on one channel: the sum over the voices of
/// each voice's output divided by `divisor`, in voice order.
pub open spec fn mix_base(sounds: Seq<BaseSoundView>, channel: int, divisor: int) -> int
    decreases sounds.len(),
{
    if sounds.len() == 0 {
        0
    } else {
        mix_base(sounds.drop_last(), channel, divisor) + scaled(
            base_gen(sounds.last(), channel),
            1,
            divisor,
        )
    }
}

/// A mix of well-formed voices stays within the number of voices times
/// the largest amplitude.
pub proof fn lemma_mix_base_bound(sounds: Seq<BaseSoundView>, channel: int, divisor: int)
    requires
        divisor >= 1,
        forall|i: int| 0 <= i < sounds.len() ==> base_wf(#[trigger] sounds[i]),
        forall|i: int| 0 <= i < sounds.len() ==> base_supports(#[trigger] sounds[i], channel),
    ensures
        mag(mix_base(sounds, channel, divisor)) <= sounds.len() * MAX_AMPLITUDE,
    decreases sounds.len(),
{
    if sounds.len() == 0 {
    } else {
        lemma_mix_base_bound(sounds.drop_last(), channel, divisor);
        lemma_base_gen_bounded(sounds.last(), channel);
        lemma_scaled_le(base_gen(sounds.last(), channel), 1, divisor);
        assert((sounds.len() - 1) * MAX_AMPLITUDE + MAX_AMPLITUDE == sounds.len() * MAX_AMPLITUDE)
            by (nonlinear_arith);
    }
}

/// Dividing every term by at least the number of voices keeps the whole
/// mix within the largest amplitude: the dynamic normalization policy
/// never clips.
pub proof fn lemma_mix_base_dynamic_bound(sounds: Seq<BaseSoundView>, channel: int, divisor: int)
    requires
        divisor >= sounds.len(),
        forall|i: int| 0 <= i < sounds.len() ==> base_wf(#[trigger] sounds[i]),
        forall|i: int| 0 <= i < sounds.len() ==> base_supports(#[trigger] sounds[i], channel),
    ensures
        mag(mix_base(sounds, channel, divisor)) <= MAX_AMPLITUDE,
    decreases sounds.len(),
{
    if sounds.len() == 0 {
        return ;
    }
    lemma_mix_term_bound(sounds, channel, divisor);
    let per = MAX_AMPLITUDE as int / divisor;
    assert(sounds.len() * per <= divisor * per) by {
        lemma_mul_inequality(sounds.len() as int, divisor, per);
        vstd::arithmetic::div_mod::lemma_div_pos_is_pos(MAX_AMPLITUDE as int, divisor);
        vstd::arithmetic::mul::lemma_mul_is_commutative(sounds.len() as int, per);
        vstd::arithmetic::mul::lemma_mul_is_commutative(divisor, per);
    }
    assert(divisor * per <= MAX_AMPLITUDE) by {
        vstd::arithmetic::div_mod::lemma_fundamental_div_mod(MAX_AMPLITUDE as int, divisor);
        vstd::arithmetic::div_mod::lemma_mod_bound(MAX_AMPLITUDE as int, divisor);
    }
}

/// Each term of a mix is at most the largest amplitude divided by the
/// divisor, so the whole mix is at most the voice count times that.
proof fn lemma_mix_term_bound(sounds: Seq<BaseSoundView>, channel: int, divisor: int)
    requires
        divisor >= 1,
        forall|i: int| 0 <= i < sounds.len() ==> base_wf(#[trigger] sounds[i]),
        forall|i: int| 0 <= i < sounds.len() ==> base_supports(#[trigger] sounds[i], channel),
    ensures
        mag(mix_base(sounds, channel, divisor)) <= sounds.len() * (MAX_AMPLITUDE as int / divisor),
    decreases sounds.len(),
{
    let per = MAX_AMPLITUDE as int / divisor;
    if sounds.len() == 0 {
    } else {
        lemma_mix_term_bound(sounds.drop_last(), channel, divisor);
        let g = base_gen(sounds.last(), channel);
        lemma_base_gen_bounded(sounds.last(), channel);
        lemma_scaled_le(g, 1, divisor);
        assert(mag(scaled(g, 1, divisor)) <= per) by {
            assert(mag(g) * 1 == mag(g));
            vstd::arithmetic::div_mod::lemma_div_is_ordered(mag(g), MAX_AMPLITUDE as int, divisor);
            vstd::arithmetic::div_mod::lemma_div_pos_is_pos(mag(g), divisor);
        }
        assert((sounds.len() - 1) * per + per == sounds.len() * per) by (nonlinear_arith);
    }
}

/// Mixes simple voices on one channel, dividing each voice's output by
/// `num_sounds` before accumulating, in voice order.
fn base_mix_internal(sounds: &Vec<BaseSound>, channel: u32, num_sounds: u32) -> (r: i64)
    requires
        sounds@.len() > 0 ==> num_sounds >= 1,
        sounds@.len() <= MAX_VOICES,
        forall|i: int| 0 <= i < sounds@.len() ==> base_wf((#[trigger] sounds@[i])@),
        forall|i: int| 0 <= i < sounds@.len() ==> base_supports((#[trigger] sounds@[i])@, channel as int),
    ensures
        r == mix_base(base_views(sounds@), channel as int, num_sounds as int),
        mag(r as int) <= sounds@.len() * MAX_AMPLITUDE,
{
    let ghost views = base_views(sounds@);
    let mut acc: i64 = 0;
    let mut i: usize = 0;
    proof {
        assert(views.subrange(0, 0) =~= Seq::<BaseSoundView>::empty());
    }
    while i < sounds.len()
        invariant
            i <= sounds@.len() <= MAX_VOICES,
            views == base_views(sounds@),
            sounds@.len() > 0 ==> num_sounds >= 1,
            forall|j: int| 0 <= j < sounds@.len() ==> base_wf((#[trigger] sounds@[j])@),
            forall|j: int|
                0 <= j < sounds@.len() ==> base_supports((#[trigger] sounds@[j])@, channel as int),
            acc == mix_base(views.subrange(0, i as int), channel as int, num_sounds as int),
            mag(acc as int) <= i * MAX_AMPLITUDE,
        decreases sounds@.len() - i,
    {
        let g = sounds[i].generate(channel);
        let term = scale_sample(g, 1, num_sounds as u64);
        proof {
            lemma_scaled_le(g as int, 1, num_sounds as int);
            assert(views.subrange(0, i as int + 1).drop_last() =~= views.subrange(0, i as int));
            assert(views.subrange(0, i as int + 1).last() == sounds@[i as int]@);
            lemma_mul_inequality(i as int, MAX_VOICES as int, MAX_AMPLITUDE as int);
            assert((i as int) * MAX_AMPLITUDE + MAX_AMPLITUDE == (i as int + 1) * MAX_AMPLITUDE)
                by (nonlinear_arith);
        }
        acc = acc + term;
        i = i + 1;
    }
    proof {
        assert(views.subrange(0, sounds@.len() as int) =~= views);
    }
    acc
}

/// A composite voice: a set of child voices treated as one unit, mixed
/// with the dynamic policy and complete only once every child is.
#[derive(Debug)]
pub struct MultiSound {
    /// The child voices, in mixing order.
    pub sounds: Vec<BaseSound>,
}

/// The ghost model of a composite voice.
#[verifier::ext_equal]
pub struct MultiSoundView {
    /// The child voices' models, in mixing order.
    pub sounds: Seq<BaseSoundView>,
}

impl View for MultiSound {
    type V = MultiSoundView;

    open spec fn view(&self) -> MultiSoundView {
        MultiSoundView { sounds: base_views(self.sounds@) }
    }
}

impl MultiSoundView {
    /// Well-formedness: few enough children, all well formed.
    pub open spec fn wf(self) -> bool {
        &&& self.sounds.len() <= MAX_VOICES
        &&& forall|i: int| 0 <= i < self.sounds.len() ==> base_wf(#[trigger] self.sounds[i])
    }

    /// Whether every child can serve the given channel.
    pub open spec fn supports(self, channel: int) -> bool {
        forall|i: int| 0 <= i < self.sounds.len() ==> base_supports(#[trigger] self.sounds[i], channel)
    }

    /// What `generate` returns: the children mixed with the dynamic
    /// policy, dividing by the exact child count.
    pub open spec fn gen(self, channel: int) -> int {
        mix_base(self.sounds, channel, self.sounds.len() as int)
    }

    /// The composite after one tick: every child advanced.
    pub open spec fn ticked(self) -> MultiSoundView {
        MultiSoundView { sounds: Seq::new(self.sounds.len(), |i: int| base_ticked(self.sounds[i])) }
    }

    /// Whether every child has finished.
    pub open spec fn complete(self) -> bool {
        forall|i: int| 0 <= i < self.sounds.len() ==> base_complete(#[trigger] self.sounds[i])
    }
}

impl MultiSound {
    /// A composite of one voice.
    pub fn new(sound: BaseSound) -> (m: MultiSound)
        ensures
            m@.sounds =~= seq![sound@],
    {
        let mut sounds: Vec<BaseSound> = Vec::new();
        sounds.push(sound);
        MultiSound { sounds }
    }

    /// A composite of the given voices, drained out of the argument.
    pub fn with_sounds(sounds: &mut Vec<BaseSound>) -> (m: MultiSound)
        ensures
            m@.sounds =~= base_views(old(sounds)@),
            final(sounds)@.len() == 0,
    {
        let mut result = MultiSound { sounds: Vec::new() };
        result.add_sounds(sounds);
        result
    }

    /// Appends one child voice.
    pub fn add_sound(&mut self, sound: BaseSound)
        ensures
            final(self)@.sounds =~= old(self)@.sounds.push(sound@),
    {
        self.sounds.push(sound);
    }

    /// Appends child voices, drained out of the argument.
    pub fn add_sounds(&mut self, sounds: &mut Vec<BaseSound>)
        ensures
            final(self)@.sounds =~= old(self)@.sounds + base_views(old(sounds)@),
            final(sounds)@.len() == 0,
    {
        self.sounds.append(sounds);
    }

    /// One channel's sample: the children mixed with the dynamic policy,
    /// so the composite's own output never exceeds the largest amplitude.
    pub fn generate(&self, channel: u32) -> (r: i64)
        requires
            self@.wf(),
            self@.supports(channel as int),
        ensures
            r == self@.gen(channel as int),
            mag(r as int) <= MAX_AMPLITUDE,
    {
        proof {
            lemma_mix_base_dynamic_bound(self@.sounds, channel as int, self@.sounds.len() as int);
            assert forall|j: int| 0 <= j < self.sounds@.len() implies base_wf(
                (#[trigger] self.sounds@[j])@,
            ) && base_supports(self.sounds@[j]@, channel as int) by {
                assert(self@.sounds[j] == self.sounds@[j]@);
            }
        }
        let n = self.sounds.len() as u32;
        base_mix_internal(&self.sounds, channel, n)
    }

    /// Advances every child by one tick.
    pub fn tick(&mut self)
        requires
            old(self)@.wf(),
        ensures
            final(self)@ =~= old(self)@.ticked(),
            final(self)@.wf(),
    {
        let n = self.sounds.len();
        let mut i: usize = 0;
        while i < n
            invariant
                i <= n == self.sounds@.len(),
                self.sounds@.len() == old(self)@.sounds.len(),
                old(self)@.wf(),
                forall|j: int|
                    0 <= j < i ==> (#[trigger] self.sounds@[j])@ == base_ticked(old(self)@.sounds[j]),
                forall|j: int| i <= j < n ==> (#[trigger] self.sounds@[j])@ == old(self)@.sounds[j],
            decreases n - i,
        {
            proof {
                lemma_base_ticked_wf(old(self)@.sounds[i as int]);
            }
            let child = &mut self.sounds[i];
            child.tick();
            i = i + 1;
        }
        proof {
            assert(self@.sounds =~= old(self)@.ticked().sounds);
            assert forall|j: int| 0 <= j < self@.sounds.len() implies base_wf(
                #[trigger] self@.sounds[j],
            ) by {
                lemma_base_ticked_wf(old(self)@.sounds[j]);
            }
        }
    }

    /// Whether every child has finished; a composite with no children is
    /// complete.
    pub fn is_complete(&self) -> (r: bool)
        requires
            self@.wf(),
        ensures
            r == self@.complete(),
    {
        let n = self.sounds.len();
        let mut i: usize = 0;
        while i < n
            invariant
                i <= n == self.sounds@.len(),
                self@.wf(),
                forall|j: int| 0 <= j < i ==> base_complete(#[trigger] self@.sounds[j]),
            decreases n - i,
        {
            proof {
                assert(self@.sounds[i as int] == self.sounds@[i as int]@);
            }
            if !self.sounds[i].is_complete() {
                return false;
            }
            i = i + 1;
        }
        true
    }
}

/// A voice of any kind: one of the simple voices, or a composite.
#[derive(Debug)]
pub enum Sound {
    /// A simple voice.
    Base(BaseSound),
    /// A composite of simple voices.
    Multi(MultiSound),
}

/// The ghost model of a voice of any kind.
#[verifier::ext_equal]
pub enum SoundView {
    /// A simple voice.
    Base(BaseSoundView),
    /// A composite of simple voices.
    Multi(MultiSoundView),
}

impl View for Sound {
    type V = SoundView;

    open spec fn view(&self) -> SoundView {
        match self {
            Sound::Base(b) => SoundView::Base(b@),
            Sound::Multi(m) => SoundView::Multi(m@),
        }
    }
}

/// Well-formedness of a voice of any kind.
pub open spec fn sound_wf(v: SoundView) -> bool {
    match v {
        SoundView::Base(b) => base_wf(b),
        SoundView::Multi(m) => m.wf(),
    }
}

/// Whether a voice can serve the given channel.
pub open spec fn sound_supports(v: SoundView, channel: int) -> bool {
    match v {
        SoundView::Base(b) => base_supports(b, channel),
        SoundView::Multi(m) => 0 <= channel && m.supports(channel),
    }
}

/// What a voice generates on a channel at its current tick.
pub open spec fn sound_gen(v: SoundView, channel: int) -> int {
    match v {
        SoundView::Base(b) => base_gen(b, channel),
        SoundView::Multi(m) => m.gen(channel),
    }
}

/// A voice after one tick.
pub open spec fn sound_ticked(v: SoundView) -> SoundView {
    match v {
        SoundView::Base(b) => SoundView::Base(base_ticked(b)),
        SoundView::Multi(m) => SoundView::Multi(m.ticked()),
    }
}

/// Whether a voice has finished.
pub open spec fn sound_complete(v: SoundView) -> bool {
    match v {
        SoundView::Base(b) => base_complete(b),
        SoundView::Multi(m) => m.complete(),
    }
}

/// Any voice's output is bounded by the largest amplitude.
pub proof fn lemma_sound_gen_bounded(v: SoundView, channel: int)
    requires
        sound_wf(v),
        sound_supports(v, channel),
    ensures
        mag(sound_gen(v, channel)) <= MAX_AMPLITUDE,
{
    match v {
        SoundView::Base(b) => lemma_base_gen_bounded(b, channel),
        SoundView::Multi(m) => {
            lemma_mix_base_dynamic_bound(m.sounds, channel, m.sounds.len() as int);
        },
    }
}

/// Ticking keeps any voice well formed and its channel support.
pub proof fn lemma_sound_ticked_wf(v: SoundView)
    requires
        sound_wf(v),
    ensures
        sound_wf(sound_ticked(v)),
        forall|ch: int| sound_supports(v, ch) ==> #[trigger] sound_supports(sound_ticked(v), ch),
{
    match v {
        SoundView::Base(b) => lemma_base_ticked_wf(b),
        SoundView::Multi(m) => {
            assert forall|i: int| 0 <= i < m.ticked().sounds.len() implies base_wf(
                #[trigger] m.ticked().sounds[i],
            ) by {
                lemma_base_ticked_wf(m.sounds[i]);
            }
            assert forall|ch: int|
                sound_supports(v, ch) implies #[trigger] sound_supports(sound_ticked(v), ch) by {
                assert forall|i: int| 0 <= i < m.ticked().sounds.len() implies base_supports(
                    #[trigger] m.ticked().sounds[i],
                    ch,
                ) by {
                    lemma_base_ticked_wf(m.sounds[i]);
                    assert(base_supports(m.sounds[i], ch));
                }
            }
        },
    }
}

impl Sound {
    /// One channel's sample at the current tick.
    pub fn generate(&self, channel: u32) -> (r: i64)
        requires
            sound_wf(self@),
            sound_supports(self@, channel as int),
        ensures
            r == sound_gen(self@, channel as int),
            mag(r as int) <= MAX_AMPLITUDE,
    {
        match self {
            Sound::Base(b) => b.generate(channel),
            Sound::Multi(m) => m.generate(channel),
        }
    }

    /// Advances the voice by one tick.
    pub fn tick(&mut self)
        requires
            sound_wf(old(self)@),
        ensures
            final(self)@ == sound_ticked(old(self)@),
            sound_wf(final(self)@),
    {
        proof {
            lemma_sound_ticked_wf(old(self)@);
        }
        match self {
            Sound::Base(b) => b.tick(),
            Sound::Multi(m) => m.tick(),
        }
    }

    /// Whether the voice has finished.
    pub fn is_complete(&self) -> (r: bool)
        requires
            sound_wf(self@),
        ensures
            r == sound_complete(self@),
    {
        match self {
            Sound::Base(b) => b.is_complete(),
            Sound::Multi(m) => m.is_complete(),
        }
    }
}

/// The ghost models of a sequence of voices.
pub open spec fn sound_views(sounds: Seq<Sound>) -> Seq<SoundView> {
    Seq::new(sounds.len(), |i: int| sounds[i]@)
}

/// The mix of voices on one channel: the sum over the voices of each
/// voice's output divided by `divisor`, in voice order.
pub open spec fn mix_spec(sounds: Seq<SoundView>, channel: int, divisor: int) -> int
    decreases sounds.len(),
{
    if sounds.len() == 0 {
        0
    } else {
        mix_spec(sounds.drop_last(), channel, divisor) + scaled(
            sound_gen(sounds.last(), channel),
            1,
            divisor,
        )
    }
}

/// A mix of well-formed voices stays within the number of voices times
/// the largest amplitude.
pub proof fn lemma_mix_spec_bound(sounds: Seq<SoundView>, channel: int, divisor: int)
    requires
        divisor >= 1,
        forall|i: int| 0 <= i < sounds.len() ==> sound_wf(#[trigger] sounds[i]),
        forall|i: int| 0 <= i < sounds.len() ==> sound_supports(#[trigger] sounds[i], channel),
    ensures
        mag(mix_spec(sounds, channel, divisor)) <= sounds.len() * MAX_AMPLITUDE,
    decreases sounds.len(),
{
    if sounds.len() == 0 {
    } else {
        lemma_mix_spec_bound(sounds.drop_last(), channel, divisor);
        lemma_sound_gen_bounded(sounds.last(), channel);
        lemma_scaled_le(sound_gen(sounds.last(), channel), 1, divisor);
        assert((sounds.len() - 1) * MAX_AMPLITUDE + MAX_AMPLITUDE == sounds.len() * MAX_AMPLITUDE)
            by (nonlinear_arith);
    }
}

/// Mixes voices on one channel, dividing each voice's output by
/// `num_sounds` before accumulating, in voice order.
fn mix_internal(sounds: &Vec<Sound>, channel: u32, num_sounds: u32) -> (r: i64)
    requires
        sounds@.len() > 0 ==> num_sounds >= 1,
        sounds@.len() <= MAX_VOICES,
        forall|i: int| 0 <= i < sounds@.len() ==> sound_wf((#[trigger] sounds@[i])@),
        forall|i: int| 0 <= i < sounds@.len() ==> sound_supports((#[trigger] sounds@[i])@, channel as int),
    ensures
        r == mix_spec(sound_views(sounds@), channel as int, num_sounds as int),
        mag(r as int) <= sounds@.len() * MAX_AMPLITUDE,
{
    let ghost views = sound_views(sounds@);
    let mut acc: i64 = 0;
    let mut i: usize = 0;
    proof {
        assert(views.subrange(0, 0) =~= Seq::<SoundView>::empty());
    }
    while i < sounds.len()
        invariant
            i <= sounds@.len() <= MAX_VOICES,
            views == sound_views(sounds@),
            sounds@.len() > 0 ==> num_sounds >= 1,
            forall|j: int| 0 <= j < sounds@.len() ==> sound_wf((#[trigger] sounds@[j])@),
            forall|j: int|
                0 <= j < sounds@.len() ==> sound_supports((#[trigger] sounds@[j])@, channel as int),
            acc == mix_spec(views.subrange(0, i as int), channel as int, num_sounds as int),
            mag(acc as int) <= i * MAX_AMPLITUDE,
        decreases sounds@.len() - i,
    {
        let g = sounds[i].generate(channel);
        let term = scale_sample(g, 1, num_sounds as u64);
        proof {
            lemma_scaled_le(g as int, 1, num_sounds as int);
            assert(views.subrange(0, i as int + 1).drop_last() =~= views.subrange(0, i as int));
            assert(views.subrange(0, i as int + 1).last() == sounds@[i as int]@);
            lemma_mul_inequality(i as int, MAX_VOICES as int, MAX_AMPLITUDE as int);
            assert((i as int) * MAX_AMPLITUDE + MAX_AMPLITUDE == (i as int + 1) * MAX_AMPLITUDE)
                by (nonlinear_arith);
        }
        acc = acc + term;
        i = i + 1;
    }
    proof {
        assert(views.subrange(0, sounds@.len() as int) =~= views);
    }
    acc
}

/// Mixes the active voices under the fixed-cap policy: every voice's
/// output is divided by the concurrency cap [`MAX_CONCURRENT`], whatever
/// the live count, so loudness stays stable as voices start and stop.
pub fn mix_fixed(sounds: &Vec<Sound>, channel: u32) -> (r: i64)
    requires
        sounds@.len() <= MAX_VOICES,
        forall|i: int| 0 <= i < sounds@.len() ==> sound_wf((#[trigger] sounds@[i])@),
        forall|i: int| 0 <= i < sounds@.len() ==> sound_supports((#[trigger] sounds@[i])@, channel as int),
    ensures
        r == mix_spec(sound_views(sounds@), channel as int, MAX_CONCURRENT as int),
        mag(r as int) <= sounds@.len() * MAX_AMPLITUDE,
{
    mix_internal(sounds, channel, MAX_CONCURRENT)
}

/// Mixes the active voices under the dynamic policy: every voice's output
/// is divided by the exact live count, so the mix never clips but its
/// loudness pumps as the count changes.
pub fn mix(sounds: &Vec<Sound>, channel: u32) -> (r: i64)
    requires
        sounds@.len() <= MAX_VOICES,
        forall|i: int| 0 <= i < sounds@.len() ==> sound_wf((#[trigger] sounds@[i])@),
        forall|i: int| 0 <= i < sounds@.len() ==> sound_supports((#[trigger] sounds@[i])@, channel as int),
    ensures
        r == mix_spec(sound_views(sounds@), channel as int, sounds@.len() as int),
        mag(r as int) <= sounds@.len() * MAX_AMPLITUDE,
{
    let size = sounds.len() as u32;
    mix_internal(sounds, channel, size)
}

/// Each term of a mix of voices is at most the largest amplitude divided
/// by the divisor, so the whole mix is at most the voice count times
/// that.
proof fn lemma_mix_spec_term_bound(sounds: Seq<SoundView>, channel: int, divisor: int)
    requires
        divisor >= 1,
        forall|i: int| 0 <= i < sounds.len() ==> sound_wf(#[trigger] sounds[i]),
        forall|i: int| 0 <= i < sounds.len() ==> sound_supports(#[trigger] sounds[i], channel),
    ensures
        mag(mix_spec(sounds, channel, divisor)) <= sounds.len() * (MAX_AMPLITUDE as int / divisor),
    decreases sounds.len(),
{
    let per = MAX_AMPLITUDE as int / divisor;
    if sounds.len() == 0 {
    } else {
        lemma_mix_spec_term_bound(sounds.drop_last(), channel, divisor);
        let g = sound_gen(sounds.last(), channel);
        lemma_sound_gen_bounded(sounds.last(), channel);
        lemma_scaled_le(g, 1, divisor);
        assert(mag(scaled(g, 1, divisor)) <= per) by {
            assert(mag(g) * 1 == mag(g));
            vstd::arithmetic::div_mod::lemma_div_is_ordered(mag(g), MAX_AMPLITUDE as int, divisor);
            vstd::arithmetic::div_mod::lemma_div_pos_is_pos(mag(g), divisor);
        }
        assert((sounds.len() - 1) * per + per == sounds.len() * per) by (nonlinear_arith);
    }
}

/// While no more voices are active than the concurrency cap, the
/// fixed-cap mix never clips: its magnitude stays within the largest
/// amplitude. Beyond the cap, clipping is the accepted tradeoff.
pub proof fn lemma_mix_fixed_within_cap(sounds: Seq<SoundView>, channel: int)
    requires
        sounds.len() <= MAX_CONCURRENT,
        forall|i: int| 0 <= i < sounds.len() ==> sound_wf(#[trigger] sounds[i]),
        forall|i: int| 0 <= i < sounds.len() ==> sound_supports(#[trigger] sounds[i], channel),
    ensures
        mag(mix_spec(sounds, channel, MAX_CONCURRENT as int)) <= MAX_AMPLITUDE,
{
    let divisor = MAX_CONCURRENT as int;
    lemma_mix_spec_term_bound(sounds, channel, divisor);
    let per = MAX_AMPLITUDE as int / divisor;
    assert(sounds.len() * per <= divisor * per) by {
        lemma_mul_inequality(sounds.len() as int, divisor, per);
        vstd::arithmetic::div_mod::lemma_div_pos_is_pos(MAX_AMPLITUDE as int, divisor);
        vstd::arithmetic::mul::lemma_mul_is_commutative(sounds.len() as int, per);
        vstd::arithmetic::mul::lemma_mul_is_commutative(divisor, per);
    }
    assert(divisor * per <= MAX_AMPLITUDE) by {
        vstd::arithmetic::div_mod::lemma_fundamental_div_mod(MAX_AMPLITUDE as int, divisor);
        vstd::arithmetic::div_mod::lemma_mod_bound(MAX_AMPLITUDE as int, divisor);
    }
}

/// Mixing voices that all emit the same value `v` on a channel under the
/// fixed-cap policy yields exactly the voice count times `v / cap`: with
/// `N` voices at most the cap and `v` a multiple of the cap, exactly
/// `N * v / cap`.
pub proof fn lemma_mix_fixed_constant(sounds: Seq<SoundView>, channel: int, v: int)
    requires
        forall|i: int| 0 <= i < sounds.len() ==> sound_gen(#[trigger] sounds[i], channel) == v,
    ensures
        mix_spec(sounds, channel, MAX_CONCURRENT as int) == sounds.len() * scaled(
            v,
            1,
            MAX_CONCURRENT as int,
        ),
    decreases sounds.len(),
{
    let per = scaled(v, 1, MAX_CONCURRENT as int);
    if sounds.len() == 0 {
    } else {
        lemma_mix_fixed_constant(sounds.drop_last(), channel, v);
        assert((sounds.len() - 1) * per + per == sounds.len() * per) by (nonlinear_arith);
    }
}

/// The exact loudness of the fixed-cap policy on a constant input that
/// the cap divides: `N` voices all emitting `v` mix to `N * v / cap`
/// with no rounding at all.
pub proof fn lemma_mix_fixed_constant_exact(sounds: Seq<SoundView>, channel: int, v: int)
    requires
        forall|i: int| 0 <= i < sounds.len() ==> sound_gen(#[trigger] sounds[i], channel) == v,
        v >= 0,
        v % (MAX_CONCURRENT as int) == 0,
    ensures
        mix_spec(sounds, channel, MAX_CONCURRENT as int) == sounds.len() * v / (
        MAX_CONCURRENT as int),
{
    let cap = MAX_CONCURRENT as int;
    lemma_mix_fixed_constant(sounds, channel, v);
    let q = v / cap;
    assert(v == cap * q) by {
        vstd::arithmetic::div_mod::lemma_fundamental_div_mod(v, cap);
    }
    assert(v * 1 == v);
    assert(scaled(v, 1, cap) == q);
    assert(sounds.len() * v == cap * (sounds.len() * q)) by (nonlinear_arith)
        requires
            v == cap * q,
    ;
    lemma_div_multiples_vanish(sounds.len() as int * q, cap);
    vstd::arithmetic::mul::lemma_mul_is_commutative(sounds.len() as int, q);
}


/// Builds one full cycle of the sine waveform as an interleaved table:
/// `num_samples` frames, each sample repeated once per channel. Frame `i`
/// holds the sine of the fraction `i / num_samples` of a turn.
pub fn sine_period_n_channels(num_samples: usize, channels: usize) -> (r: Vec<i64>)
    requires
        1 <= num_samples <= MAX_TABLE_FRAMES,
        1 <= channels <= 0x100,
    ensures
        r@.len() == num_samples * channels,
        forall|i: int, c: int|
            0 <= i < num_samples && 0 <= c < channels ==> #[trigger] r@[i * channels + c]
                == sine_wave(i * MAX_PHASE / num_samples as int),
        forall|k: int| 0 <= k < r@.len() ==> mag(#[trigger] r@[k] as int) <= SCALE_ONE,
{
    let mut data: Vec<i64> = Vec::new();
    let mut i: usize = 0;
    while i < num_samples
        invariant
            i <= num_samples <= MAX_TABLE_FRAMES,
            1 <= channels <= 0x100,
            data@.len() == i * channels,
            forall|j: int, c: int|
                0 <= j < i && 0 <= c < channels ==> #[trigger] data@[j * channels + c]
                    == sine_wave(j * MAX_PHASE / num_samples as int),
            forall|k: int| 0 <= k < data@.len() ==> mag(#[trigger] data@[k] as int) <= SCALE_ONE,
        decreases num_samples - i,
    {
        proof {
            vstd::arithmetic::mul::lemma_mul_upper_bound(
                i as int,
                MAX_TABLE_FRAMES as int,
                MAX_PHASE as int,
                MAX_PHASE as int,
            );
            vstd::arithmetic::mul::lemma_mul_nonnegative(i as int, MAX_PHASE as int);
            let a = i as int;
            let m = MAX_PHASE as int;
            let n = num_samples as int;
            lemma_mul_inequality(a, n - 1, m);
            vstd::arithmetic::mul::lemma_mul_is_commutative(a, m);
            vstd::arithmetic::mul::lemma_mul_is_commutative(n - 1, m);
            assert(m * a <= m * (n - 1) < m * n) by (nonlinear_arith)
                requires
                    m * a <= m * (n - 1) && m > 0 && n > 0,
            ;
            lemma_multiply_divide_lt(m * a, n, m);
            vstd::arithmetic::mul::lemma_mul_is_commutative(n, m);
            lemma_div_pos_is_pos(m * a, n);
        }
        let phase: u64 = (((i as u64) as u128 * (MAX_PHASE as u128)) / (num_samples as u128)) as u64;
        let val = sine(phase);
        let mut c: usize = 0;
        while c < channels
            invariant
                c <= channels,
                i < num_samples <= MAX_TABLE_FRAMES,
                1 <= channels <= 0x100,
                data@.len() == i * channels + c,
                val == sine_wave(i as int * MAX_PHASE / num_samples as int),
                mag(val as int) <= SCALE_ONE,
                forall|j: int, cc: int|
                    0 <= j < i && 0 <= cc < channels ==> #[trigger] data@[j * channels + cc]
                        == sine_wave(j * MAX_PHASE / num_samples as int),
                forall|cc: int|
                    0 <= cc < c ==> #[trigger] data@[i as int * channels + cc] == sine_wave(
                        i as int * MAX_PHASE / num_samples as int,
                    ),
                forall|k: int| 0 <= k < data@.len() ==> mag(#[trigger] data@[k] as int) <= SCALE_ONE,
            decreases channels - c,
        {
            proof {
                vstd::arithmetic::mul::lemma_mul_upper_bound(
                    i as int,
                    MAX_TABLE_FRAMES as int,
                    channels as int,
                    0x100,
                );
                vstd::arithmetic::mul::lemma_mul_nonnegative(i as int, channels as int);
                assert forall|j: int, cc: int|
                    0 <= j < i && 0 <= cc < channels implies #[trigger] (j * channels + cc)
                    < i as int * channels by {
                    assert(j * channels + cc < i as int * channels) by (nonlinear_arith)
                        requires
                            0 <= j < i && 0 <= cc < channels,
                    ;
                }
            }
            data.push(val);
            c = c + 1;
        }
        proof {
            assert((i as int + 1) * channels == i as int * channels + channels) by (nonlinear_arith);
        }
        i = i + 1;
    }
    proof {
        assert(data@.len() == num_samples * channels);
    }
    data
}

/// The signed sixteen-bit value two big-endian bytes spell.
pub open spec fn i16_from_be(hi: u8, lo: u8) -> int {
    let u = hi * 256 + lo;
    if u >= 0x8000 {
        u - 0x1_0000
    } else {
        u
    }
}

/// Decodes a raw recording of big-endian sixteen-bit samples into the
/// engine's sample range: one value per byte pair, any trailing odd byte
/// ignored.
pub fn decode_i16_be_samples(buf: &Vec<u8>) -> (r: Vec<i64>)
    ensures
        r@.len() == buf@.len() / 2,
        forall|k: int|
            0 <= k < r@.len() ==> #[trigger] r@[k] == i16_from_be(buf@[2 * k], buf@[2 * k + 1]),
        forall|k: int| 0 <= k < r@.len() ==> mag(#[trigger] r@[k] as int) <= MAX_AMPLITUDE,
{
    let n = buf.len() / 2;
    let mut out: Vec<i64> = Vec::new();
    let mut k: usize = 0;
    while k < n
        invariant
            k <= n == buf@.len() / 2,
            buf@.len() <= usize::MAX,
            out@.len() == k,
            forall|j: int|
                0 <= j < k ==> #[trigger] out@[j] == i16_from_be(buf@[2 * j], buf@[2 * j + 1]),
            forall|j: int| 0 <= j < k ==> mag(#[trigger] out@[j] as int) <= MAX_AMPLITUDE,
        decreases n - k,
    {
        proof {
            assert(2 * (k as int) + 1 < buf@.len()) by {
                vstd::arithmetic::div_mod::lemma_fundamental_div_mod(buf@.len() as int, 2);
                vstd::arithmetic::div_mod::lemma_mod_bound(buf@.len() as int, 2);
            }
        }
        let hi = buf[2 * k];
        let lo = buf[2 * k + 1];
        let u: u32 = (hi as u32) * 256 + (lo as u32);
        let val: i64 = if u >= 0x8000 {
            (u as i64) - 0x1_0000
        } else {
            u as i64
        };
        out.push(val);
        k = k + 1;
    }
    out
}

} // verus!
