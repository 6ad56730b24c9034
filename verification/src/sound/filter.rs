//! Envelope and pan filters: pure transforms of a generated sample,
//! parameterized by the tick and the channel, applied in insertion order.
//!
//! Every filter is a pure function of `(value, tick, channel)`; all its
//! parameters are fixed at construction and a well-formed filter never
//! grows a sample's magnitude.

use vstd::prelude::*;
use vstd::arithmetic::div_mod::{
    lemma_div_multiples_vanish, lemma_div_pos_is_pos, lemma_multiply_divide_le,
};
use vstd::arithmetic::mul::{
    lemma_mul_inequality, lemma_mul_is_commutative, lemma_mul_nonnegative,
};

use crate::sound::{lemma_scaled_le, mag, scale_sample, scaled, verify_scale, Ticks, SCALE_ONE};

verus! {

/// The largest sample magnitude a filter accepts; one less than the
/// magnitude of `i64::MIN`, so that magnitudes always fit `i64`.
pub const MAX_SAMPLE: i64 = 0x7FFF_FFFF_FFFF_FFFF;

/// A linear fade-in: over its first `duration` ticks a voice rises from
/// silence to full scale, and is passed through unchanged afterward.
#[derive(Clone, Copy, Debug, PartialEq, Eq, Structural)]
pub struct LinearFadeIn {
    /// The length of the ramp in ticks, at least one.
    pub duration: Ticks,
}

/// What a fade-in does: scale by `tick / duration` until the ramp is
/// over, identity afterward.
pub open spec fn fade_in_apply(duration: int, val: int, tick: int) -> int {
    if tick > duration {
        val
    } else {
        scaled(val, tick, duration)
    }
}

impl LinearFadeIn {
    /// A fade-in ramp of the given length.
    pub fn new(duration: Ticks) -> (f: LinearFadeIn)
        requires
            duration >= 1,
        ensures
            f.duration == duration,
    {
        LinearFadeIn { duration }
    }
}

/// A linear fade-out: identity until `end - duration`, then a linear
/// ramp down to silence at the `end` tick, identity afterward.
#[derive(Clone, Copy, Debug, PartialEq, Eq, Structural)]
pub struct LinearFadeOut {
    /// The tick the ramp starts at.
    pub start: Ticks,
    /// The tick the ramp reaches silence at.
    pub end: Ticks,
}

/// What a fade-out does: identity outside `[start, end]`, inside a scale
/// by `(end - tick) / (end - start)`.
pub open spec fn fade_out_apply(start: int, end: int, val: int, tick: int) -> int {
    if tick < start || tick > end {
        val
    } else {
        scaled(val, end - tick, end - start)
    }
}

impl LinearFadeOut {
    /// A ramp of `duration` ticks ending at tick `end`.
    pub fn new(duration: Ticks, end: Ticks) -> (f: LinearFadeOut)
        requires
            1 <= duration <= end,
        ensures
            f.start == end - duration,
            f.end == end,
    {
        LinearFadeOut { start: end - duration, end }
    }
}

/// The way a pan ramp moves the sound across the stereo pair.
#[derive(Clone, Copy, Debug, PartialEq, Eq, Structural)]
pub enum FadeDirection {
    /// Channel 0 falls from the high scale while channel 1 rises.
    LeftRight,
    /// Channel 0 rises to the high scale while channel 1 falls.
    RightLeft,
}

/// A stereo pan ramp: over `duration` ticks the gain of channel 0 ramps
/// linearly between `low` and `high` while channel 1 receives the
/// mirrored ramp; channels beyond the stereo pair pass through unchanged.
#[derive(Clone, Copy, Debug, PartialEq, Eq, Structural)]
pub struct LeftRightFade {
    /// The lower gain bound, in `[0, SCALE_ONE]`.
    pub low: i64,
    /// The upper gain bound, in `[low, SCALE_ONE]`.
    pub high: i64,
    /// Which channel rises.
    pub direction: FadeDirection,
    /// The length of the ramp in ticks, at least one.
    pub duration: Ticks,
}

/// The ramp position: the tick, saturated at the ramp's length.
pub open spec fn pan_progress(duration: int, tick: int) -> int {
    if tick > duration {
        duration
    } else {
        tick
    }
}

/// The gain of a ramp that has risen for `t` of `duration` ticks from
/// `low` toward `high`.
pub open spec fn pan_ramp(low: int, high: int, duration: int, t: int) -> int {
    low + t * (high - low) / duration
}

/// The gain a pan ramp gives one channel at one tick. Channel 0 and
/// channel 1 receive mirrored ramps; other channels a unit gain.
pub open spec fn pan_gain(f: LeftRightFade, tick: int, channel: int) -> int {
    let t = pan_progress(f.duration as int, tick);
    let rising = pan_ramp(f.low as int, f.high as int, f.duration as int, t);
    let falling = pan_ramp(f.low as int, f.high as int, f.duration as int, f.duration - t);
    if channel == 0 {
        match f.direction {
            FadeDirection::RightLeft => rising,
            FadeDirection::LeftRight => falling,
        }
    } else if channel == 1 {
        match f.direction {
            FadeDirection::RightLeft => falling,
            FadeDirection::LeftRight => rising,
        }
    } else {
        SCALE_ONE as int
    }
}

/// What a pan ramp does: scale by its per-channel gain.
pub open spec fn pan_apply(f: LeftRightFade, val: int, tick: int, channel: int) -> int {
    scaled(val, pan_gain(f, tick, channel), SCALE_ONE as int)
}

/// A pan ramp is well formed when its bounds are ordered, clamped scale
/// factors and its ramp is at least one tick long.
pub open spec fn pan_wf(f: LeftRightFade) -> bool {
    &&& 0 <= f.low <= f.high <= SCALE_ONE
    &&& f.duration >= 1
}

/// A well-formed pan ramp's gain always lies between its bounds, so in
/// particular within `[0, SCALE_ONE]`.
pub proof fn lemma_pan_gain_bounds(f: LeftRightFade, tick: int, channel: int)
    requires
        pan_wf(f),
        0 <= tick,
    ensures
        channel == 0 || channel == 1 ==> f.low <= pan_gain(f, tick, channel) <= f.high,
        0 <= pan_gain(f, tick, channel) <= SCALE_ONE,
{
    let d = f.duration as int;
    let t = pan_progress(d, tick);
    assert(0 <= t <= d);
    lemma_pan_ramp_bounds(f.low as int, f.high as int, d, t);
    lemma_pan_ramp_bounds(f.low as int, f.high as int, d, d - t);
}

/// A ramp that has risen for `k` of `duration` ticks lies between its
/// bounds.
pub proof fn lemma_pan_ramp_bounds(low: int, high: int, duration: int, k: int)
    requires
        0 <= low <= high,
        1 <= duration,
        0 <= k <= duration,
    ensures
        low <= pan_ramp(low, high, duration, k) <= high,
{
    let span = high - low;
    lemma_mul_nonnegative(k, span);
    lemma_div_pos_is_pos(k * span, duration);
    lemma_mul_is_commutative(k, span);
    lemma_mul_is_commutative(duration, span);
    lemma_mul_inequality(k, duration, span);
    lemma_multiply_divide_le(k * span, duration, span);
}

/// The lower of the two clamped scale bounds a pan ramp is built from.
pub open spec fn pan_low(min_scale: int, max_scale: int) -> int {
    let a = crate::sound::spec_verify_scale(min_scale);
    let b = crate::sound::spec_verify_scale(max_scale);
    if a <= b {
        a
    } else {
        b
    }
}

/// The higher of the two clamped scale bounds a pan ramp is built from.
pub open spec fn pan_high(min_scale: int, max_scale: int) -> int {
    let a = crate::sound::spec_verify_scale(min_scale);
    let b = crate::sound::spec_verify_scale(max_scale);
    if a <= b {
        b
    } else {
        a
    }
}

impl LeftRightFade {
    /// A pan ramp between two scale factors; the factors are clamped into
    /// `[0, SCALE_ONE]` and ordered, so the ramp is always well formed.
    pub fn new(min_scale: i64, max_scale: i64, direction: FadeDirection, duration: Ticks) -> (f: LeftRightFade)
        requires
            duration >= 1,
        ensures
            pan_wf(f),
            f.direction == direction,
            f.duration == duration,
            f.low == pan_low(min_scale as int, max_scale as int),
            f.high == pan_high(min_scale as int, max_scale as int),
    {
        let a = verify_scale(min_scale);
        let b = verify_scale(max_scale);
        let (low, high) = if a <= b {
            (a, b)
        } else {
            (b, a)
        };
        LeftRightFade { low, high, direction, duration }
    }
}

/// A post-processing transform of a generated sample: one of the closed
/// set of filter kinds.
#[derive(Clone, Copy, Debug, PartialEq, Eq, Structural)]
pub enum Filter {
    /// A linear fade-in.
    FadeIn(LinearFadeIn),
    /// A linear fade-out.
    FadeOut(LinearFadeOut),
    /// A stereo pan ramp.
    Pan(LeftRightFade),
}

/// Well-formedness of one filter: ramps are at least one tick long and
/// scale bounds are clamped.
pub open spec fn filter_wf(f: Filter) -> bool {
    match f {
        Filter::FadeIn(g) => g.duration >= 1,
        Filter::FadeOut(g) => 1 <= g.end - g.start,
        Filter::Pan(g) => pan_wf(g),
    }
}

/// What one filter does to a sample at a tick on a channel.
pub open spec fn filter_apply(f: Filter, val: int, tick: int, channel: int) -> int {
    match f {
        Filter::FadeIn(g) => fade_in_apply(g.duration as int, val, tick),
        Filter::FadeOut(g) => fade_out_apply(g.start as int, g.end as int, val, tick),
        Filter::Pan(g) => pan_apply(g, val, tick, channel),
    }
}

/// A well-formed filter never grows a sample's magnitude and never flips
/// its sign.
pub proof fn lemma_filter_apply_bound(f: Filter, val: int, tick: int, channel: int)
    requires
        filter_wf(f),
        0 <= tick,
    ensures
        mag(filter_apply(f, val, tick, channel)) <= mag(val),
        0 <= val ==> 0 <= filter_apply(f, val, tick, channel),
        val <= 0 ==> filter_apply(f, val, tick, channel) <= 0,
{
    match f {
        Filter::FadeIn(g) => {
            let d = g.duration as int;
            if tick <= d {
                lemma_scaled_le(val, tick, d);
            }
        },
        Filter::FadeOut(g) => {
            let s = g.start as int;
            let e = g.end as int;
            if s <= tick <= e {
                lemma_scaled_le(val, e - tick, e - s);
            }
        },
        Filter::Pan(g) => {
            lemma_pan_gain_bounds(g, tick, channel);
            lemma_scaled_le(val, pan_gain(g, tick, channel), SCALE_ONE as int);
        },
    }
}

impl LinearFadeIn {
    /// Applies the fade-in: the sample scaled by `tick / duration` during
    /// the ramp, unchanged afterward.
    pub fn apply(&self, val: i64, tick: Ticks, _channel: u32) -> (r: i64)
        requires
            self.duration >= 1,
            -MAX_SAMPLE <= val <= MAX_SAMPLE,
        ensures
            r == fade_in_apply(self.duration as int, val as int, tick as int),
            mag(r as int) <= mag(val as int),
    {
        proof {
            lemma_filter_apply_bound(Filter::FadeIn(*self), val as int, tick as int, 0);
        }
        if tick > self.duration {
            val
        } else {
            proof {
                lemma_scaled_le(val as int, tick as int, self.duration as int);
            }
            scale_sample(val, tick as u64, self.duration as u64)
        }
    }
}

impl LinearFadeOut {
    /// Applies the fade-out: unchanged outside the ramp, scaled by
    /// `(end - tick) / (end - start)` inside it.
    pub fn apply(&self, val: i64, tick: Ticks, _channel: u32) -> (r: i64)
        requires
            1 <= self.end - self.start,
            -MAX_SAMPLE <= val <= MAX_SAMPLE,
        ensures
            r == fade_out_apply(self.start as int, self.end as int, val as int, tick as int),
            mag(r as int) <= mag(val as int),
    {
        if tick < self.start || tick > self.end {
            val
        } else {
            proof {
                lemma_scaled_le(
                    val as int,
                    self.end as int - tick as int,
                    self.end as int - self.start as int,
                );
            }
            scale_sample(val, (self.end - tick) as u64, (self.end - self.start) as u64)
        }
    }
}

impl LeftRightFade {
    /// Applies the pan ramp: the sample scaled by the channel's gain at
    /// this tick; channels beyond the stereo pair pass through.
    pub fn apply(&self, val: i64, tick: Ticks, channel: u32) -> (r: i64)
        requires
            pan_wf(*self),
            -MAX_SAMPLE <= val <= MAX_SAMPLE,
        ensures
            r == pan_apply(*self, val as int, tick as int, channel as int),
            mag(r as int) <= mag(val as int),
    {
        proof {
            lemma_pan_gain_bounds(*self, tick as int, channel as int);
            lemma_scaled_le(val as int, pan_gain(*self, tick as int, channel as int), SCALE_ONE as int);
        }
        let t: u32 = if tick > self.duration {
            self.duration
        } else {
            tick
        };
        let span: i64 = self.high - self.low;
        let gain: i64 = if channel == 0 || channel == 1 {
            let k: u32 = match self.direction {
                FadeDirection::RightLeft => {
                    if channel == 0 {
                        t
                    } else {
                        self.duration - t
                    }
                },
                FadeDirection::LeftRight => {
                    if channel == 0 {
                        self.duration - t
                    } else {
                        t
                    }
                },
            };
            proof {
                vstd::arithmetic::mul::lemma_mul_upper_bound(
                    k as int,
                    0xFFFF_FFFF,
                    span as int,
                    SCALE_ONE as int,
                );
                lemma_mul_nonnegative(k as int, span as int);
                lemma_mul_is_commutative(k as int, span as int);
                lemma_mul_is_commutative(self.duration as int, span as int);
                lemma_mul_inequality(k as int, self.duration as int, span as int);
                lemma_multiply_divide_le(k as int * span as int, self.duration as int, span as int);
                lemma_div_pos_is_pos(k as int * span as int, self.duration as int);
            }
            self.low + ((k as i64) * span) / (self.duration as i64)
        } else {
            SCALE_ONE
        };
        proof {
            assert(gain == pan_gain(*self, tick as int, channel as int));
        }
        scale_sample(val, gain as u64, SCALE_ONE as u64)
    }
}

/// An ordered sequence of filters, applied in insertion order, each
/// consuming the previous filter's output.
#[derive(Debug)]
pub struct FilterCollection {
    /// The filters, first inserted first.
    pub filters: Vec<Filter>,
}

/// Well-formedness of a whole chain.
pub open spec fn filters_wf(fs: Seq<Filter>) -> bool {
    forall|i: int| 0 <= i < fs.len() ==> filter_wf(#[trigger] fs[i])
}

/// What a chain does: the first filter is applied first, and each later
/// filter consumes the previous filter's output.
pub open spec fn chain_apply(fs: Seq<Filter>, val: int, tick: int, channel: int) -> int
    decreases fs.len(),
{
    if fs.len() == 0 {
        val
    } else {
        chain_apply(fs.drop_first(), filter_apply(fs[0], val, tick, channel), tick, channel)
    }
}

/// A well-formed chain never grows a sample's magnitude and never flips
/// its sign.
pub proof fn lemma_chain_apply_bound(fs: Seq<Filter>, val: int, tick: int, channel: int)
    requires
        filters_wf(fs),
        0 <= tick,
    ensures
        mag(chain_apply(fs, val, tick, channel)) <= mag(val),
        0 <= val ==> 0 <= chain_apply(fs, val, tick, channel),
        val <= 0 ==> chain_apply(fs, val, tick, channel) <= 0,
    decreases fs.len(),
{
    if fs.len() > 0 {
        lemma_filter_apply_bound(fs[0], val, tick, channel);
        lemma_chain_apply_bound(
            fs.drop_first(),
            filter_apply(fs[0], val, tick, channel),
            tick,
            channel,
        );
    }
}

impl FilterCollection {
    /// An empty chain: the identity transform.
    pub fn new() -> (c: FilterCollection)
        ensures
            c.filters@ =~= Seq::<Filter>::empty(),
    {
        FilterCollection { filters: Vec::new() }
    }

    /// Appends a filter to the end of the chain.
    pub fn add_filter(&mut self, filter: Filter)
        requires
            filter_wf(filter),
        ensures
            final(self).filters@ =~= old(self).filters@.push(filter),
    {
        self.filters.push(filter);
    }

    /// Applies the whole chain to a sample, in insertion order.
    pub fn apply(&self, value: i64, tick_count: Ticks, channel: u32) -> (r: i64)
        requires
            filters_wf(self.filters@),
            -MAX_SAMPLE <= value <= MAX_SAMPLE,
        ensures
            r == chain_apply(self.filters@, value as int, tick_count as int, channel as int),
            mag(r as int) <= mag(value as int),
    {
        let ghost fs = self.filters@;
        let mut v: i64 = value;
        let mut i: usize = 0;
        proof {
            assert(fs.skip(0) =~= fs);
        }
        while i < self.filters.len()
            invariant
                i <= fs.len(),
                fs == self.filters@,
                filters_wf(fs),
                -MAX_SAMPLE <= v <= MAX_SAMPLE,
                mag(v as int) <= mag(value as int),
                chain_apply(fs, value as int, tick_count as int, channel as int) == chain_apply(
                    fs.skip(i as int),
                    v as int,
                    tick_count as int,
                    channel as int,
                ),
            decreases fs.len() - i,
        {
            let f = &self.filters[i];
            proof {
                assert(fs.skip(i as int)[0] == fs[i as int]);
                assert(fs.skip(i as int).drop_first() =~= fs.skip(i as int + 1));
                lemma_filter_apply_bound(fs[i as int], v as int, tick_count as int, channel as int);
            }
            let next = match f {
                Filter::FadeIn(g) => g.apply(v, tick_count, channel),
                Filter::FadeOut(g) => g.apply(v, tick_count, channel),
                Filter::Pan(g) => g.apply(v, tick_count, channel),
            };
            v = next;
            i = i + 1;
        }
        proof {
            assert(fs.skip(fs.len() as int) =~= Seq::<Filter>::empty());
        }
        v
    }
}

/// At tick zero a fade-in yields silence, and from the end of its ramp
/// onward it yields the unscaled value.
pub proof fn lemma_fade_in_boundaries(duration: int, val: int)
    requires
        1 <= duration,
    ensures
        fade_in_apply(duration, val, 0) == 0,
        forall|tick: int| tick >= duration ==> #[trigger] fade_in_apply(duration, val, tick) == val,
{
    let m = mag(val);
    assert(m * 0 == 0);
    assert(0int / duration == 0) by {
        vstd::arithmetic::div_mod::lemma_div_of0(duration);
    }
    assert(scaled(val, 0, duration) == 0);
    assert forall|tick: int| tick >= duration implies #[trigger] fade_in_apply(duration, val, tick)
        == val by {
        if tick == duration {
            lemma_div_multiples_vanish(m, duration);
            lemma_mul_is_commutative(m, duration);
            assert(scaled(val, duration, duration) == val);
        }
    }
}

/// Before its ramp a fade-out passes the value through unscaled, at its
/// end tick it yields silence, and across the ramp it never increases.
pub proof fn lemma_fade_out_boundaries(start: int, end: int, val: int)
    requires
        0 <= start < end,
    ensures
        forall|tick: int| tick < start ==> #[trigger] fade_out_apply(start, end, val, tick) == val,
        fade_out_apply(start, end, val, start) == val,
        fade_out_apply(start, end, val, end) == 0,
        forall|t1: int, t2: int|
            start <= t1 <= t2 <= end && val >= 0 ==> #[trigger] fade_out_apply(start, end, val, t2)
                <= #[trigger] fade_out_apply(start, end, val, t1),
{
    let d = end - start;
    let m = mag(val);
    assert(m * 0 == 0);
    assert(0int / d == 0) by {
        vstd::arithmetic::div_mod::lemma_div_of0(d);
    }
    assert(scaled(val, 0, d) == 0);
    lemma_div_multiples_vanish(m, d);
    lemma_mul_is_commutative(m, d);
    assert(scaled(val, d, d) == val);
    assert forall|t1: int, t2: int| start <= t1 <= t2 <= end && val >= 0 implies #[trigger] fade_out_apply(
        start,
        end,
        val,
        t2,
    ) <= #[trigger] fade_out_apply(start, end, val, t1) by {
        lemma_mul_inequality(end - t2, end - t1, m);
        lemma_mul_is_commutative(end - t2, m);
        lemma_mul_is_commutative(end - t1, m);
        vstd::arithmetic::div_mod::lemma_div_is_ordered(m * (end - t2), m * (end - t1), d);
    }
}

/// Across its ramp a fade-out of a value no smaller than the ramp length
/// is strictly decreasing: later ticks yield strictly smaller values. (A
/// smaller value descends too, but truncation may repeat a step.)
pub proof fn lemma_fade_out_strictly_decreasing(start: int, end: int, val: int, t1: int, t2: int)
    requires
        0 <= start < end,
        start <= t1 < t2 <= end,
        val >= end - start,
    ensures
        fade_out_apply(start, end, val, t2) < fade_out_apply(start, end, val, t1),
{
    let d = end - start;
    let n1 = end - t1;
    let n2 = end - t2;
    // One tick later the numerator falls by `val`, at least a whole `d`,
    // so the quotient falls by at least one.
    assert(val * (n2 + 1) / d >= val * n2 / d + 1) by {
        assert(val * (n2 + 1) == val * n2 + val) by (nonlinear_arith);
        vstd::arithmetic::div_mod::lemma_div_is_ordered(val * n2 + d, val * n2 + val, d);
        vstd::arithmetic::div_mod::lemma_div_plus_one(val * n2, d);
    }
    assert(val * (n2 + 1) / d <= val * n1 / d) by {
        lemma_mul_inequality(n2 + 1, n1, val);
        lemma_mul_is_commutative(n2 + 1, val);
        lemma_mul_is_commutative(n1, val);
        vstd::arithmetic::div_mod::lemma_div_is_ordered(val * (n2 + 1), val * n1, d);
    }
    lemma_mul_nonnegative(val, n2);
    lemma_mul_nonnegative(val, n1);
    assert(scaled(val, n2, d) == val * n2 / d);
    assert(scaled(val, n1, d) == val * n1 / d);
}

} // verus!
