//! The live voice set of the generation stage: voices enter fully
//! configured, every cycle generates one mixed sample per channel for the
//! current tick, then every voice advances and completed voices are
//! pruned.
//!
//! Samples are generated for the current tick before any voice advances,
//! so a voice's very first sample sees tick zero.

use vstd::prelude::*;

use crate::sound::{
    mix_fixed, mix_spec, sound_complete, sound_supports, sound_ticked, sound_views, sound_wf,
    lemma_sound_ticked_wf, BaseSoundView, Sound, SoundView, Ticker, MAX_AMPLITUDE, MAX_CONCURRENT,
    MAX_VOICES,
};

verus! {

/// Whether a voice can serve every channel below `channels`.
pub open spec fn sound_supports_all(v: SoundView, channels: int) -> bool {
    forall|ch: int| 0 <= ch < channels ==> sound_supports(v, ch)
}

/// A voice sequence the registry can run: few enough voices, all well
/// formed, all serving every output channel.
pub open spec fn voices_ok(voices: Seq<SoundView>, channels: int) -> bool {
    &&& voices.len() <= MAX_VOICES
    &&& (forall|i: int| 0 <= i < voices.len() ==> sound_wf(#[trigger] voices[i]))
    &&& (forall|i: int| 0 <= i < voices.len() ==> sound_supports_all(#[trigger] voices[i], channels))
}

/// Every voice advanced by one tick, in place.
pub open spec fn tick_all(voices: Seq<SoundView>) -> Seq<SoundView> {
    Seq::new(voices.len(), |i: int| sound_ticked(voices[i]))
}

/// The voices that remain once completed ones are dropped, keeping order.
pub open spec fn prune(voices: Seq<SoundView>) -> Seq<SoundView>
    decreases voices.len(),
{
    if voices.len() == 0 {
        Seq::empty()
    } else {
        prune(voices.drop_last()) + if sound_complete(voices.last()) {
            Seq::<SoundView>::empty()
        } else {
            seq![voices.last()]
        }
    }
}

/// One registry cycle's effect on the voices: every voice advances, then
/// completed voices leave.
pub open spec fn cycle_voices(voices: Seq<SoundView>) -> Seq<SoundView> {
    prune(tick_all(voices))
}

/// The voices after `n` registry cycles.
pub open spec fn voices_after(voices: Seq<SoundView>, n: nat) -> Seq<SoundView>
    decreases n,
{
    if n == 0 {
        voices
    } else {
        voices_after(cycle_voices(voices), (n - 1) as nat)
    }
}

/// One frame of output: the fixed-cap mix of the voices at their current
/// tick, one sample per channel in channel order.
pub open spec fn frame_samples(voices: Seq<SoundView>, channels: nat) -> Seq<int> {
    Seq::new(channels, |ch: int| mix_spec(voices, ch, MAX_CONCURRENT as int))
}

/// A whole period of interleaved output: `frames` frames of
/// `channels` samples each, the voices advancing one cycle per frame.
pub open spec fn period_samples(voices: Seq<SoundView>, frames: nat, channels: nat) -> Seq<int>
    decreases frames,
{
    if frames == 0 {
        Seq::empty()
    } else {
        frame_samples(voices, channels) + period_samples(
            cycle_voices(voices),
            (frames - 1) as nat,
            channels,
        )
    }
}

/// The integer values of a sample buffer.
pub open spec fn ints_of(s: Seq<i64>) -> Seq<int> {
    Seq::new(s.len(), |i: int| s[i] as int)
}

/// Pruning keeps a voice sequence runnable and never grows it.
pub proof fn lemma_prune_ok(voices: Seq<SoundView>, channels: int)
    requires
        forall|i: int| 0 <= i < voices.len() ==> sound_wf(#[trigger] voices[i]),
        forall|i: int| 0 <= i < voices.len() ==> sound_supports_all(#[trigger] voices[i], channels),
    ensures
        prune(voices).len() <= voices.len(),
        forall|i: int| 0 <= i < prune(voices).len() ==> sound_wf(#[trigger] prune(voices)[i]),
        forall|i: int|
            0 <= i < prune(voices).len() ==> sound_supports_all(
                #[trigger] prune(voices)[i],
                channels,
            ),
    decreases voices.len(),
{
    if voices.len() > 0 {
        assert(forall|i: int|
            0 <= i < voices.drop_last().len() ==> #[trigger] voices.drop_last()[i] == voices[i]);
        lemma_prune_ok(voices.drop_last(), channels);
    }
}

/// Ticking keeps a voice sequence runnable.
pub proof fn lemma_tick_all_ok(voices: Seq<SoundView>, channels: int)
    requires
        voices_ok(voices, channels),
    ensures
        voices_ok(tick_all(voices), channels),
{
    assert forall|i: int| 0 <= i < tick_all(voices).len() implies sound_wf(
        #[trigger] tick_all(voices)[i],
    ) && sound_supports_all(tick_all(voices)[i], channels) by {
        lemma_sound_ticked_wf(voices[i]);
        assert forall|ch: int| 0 <= ch < channels implies sound_supports(
            tick_all(voices)[i],
            ch,
        ) by {
            assert(sound_supports(voices[i], ch));
        }
    }
}

/// A cycle keeps a voice sequence runnable.
pub proof fn lemma_cycle_ok(voices: Seq<SoundView>, channels: int)
    requires
        voices_ok(voices, channels),
    ensures
        voices_ok(cycle_voices(voices), channels),
        cycle_voices(voices).len() <= voices.len(),
{
    lemma_tick_all_ok(voices, channels);
    lemma_prune_ok(tick_all(voices), channels);
}

/// Any number of cycles keeps a voice sequence runnable.
pub proof fn lemma_voices_after_ok(voices: Seq<SoundView>, channels: int, n: nat)
    requires
        voices_ok(voices, channels),
    ensures
        voices_ok(voices_after(voices, n), channels),
    decreases n,
{
    if n > 0 {
        lemma_cycle_ok(voices, channels);
        lemma_voices_after_ok(cycle_voices(voices), channels, (n - 1) as nat);
    }
}

/// A period holds exactly `frames * channels` samples.
pub proof fn lemma_period_samples_len(voices: Seq<SoundView>, frames: nat, channels: nat)
    ensures
        period_samples(voices, frames, channels).len() == frames * channels,
    decreases frames,
{
    if frames == 0 {
        assert(0nat * channels == 0) by (nonlinear_arith);
    } else {
        lemma_period_samples_len(cycle_voices(voices), (frames - 1) as nat, channels);
        assert(channels + (frames - 1) * channels == frames * channels) by (nonlinear_arith);
    }
}

/// The registry: the voice collection owned exclusively by the generation
/// stage, together with the session's channel count.
#[derive(Debug)]
pub struct VoiceRegistry {
    /// The live voices, in arrival order.
    pub voices: Vec<Sound>,
    /// The number of output channels every voice must serve.
    pub channels: u32,
}

impl View for VoiceRegistry {
    type V = Seq<SoundView>;

    open spec fn view(&self) -> Seq<SoundView> {
        sound_views(self.voices@)
    }
}

impl VoiceRegistry {
    /// Well-formedness: at least one channel and a runnable voice set.
    pub open spec fn wf(self) -> bool {
        &&& self.channels >= 1
        &&& voices_ok(self@, self.channels as int)
    }

    /// An empty registry for a session with the given channel count.
    pub fn new(channels: u32) -> (r: VoiceRegistry)
        requires
            channels >= 1,
        ensures
            r@ =~= Seq::<SoundView>::empty(),
            r.channels == channels,
            r.wf(),
    {
        VoiceRegistry { voices: Vec::new(), channels }
    }

    /// The number of live voices.
    pub fn voice_count(&self) -> (n: usize)
        ensures
            n == self@.len(),
    {
        self.voices.len()
    }

    /// Accepts one newly submitted voice; the submitter hands it over
    /// fully configured.
    pub fn add_voice(&mut self, voice: Sound)
        requires
            old(self).wf(),
            sound_wf(voice@),
            sound_supports_all(voice@, old(self).channels as int),
            old(self)@.len() < MAX_VOICES,
        ensures
            final(self)@ =~= old(self)@.push(voice@),
            final(self).channels == old(self).channels,
            final(self).wf(),
    {
        self.voices.push(voice);
    }

    /// One channel's sample of the current tick: the fixed-cap mix of all
    /// live voices.
    pub fn sample(&self, channel: u32) -> (r: i64)
        requires
            self.wf(),
            channel < self.channels,
        ensures
            r == mix_spec(self@, channel as int, MAX_CONCURRENT as int),
            crate::sound::mag(r as int) <= self@.len() * MAX_AMPLITUDE,
    {
        proof {
            assert forall|i: int| 0 <= i < self.voices@.len() implies sound_wf(
                (#[trigger] self.voices@[i])@,
            ) && sound_supports((self.voices@[i])@, channel as int) by {
                assert(self@[i] == self.voices@[i]@);
                assert(sound_supports_all(self@[i], self.channels as int));
            }
        }
        mix_fixed(&self.voices, channel)
    }

    /// Advances every voice by one tick, then removes the voices that
    /// have completed, keeping arrival order.
    pub fn advance(&mut self)
        requires
            old(self).wf(),
        ensures
            final(self)@ =~= cycle_voices(old(self)@),
            final(self).channels == old(self).channels,
            final(self).wf(),
            final(self)@.len() <= old(self)@.len(),
    {
        let ghost before = self@;
        let ghost chs = self.channels as int;
        let ghost ticked = tick_all(before);
        proof {
            lemma_tick_all_ok(before, chs);
            lemma_cycle_ok(before, chs);
        }
        let n = self.voices.len();
        let mut kept: Vec<Sound> = Vec::new();
        let mut k: usize = 0;
        proof {
            assert(ticked.subrange(0, 0) =~= Seq::<SoundView>::empty());
            assert(sound_views(kept@) =~= prune(ticked.subrange(0, 0)));
        }
        while k < n
            invariant
                k <= n == before.len(),
                self.channels == old(self).channels,
                before == sound_views(old(self).voices@),
                ticked == tick_all(before),
                voices_ok(before, self.channels as int),
                voices_ok(ticked, self.channels as int),
                self.voices@.len() == n - k,
                forall|j: int| 0 <= j < n - k ==> (#[trigger] self.voices@[j])@ == before[k + j],
                sound_views(kept@) =~= prune(ticked.subrange(0, k as int)),
                kept@.len() <= k,
            decreases n - k,
        {
            let mut v = self.voices.remove(0);
            proof {
                assert(v@ == before[k as int]);
                assert(sound_wf(v@));
                lemma_sound_ticked_wf(v@);
            }
            v.tick();
            proof {
                assert(v@ == ticked[k as int]);
            }
            let ghost kept_before = sound_views(kept@);
            if !v.is_complete() {
                kept.push(v);
                proof {
                    assert(sound_views(kept@) =~= kept_before.push(ticked[k as int]));
                }
            }
            proof {
                assert(ticked.subrange(0, k as int + 1).drop_last() =~= ticked.subrange(
                    0,
                    k as int,
                ));
                assert(ticked.subrange(0, k as int + 1).last() == ticked[k as int]);
                if sound_complete(ticked[k as int]) {
                    assert(prune(ticked.subrange(0, k as int + 1)) =~= prune(
                        ticked.subrange(0, k as int),
                    ));
                } else {
                    assert(prune(ticked.subrange(0, k as int + 1)) =~= prune(
                        ticked.subrange(0, k as int),
                    ).push(ticked[k as int]));
                }
                assert(sound_views(kept@) =~= prune(ticked.subrange(0, k as int + 1)));
            }
            k = k + 1;
        }
        self.voices = kept;
        proof {
            assert(ticked.subrange(0, n as int) =~= ticked);
            assert(self@ =~= cycle_voices(before));
            lemma_prune_ok(ticked, chs);
        }
    }

    /// Generates one whole period: `period_size` frames of one mixed
    /// sample per channel, interleaved, the registry advancing one cycle
    /// per frame. The buffer's length is exactly the period size times
    /// the channel count.
    pub fn generate_period(&mut self, period_size: usize) -> (r: Vec<i64>)
        requires
            old(self).wf(),
            period_size * old(self).channels <= usize::MAX,
        ensures
            r@.len() == period_size * old(self).channels,
            ints_of(r@) =~= period_samples(
                old(self)@,
                period_size as nat,
                old(self).channels as nat,
            ),
            final(self)@ =~= voices_after(old(self)@, period_size as nat),
            final(self).channels == old(self).channels,
            final(self).wf(),
    {
        let ghost start = self@;
        let ghost chs = self.channels as nat;
        let ghost full = period_samples(start, period_size as nat, chs);
        proof {
            lemma_period_samples_len(start, period_size as nat, chs);
        }
        let mut out: Vec<i64> = Vec::new();
        let mut t: usize = 0;
        proof {
            assert(ints_of(out@) =~= Seq::<int>::empty());
            assert(ints_of(out@) + period_samples(self@, period_size as nat, chs) =~= full);
            assert(0nat * chs == 0) by (nonlinear_arith);
        }
        while t < period_size
            invariant
                t <= period_size,
                chs == old(self).channels as nat,
                self.channels == old(self).channels,
                self.wf(),
                period_size * old(self).channels <= usize::MAX,
                out@.len() == t * chs,
                full == period_samples(start, period_size as nat, chs),
                full.len() == period_size * chs,
                ints_of(out@) + period_samples(self@, (period_size - t) as nat, chs) =~= full,
                voices_after(start, period_size as nat) =~= voices_after(
                    self@,
                    (period_size - t) as nat,
                ),
            decreases period_size - t,
        {
            let ghost cur = self@;
            let ghost done = ints_of(out@);
            let channels = self.channels;
            let mut ch: u32 = 0;
            while ch < channels
                invariant
                    ch <= channels == self.channels,
                    self.wf(),
                    cur == self@,
                    chs == channels as nat,
                    out@.len() == done.len() + ch,
                    done.len() + chs <= usize::MAX,
                    ints_of(out@) =~= done + frame_samples(cur, chs).subrange(0, ch as int),
                decreases channels - ch,
            {
                let s = self.sample(ch);
                let ghost out_before = ints_of(out@);
                out.push(s);
                proof {
                    assert(ints_of(out@) =~= out_before.push(s as int));
                    assert(frame_samples(cur, chs).subrange(0, ch as int + 1) =~= frame_samples(
                        cur,
                        chs,
                    ).subrange(0, ch as int).push(frame_samples(cur, chs)[ch as int]));
                }
                ch = ch + 1;
            }
            proof {
                assert(frame_samples(cur, chs).subrange(0, chs as int) =~= frame_samples(
                    cur,
                    chs,
                ));
            }
            self.advance();
            proof {
                assert(self@ =~= cycle_voices(cur));
                assert(period_samples(cur, (period_size - t) as nat, chs) =~= frame_samples(
                    cur,
                    chs,
                ) + period_samples(cycle_voices(cur), (period_size - t - 1) as nat, chs));
                assert(ints_of(out@) + period_samples(self@, (period_size - t - 1) as nat, chs)
                    =~= full);
                assert(voices_after(cur, (period_size - t) as nat) =~= voices_after(
                    cycle_voices(cur),
                    (period_size - t - 1) as nat,
                ));
                assert((t as int + 1) * chs == t as int * chs + chs) by (nonlinear_arith);
                lemma_mul_le(t as int + 1, period_size as int, chs as int);
            }
            t = t + 1;
        }
        proof {
            assert(period_samples(self@, 0, chs) =~= Seq::<int>::empty());
            assert(ints_of(out@) =~= full);
        }
        out
    }
}

/// Multiplying the smaller of two counts by a width stays within the
/// larger count times that width.
proof fn lemma_mul_le(a: int, b: int, w: int)
    requires
        0 <= a <= b,
        0 <= w,
    ensures
        a * w <= b * w,
{
    vstd::arithmetic::mul::lemma_mul_inequality(a, b, w);
}

/// Which ticker, if any, governs a voice's completion: oscillators and
/// wavetable voices carry one.
pub open spec fn ticker_of(v: SoundView) -> Option<Ticker> {
    match v {
        SoundView::Base(BaseSoundView::Sinusoid(s)) => Some(s.ticker),
        SoundView::Base(BaseSoundView::Cached(s)) => Some(s.ticker),
        SoundView::Base(BaseSoundView::Sample(_)) => None,
        SoundView::Multi(_) => None,
    }
}

/// After any number of cycles an empty registry stays empty.
proof fn lemma_voices_after_empty(k: nat)
    ensures
        voices_after(Seq::<SoundView>::empty(), k) =~= Seq::<SoundView>::empty(),
    decreases k,
{
    if k > 0 {
        assert(tick_all(Seq::<SoundView>::empty()) =~= Seq::<SoundView>::empty());
        assert(cycle_voices(Seq::<SoundView>::empty()) =~= Seq::<SoundView>::empty());
        lemma_voices_after_empty((k - 1) as nat);
    }
}

/// A single ticker-driven voice survives exactly as many cycles as its
/// remaining duration: after `k` cycles it is present while
/// `tick_count + k` is at most the duration, with its count advanced by
/// `k`, and gone afterward.
proof fn lemma_single_voice_after(v: SoundView, k: nat)
    requires
        sound_wf(v),
        ticker_of(v) is Some,
        ticker_of(v)->Some_0.tick_count <= ticker_of(v)->Some_0.duration,
    ensures
        ({
            let t = ticker_of(v)->Some_0;
            &&& voices_after(seq![v], k).len() == if t.tick_count + k <= t.duration {
                1int
            } else {
                0int
            }
            &&& (t.tick_count + k <= t.duration ==> ticker_of(voices_after(seq![v], k)[0])
                == Some(
                (Ticker {
                    tick_count: (t.tick_count + k) as u32,
                    duration: t.duration,
                }),
            ))
            &&& (t.tick_count + k <= t.duration ==> sound_wf(voices_after(seq![v], k)[0])
                && ticker_of(voices_after(seq![v], k)[0]) is Some)
        }),
    decreases k,
{
    let t = ticker_of(v)->Some_0;
    if k == 0 {
        assert(voices_after(seq![v], 0) == seq![v]);
        assert(seq![v][0] == v);
    } else {
        let tv = sound_ticked(v);
        lemma_sound_ticked_wf(v);
        assert(tick_all(seq![v]) =~= seq![tv]);
        match v {
            SoundView::Base(BaseSoundView::Sinusoid(s)) => {
                assert(crate::sound::ticker_wf(s.ticker));
                assert(sound_complete(tv) == crate::sound::ticker_complete(
                    crate::sound::ticker_ticked(t),
                ));
            },
            SoundView::Base(BaseSoundView::Cached(s)) => {
                assert(crate::sound::ticker_wf(s.ticker));
                assert(sound_complete(tv) == crate::sound::ticker_complete(
                    crate::sound::ticker_ticked(t),
                ));
            },
            SoundView::Base(BaseSoundView::Sample(_)) => {},
            SoundView::Multi(_) => {},
        }
        assert(ticker_of(tv) == Some(crate::sound::ticker_ticked(t)));
        assert(seq![tv].drop_last() =~= Seq::<SoundView>::empty());
        assert(seq![tv].drop_last() == Seq::<SoundView>::empty());
        assert(prune(Seq::<SoundView>::empty()) =~= Seq::<SoundView>::empty());
        assert(seq![tv].last() == tv);
        if t.tick_count == t.duration {
            assert(sound_complete(tv));
            assert(prune(seq![tv]) =~= Seq::<SoundView>::empty());
            assert(cycle_voices(seq![v]) =~= Seq::<SoundView>::empty());
            lemma_voices_after_empty((k - 1) as nat);
        } else {
            assert(!sound_complete(tv));
            assert(prune(seq![tv]) =~= seq![tv]);
            assert(cycle_voices(seq![v]) =~= seq![tv]);
            lemma_single_voice_after(tv, (k - 1) as nat);
        }
    }
}

/// A voice whose duration is `d` ticks is present in the registry through
/// tick `d` and absent from tick `d + 1` onward: starting at tick zero,
/// after `k` cycles it is still there exactly when `k` is at most `d`.
pub proof fn lemma_registry_prune_boundary(v: SoundView, d: nat, k: nat)
    requires
        sound_wf(v),
        ticker_of(v) is Some,
        ticker_of(v)->Some_0.tick_count == 0,
        ticker_of(v)->Some_0.duration == d,
    ensures
        k <= d ==> voices_after(seq![v], k).len() == 1,
        k > d ==> voices_after(seq![v], k).len() == 0,
{
    lemma_single_voice_after(v, k);
}

} // verus!
