//! The decision logic of the three pipeline stages.
//!
//! The stages themselves live outside the engine: threads, channels and
//! the device write are performed by the surrounding program, which feeds
//! every outcome back into the pure step functions here. The bounded
//! period channel is modeled as a state machine whose invariant is the
//! backpressure guarantee: the generation stage never runs more than one
//! period ahead of the writer.

use vstd::prelude::*;
use vstd::string::StringSliceAdditionalSpecFns;

use crate::hwp::HardwareParams;
use crate::music::{is_ascii_ws, parse_spec, Note, ParseOutcome};
use crate::registry::{sound_supports_all, VoiceRegistry};
use crate::sound::config::{clamp_amplitude, SoundConfigCollection};
use crate::sound::filter::{Filter, LinearFadeIn, LinearFadeOut};
use crate::sound::{
    duration_to_ticks, sound_complete, sound_wf, spec_index_start, spec_index_step, spec_step,
    BaseSound, BaseSoundView, CachedPeriod, CachedSound, InputConfig, Sinusoid, Sound, SoundView,
    Ticker, MAX_TABLE_FRAMES, MAX_VOICES, SCALE_ONE,
};

verus! {

/// What one blocking period write reported, after the device's own
/// recovery classification: success, a recoverable underrun or suspend,
/// or a failure recovery cannot clear.
#[derive(Clone, Copy, Debug, PartialEq, Eq, Structural)]
pub enum WriteOutcome {
    /// The period was written; the count of frames taken.
    Written(usize),
    /// An underrun or suspend the device can recover from.
    Recoverable,
    /// An error recovery cannot clear.
    Fatal,
}

/// What the writer stage does next.
#[derive(Clone, Copy, Debug, PartialEq, Eq, Structural)]
pub enum WriterAction {
    /// Shutdown was requested: leave the loop.
    Stop,
    /// Receive and write the next period.
    Continue,
    /// Invoke the device's recovery operation, then continue.
    Recover,
    /// Propagate the failure and terminate the stage.
    Fail,
}

/// The writer stage's policy: stop once shutdown is requested; otherwise
/// keep writing after a success, recover from a recoverable condition,
/// and fail on anything else.
pub open spec fn spec_writer_step(running: bool, outcome: WriteOutcome) -> WriterAction {
    if !running {
        WriterAction::Stop
    } else {
        match outcome {
            WriteOutcome::Written(_) => WriterAction::Continue,
            WriteOutcome::Recoverable => WriterAction::Recover,
            WriteOutcome::Fatal => WriterAction::Fail,
        }
    }
}

/// Decides the writer stage's next move from the shutdown flag and the
/// last write's outcome. Recoverable device conditions never surface
/// beyond this decision; only a fatal outcome ends the stage with an
/// error.
pub fn writer_step(running: bool, outcome: &WriteOutcome) -> (a: WriterAction)
    ensures
        a == spec_writer_step(running, *outcome),
        a is Stop <==> !running,
        running ==> ((a is Recover) <==> *outcome is Recoverable),
        running ==> ((a is Fail) <==> *outcome is Fatal),
        running ==> ((a is Continue) <==> *outcome is Written),
{
    if !running {
        WriterAction::Stop
    } else {
        match outcome {
            WriteOutcome::Written(_) => WriterAction::Continue,
            WriteOutcome::Recoverable => WriterAction::Recover,
            WriteOutcome::Fatal => WriterAction::Fail,
        }
    }
}

/// What one line of external input means to the ingestion stage.
#[derive(Clone, Copy, Debug, PartialEq, Eq, Structural)]
pub enum InputEvent {
    /// A blank line: the session shutdown sentinel.
    Quit,
    /// A note token: play this note.
    Play(Note),
    /// Anything else: log and read on.
    Rejected,
}

/// True of input that holds nothing but ASCII whitespace.
pub open spec fn all_whitespace(s: Seq<u8>) -> bool {
    forall|i: int| 0 <= i < s.len() ==> is_ascii_ws(#[trigger] s[i])
}

/// What one line means: blank input requests shutdown, a parseable note
/// token is played, and everything else is rejected.
pub open spec fn classify_spec(s: Seq<u8>) -> InputEvent {
    if all_whitespace(s) {
        InputEvent::Quit
    } else {
        match parse_spec(s) {
            ParseOutcome::Parsed(n) => InputEvent::Play(n),
            ParseOutcome::BadOctave => InputEvent::Rejected,
            ParseOutcome::BadNote => InputEvent::Rejected,
        }
    }
}

/// Classifies one line of input: blank input requests shutdown, a
/// parseable note token is played, and everything else is rejected
/// without tearing the session down.
pub fn classify_note_line(line: &str) -> (r: InputEvent)
    ensures
        r == classify_spec(line.spec_bytes()),
{
    let bytes = line.as_bytes();
    let n = bytes.len();
    let mut i: usize = 0;
    while i < n
        invariant
            i <= n == bytes@.len(),
            bytes@ == line.spec_bytes(),
            forall|j: int| 0 <= j < i ==> is_ascii_ws(#[trigger] bytes@[j]),
        decreases n - i,
    {
        let b = bytes[i];
        if !(b == 32 || b == 9 || b == 10 || b == 12 || b == 13) {
            let note = Note::parse(line);
            return match note {
                Ok(parsed) => InputEvent::Play(parsed),
                Err(_) => InputEvent::Rejected,
            };
        }
        i = i + 1;
    }
    InputEvent::Quit
}

/// Drains one pending submission into the registry: absence of a voice is
/// not an error, and a voice beyond the capacity bound is declined rather
/// than admitted.
pub fn ingest(registry: &mut VoiceRegistry, pending: Option<Sound>) -> (accepted: bool)
    requires
        old(registry).wf(),
        pending matches Some(v) ==> sound_wf(v@) && sound_supports_all(
            v@,
            old(registry).channels as int,
        ),
    ensures
        final(registry).wf(),
        final(registry).channels == old(registry).channels,
        match pending {
            Option::None => !accepted && final(registry)@ == old(registry)@,
            Option::Some(v) => {
                if old(registry)@.len() < MAX_VOICES {
                    accepted && final(registry)@ =~= old(registry)@.push(v@)
                } else {
                    !accepted && final(registry)@ == old(registry)@
                }
            },
        },
{
    match pending {
        Option::None => false,
        Option::Some(v) => {
            if registry.voice_count() < MAX_VOICES {
                registry.add_voice(v);
                true
            } else {
                false
            }
        },
    }
}

/// The fraction of a note voice's duration spent fading in and out.
pub open spec fn spec_fade_ticks(duration_ticks: int) -> int {
    duration_ticks * 3 / 10
}

/// A note voice is buildable once its duration gives its fades at least
/// one tick each.
pub open spec fn note_voice_fits<T>(
    freq_mhz: u64,
    duration_ms: u64,
    hwp: HardwareParams<T>,
) -> bool {
    &&& hwp.rate >= 1
    &&& freq_mhz < hwp.rate * 1000
    &&& duration_ms * hwp.rate <= u64::MAX
    &&& 4 <= duration_ms * hwp.rate / 1000 < u32::MAX
}

/// The filter chain every note voice carries: a fade-in over the first
/// thirty percent of its duration and the mirrored fade-out at its end.
pub open spec fn note_fade_chain(d: int) -> Seq<Filter> {
    let fade = spec_fade_ticks(d);
    seq![
        Filter::FadeIn((LinearFadeIn { duration: fade as u32 })),
        Filter::FadeOut((LinearFadeOut { start: (d - fade) as u32, end: d as u32 })),
    ]
}

/// Builds the two-channel oscillator voice the ingestion stage submits
/// for a note: both channels at the note's frequency and phase zero, the
/// amplitude clamped, faded in and out over thirty percent of the
/// duration.
pub fn note_sinusoid_voice<T>(
    freq_mhz: u64,
    amplitude: i64,
    duration_ms: u64,
    hwp: &HardwareParams<T>,
) -> (s: Sound)
    requires
        note_voice_fits(freq_mhz, duration_ms, *hwp),
    ensures
        sound_wf(s@),
        sound_supports_all(s@, 2),
        !sound_complete(s@),
        ({
            let d = duration_ms * hwp.rate / 1000;
            &&& s@ matches SoundView::Base(BaseSoundView::Sinusoid(v))
            &&& v.phase =~= seq![0u64, 0u64]
            &&& v.step =~= seq![
                spec_step(freq_mhz as int, hwp.rate as int) as u64,
                spec_step(freq_mhz as int, hwp.rate as int) as u64,
            ]
            &&& v.amplitude =~= seq![
                clamp_amplitude(amplitude as int) as i64,
                clamp_amplitude(amplitude as int) as i64,
            ]
            &&& v.filters =~= note_fade_chain(d)
            &&& v.ticker == (Ticker { tick_count: 0u32, duration: d as u32 })
        }),
{
    let duration_ticks = duration_to_ticks(duration_ms, hwp.rate());
    let fade_ticks: u32 = (((duration_ticks as u64) * 3) / 10) as u32;
    let mut config = SoundConfigCollection::new();
    config.add_config(freq_mhz, 0, amplitude);
    config.add_config(freq_mhz, 0, amplitude);
    let mut voice = Sinusoid::new(&config, duration_ms, hwp);
    voice.add_filter(Filter::FadeIn(LinearFadeIn::new(fade_ticks)));
    voice.add_filter(Filter::FadeOut(LinearFadeOut::new(fade_ticks, duration_ticks)));
    Sound::Base(BaseSound::Sinusoid(voice))
}

/// Builds the two-channel wavetable voice the ingestion stage submits for
/// a note: the same configuration as the oscillator voice, reading an
/// interleaved waveform table instead of computing the sine.
pub fn note_table_voice<T>(
    table: InputConfig,
    freq_mhz: u64,
    amplitude: i64,
    duration_ms: u64,
    hwp: &HardwareParams<T>,
) -> (s: Sound)
    requires
        note_voice_fits(freq_mhz, duration_ms, *hwp),
        table.channels >= 1,
        table.data@.len() % (table.channels as nat) == 0,
        1 <= table.data@.len() as int / (table.channels as int) <= MAX_TABLE_FRAMES,
        forall|i: int|
            0 <= i < table.data@.len() ==> crate::sound::mag(#[trigger] table.data@[i] as int)
                <= SCALE_ONE,
    ensures
        sound_wf(s@),
        sound_supports_all(s@, 2),
        !sound_complete(s@),
        ({
            let d = duration_ms * hwp.rate / 1000;
            &&& s@ matches SoundView::Base(BaseSoundView::Cached(v))
            &&& v.table == table.data@
            &&& v.in_channels == table.channels
            &&& v.idx =~= seq![
                spec_index_start(v.frames(), 0) as u64,
                spec_index_start(v.frames(), 0) as u64,
            ]
            &&& v.step =~= seq![
                spec_index_step(v.frames(), freq_mhz as int, hwp.rate as int) as u64,
                spec_index_step(v.frames(), freq_mhz as int, hwp.rate as int) as u64,
            ]
            &&& v.amplitude =~= seq![
                clamp_amplitude(amplitude as int) as i64,
                clamp_amplitude(amplitude as int) as i64,
            ]
            &&& v.filters =~= note_fade_chain(d)
            &&& v.ticker == (Ticker { tick_count: 0u32, duration: d as u32 })
        }),
{
    let duration_ticks = duration_to_ticks(duration_ms, hwp.rate());
    let fade_ticks: u32 = (((duration_ticks as u64) * 3) / 10) as u32;
    let mut config = SoundConfigCollection::new();
    config.add_config(freq_mhz, 0, amplitude);
    config.add_config(freq_mhz, 0, amplitude);
    let mut voice = CachedPeriod::new(table, &config, duration_ms, hwp);
    voice.add_filter(Filter::FadeIn(LinearFadeIn::new(fade_ticks)));
    voice.add_filter(Filter::FadeOut(LinearFadeOut::new(fade_ticks, duration_ticks)));
    Sound::Base(BaseSound::Cached(voice))
}

/// Wraps an already-loaded recording as the playback voice the ingestion
/// stage submits after a note's oscillator and wavetable voices.
pub fn recording_voice(recording: InputConfig) -> (s: Sound)
    requires
        recording.channels >= 1,
        recording.data@.len() % (recording.channels as nat) == 0,
        forall|i: int|
            0 <= i < recording.data@.len() ==> crate::sound::mag(
                #[trigger] recording.data@[i] as int,
            ) <= crate::sound::MAX_AMPLITUDE,
    ensures
        sound_wf(s@),
        forall|ch: int| 0 <= ch ==> crate::sound::sound_supports(s@, ch),
        ({
            &&& s@ matches SoundView::Base(BaseSoundView::Sample(v))
            &&& v.data == recording.data@
            &&& v.channels == recording.channels
            &&& v.idx == 0
        }),
{
    Sound::Base(BaseSound::Sample(CachedSound::new(recording)))
}

/// The state of the bounded period channel between the generation stage
/// and the writer stage: how many periods each side has moved so far.
pub struct PeriodFlow {
    /// Periods the generation stage has sent.
    pub generated: nat,
    /// Periods the writer stage has received and written.
    pub written: nat,
}

/// One stage's move on the period channel.
#[derive(Clone, Copy, Debug, PartialEq, Eq, Structural)]
pub enum FlowStep {
    /// The generation stage sends one period.
    Send,
    /// The writer stage receives and writes one period.
    Recv,
}

/// The session starts with nothing generated or written.
pub open spec fn flow_start() -> PeriodFlow {
    PeriodFlow { generated: 0, written: 0 }
}

/// The channel's capacity is one: a send blocks until the channel is
/// empty, a receive until it is full.
pub open spec fn step_enabled(f: PeriodFlow, step: FlowStep) -> bool {
    match step {
        FlowStep::Send => f.generated == f.written,
        FlowStep::Recv => f.generated > f.written,
    }
}

/// The channel state after one unblocked move.
pub open spec fn flow_step(f: PeriodFlow, step: FlowStep) -> PeriodFlow {
    match step {
        FlowStep::Send => PeriodFlow { generated: f.generated + 1, written: f.written },
        FlowStep::Recv => PeriodFlow { generated: f.generated, written: f.written + 1 },
    }
}

/// The backpressure invariant: the generation stage is never more than
/// one period ahead of the writer.
pub open spec fn flow_inv(f: PeriodFlow) -> bool {
    f.written <= f.generated <= f.written + 1
}

/// The channel state after a whole run of moves, each taken only when
/// unblocked.
pub open spec fn flow_run(steps: Seq<FlowStep>) -> PeriodFlow
    decreases steps.len(),
{
    if steps.len() == 0 {
        flow_start()
    } else {
        flow_step(flow_run(steps.drop_last()), steps.last())
    }
}

/// Whether every move of a run was unblocked when taken.
pub open spec fn run_enabled(steps: Seq<FlowStep>) -> bool
    decreases steps.len(),
{
    if steps.len() == 0 {
        true
    } else {
        run_enabled(steps.drop_last()) && step_enabled(flow_run(steps.drop_last()), steps.last())
    }
}

/// Backpressure: with the period channel's capacity of one, however the
/// sends of the generation stage and the receives of the writer stage
/// interleave, no more than one generated period is ever buffered ahead
/// of the hardware write.
pub proof fn lemma_backpressure(steps: Seq<FlowStep>)
    requires
        run_enabled(steps),
    ensures
        flow_inv(flow_run(steps)),
        flow_run(steps).generated - flow_run(steps).written <= 1,
    decreases steps.len(),
{
    if steps.len() > 0 {
        lemma_backpressure(steps.drop_last());
    }
}

} // verus!
