use std::sync::mpsc;

use zinnia::convert::{convert_period, LossyFrom};
use zinnia::hwp::{HardwareParams, HwpBuilder};
use zinnia::music::{Note, Octave};
use zinnia::pipeline::{
    classify_note_line, ingest, note_sinusoid_voice, note_table_voice, recording_voice,
    writer_step, InputEvent, WriteOutcome, WriterAction,
};
use zinnia::registry::VoiceRegistry;
use zinnia::sound::{sine_period_n_channels, InputConfig, Sound, SCALE_ONE};

#[test]
fn writer_policy_covers_every_outcome() {
    assert_eq!(writer_step(false, &WriteOutcome::Written(64)), WriterAction::Stop);
    assert_eq!(writer_step(false, &WriteOutcome::Fatal), WriterAction::Stop);
    assert_eq!(writer_step(true, &WriteOutcome::Written(64)), WriterAction::Continue);
    assert_eq!(writer_step(true, &WriteOutcome::Recoverable), WriterAction::Recover);
    assert_eq!(writer_step(true, &WriteOutcome::Fatal), WriterAction::Fail);
}

#[test]
fn input_lines_classify_into_quit_play_and_rejected() {
    assert_eq!(classify_note_line(""), InputEvent::Quit);
    assert_eq!(classify_note_line(" \t\r\n"), InputEvent::Quit);
    assert_eq!(classify_note_line("4a\n"), InputEvent::Play(Note::A(Octave::Four)));
    assert_eq!(classify_note_line("  3C"), InputEvent::Play(Note::C(Octave::Three)));
    assert_eq!(classify_note_line("9a"), InputEvent::Rejected);
    assert_eq!(classify_note_line("what"), InputEvent::Rejected);
}

fn params(channels: u32, rate: u32) -> HardwareParams<i16> {
    HardwareParams::granted(channels, rate, 256, 64)
}

#[test]
fn note_voice_carries_both_fades() {
    let hwp = params(2, 8000);
    // 440 Hz for one second: the fades span thirty percent of 8000 ticks.
    let voice = note_sinusoid_voice(440_000, 32767, 1000, &hwp);
    match voice {
        Sound::Base(zinnia::sound::BaseSound::Sinusoid(s)) => {
            assert_eq!(s.phase, vec![0, 0]);
            assert_eq!(s.amplitude, vec![32767, 32767]);
            assert_eq!(s.ticker.duration, 8000);
            assert_eq!(s.filters.filters.len(), 2);
        },
        _ => panic!("expected an oscillator voice"),
    }
}

#[test]
fn table_note_voice_reads_the_shared_sine_period() {
    let hwp = params(2, 8000);
    let table = sine_period_n_channels(1000, 2);
    let voice = note_table_voice(InputConfig::new(table, 2), 440_000, 32767, 1000, &hwp);
    match voice {
        Sound::Base(zinnia::sound::BaseSound::Cached(c)) => {
            assert_eq!(c.idx, vec![0, 0]);
            assert_eq!(c.amplitude, vec![32767, 32767]);
            assert_eq!(c.ticker.duration, 8000);
            assert_eq!(c.period_config.channels, 2);
        },
        _ => panic!("expected a wavetable voice"),
    }
}

#[test]
fn ingestion_accepts_pending_voices_and_tolerates_none() {
    let hwp = params(2, 8000);
    let mut registry = VoiceRegistry::new(2);
    assert!(!ingest(&mut registry, None));
    assert_eq!(registry.voice_count(), 0);
    let voice = note_sinusoid_voice(440_000, 32767, 1000, &hwp);
    assert!(ingest(&mut registry, Some(voice)));
    assert_eq!(registry.voice_count(), 1);
}

#[test]
fn recording_voice_wraps_a_loaded_buffer() {
    let voice = recording_voice(InputConfig::new(vec![1, 2, 3, 4], 2));
    match voice {
        Sound::Base(zinnia::sound::BaseSound::Sample(s)) => {
            assert_eq!(s.idx, 0);
            assert_eq!(s.period_config.data, vec![1, 2, 3, 4]);
        },
        _ => panic!("expected a playback voice"),
    }
}

#[test]
fn conversion_narrows_each_sample() {
    assert_eq!(i16::lossy_from(1000), 1000);
    assert_eq!(i16::lossy_from(-70000), (-70000i64) as i16);
    assert_eq!(i32::lossy_from(1 << 40), ((1i64 << 40)) as i32);
    let out: Vec<i16> = convert_period(&vec![0, SCALE_ONE, -SCALE_ONE, 123]);
    assert_eq!(out, vec![0, SCALE_ONE as i16, (-SCALE_ONE) as i16, 123]);
}

#[test]
fn requested_parameters_keep_their_values() {
    let p: HardwareParams<i16> = HwpBuilder::new(25000, 5000, 2).rate(8000).build();
    assert_eq!(p.channels(), 2);
    assert_eq!(p.rate(), 8000);
    assert_eq!(p.buffer_time, 25000);
    assert_eq!(p.period_time, 5000);
    let granted: HardwareParams<i16> = HardwareParams::granted(2, 8000, 256, 64);
    assert_eq!(granted.period_size(), 64);
    assert_eq!(granted.periods_per_second(), 125);
}

// Backpressure: a period channel of capacity one accepts a second period
// only after the first was taken out, so the generation stage can never
// run more than one period ahead of the writer.
#[test]
fn capacity_one_channel_blocks_the_second_send() {
    let (tx, rx) = mpsc::sync_channel::<Vec<i16>>(1);
    tx.try_send(vec![1]).unwrap();
    assert!(tx.try_send(vec![2]).is_err());
    assert_eq!(rx.recv().unwrap(), vec![1]);
    tx.try_send(vec![2]).unwrap();
    assert!(tx.try_send(vec![3]).is_err());
    assert_eq!(rx.recv().unwrap(), vec![2]);
}
