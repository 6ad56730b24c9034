use zinnia::hwp::HardwareParams;
use zinnia::registry::VoiceRegistry;
use zinnia::sound::config::SoundConfigCollection;
use zinnia::sound::{
    mix, mix_fixed, BaseSound, CachedSound, InputConfig, MultiSound, Sinusoid, Sound,
    MAX_CONCURRENT, SCALE_ONE,
};

const QUARTER_PHASE: u64 = 0x4000_0000;

fn params(channels: u32, rate: u32) -> HardwareParams<i16> {
    HardwareParams::granted(channels, rate, 256, 64)
}

/// An oscillator voice held at the sine peak, so that its first sample on
/// channel 0 is exactly `amplitude`.
fn constant_voice(amplitude: i64) -> Sound {
    let hwp = params(1, 8000);
    let mut config = SoundConfigCollection::new();
    config.add_config(1_000_000, QUARTER_PHASE, amplitude);
    Sound::Base(BaseSound::Sinusoid(Sinusoid::new(&config, 1000, &hwp)))
}

// Mixing with the fixed-cap policy and N voices each emitting the
// constant value v yields exactly N * v / cap.
#[test]
fn fixed_cap_mix_of_constant_voices() {
    assert_eq!(MAX_CONCURRENT, 4);
    for n in 0..=4usize {
        let voices: Vec<Sound> = (0..n).map(|_| constant_voice(1000)).collect();
        let mixed = mix_fixed(&voices, 0);
        assert_eq!(mixed, (n as i64) * 1000 / 4);
    }
}

#[test]
fn dynamic_mix_divides_by_the_live_count() {
    let voices: Vec<Sound> = (0..3).map(|_| constant_voice(900)).collect();
    assert_eq!(mix(&voices, 0), 900);
    let none: Vec<Sound> = Vec::new();
    assert_eq!(mix(&none, 0), 0);
    assert_eq!(mix_fixed(&none, 0), 0);
}

#[test]
fn composite_mixes_children_dynamically_and_finishes_last() {
    let mut m = MultiSound::new(match constant_voice(800) {
        Sound::Base(b) => b,
        Sound::Multi(_) => unreachable!(),
    });
    m.add_sound(BaseSound::Sample(CachedSound::new(InputConfig::new(vec![800, 800], 1))));
    // Two children, both emitting 800: the dynamic mix stays at 800.
    assert_eq!(m.generate(0), 800);
    assert!(!m.is_complete());
    // The recording lasts two frames; the oscillator runs a full second.
    m.tick();
    m.tick();
    m.tick();
    assert!(!m.is_complete());
}

// A voice whose duration is D ticks is present in the registry through
// tick D and absent from tick D + 1 onward.
#[test]
fn registry_prunes_exactly_one_past_duration() {
    let hwp = params(1, 1000);
    let mut config = SoundConfigCollection::new();
    config.add_config(400_000, 0, 1000);
    // Three milliseconds at 1000 frames per second: a duration of 3.
    let voice = Sound::Base(BaseSound::Sinusoid(Sinusoid::new(&config, 3, &hwp)));
    let mut registry = VoiceRegistry::new(1);
    registry.add_voice(voice);
    for k in 1..=3usize {
        registry.advance();
        assert_eq!(registry.voice_count(), 1, "still present after cycle {k}");
    }
    registry.advance();
    assert_eq!(registry.voice_count(), 0, "gone one cycle past its duration");
    registry.advance();
    assert_eq!(registry.voice_count(), 0);
}

// The period buffer delivered to the writer stage always has length
// exactly period_size * channel_count, samples interleaved by channel.
#[test]
fn period_buffer_is_interleaved_and_exactly_sized() {
    let hwp = params(2, 8000);
    let mut config = SoundConfigCollection::new();
    config.add_config(1_000_000, QUARTER_PHASE, 4000);
    config.add_config(1_000_000, QUARTER_PHASE + 0x8000_0000, 4000);
    let voice = Sound::Base(BaseSound::Sinusoid(Sinusoid::new(&config, 1000, &hwp)));
    let mut registry = VoiceRegistry::new(2);
    registry.add_voice(voice);
    let buffer = registry.generate_period(64);
    assert_eq!(buffer.len(), 128);
    // First frame, channel 0: the sine peak scaled by amplitude, divided
    // by the fixed cap; channel 1 sits at the trough.
    assert_eq!(buffer[0], 4000 / 4);
    assert_eq!(buffer[1], -4000 / 4);
    // An empty registry generates silence of the same exact size.
    let mut empty = VoiceRegistry::new(2);
    let silence = empty.generate_period(64);
    assert_eq!(silence.len(), 128);
    assert!(silence.iter().all(|&s| s == 0));
}

#[test]
fn composite_of_drained_children() {
    let mut children = vec![
        BaseSound::Sample(CachedSound::new(InputConfig::new(vec![5, 5], 1))),
        BaseSound::Sample(CachedSound::new(InputConfig::new(vec![7], 1))),
    ];
    let m = MultiSound::with_sounds(&mut children);
    assert!(children.is_empty());
    assert_eq!(m.sounds.len(), 2);
    // (5 / 2) + (7 / 2) with the dynamic divisor of two.
    assert_eq!(m.generate(0), 5);
}

#[test]
fn mix_above_the_cap_keeps_the_fixed_divisor() {
    // Six voices at 1000 with a cap of four: loudness holds steady at
    // 1000 / 4 per voice, accepting the clipping risk beyond the cap.
    let voices: Vec<Sound> = (0..6).map(|_| constant_voice(1000)).collect();
    assert_eq!(mix_fixed(&voices, 0), 6 * (1000 / 4));
}

#[test]
fn period_goes_silent_once_the_voice_ends() {
    let hwp = params(1, 1000);
    let mut config = SoundConfigCollection::new();
    // A zero-frequency voice holds the sine peak: a constant 1000 after
    // the fixed-cap division, for exactly its four live ticks.
    config.add_config(0, QUARTER_PHASE, 4000);
    let voice = Sound::Base(BaseSound::Sinusoid(Sinusoid::new(&config, 3, &hwp)));
    let mut registry = VoiceRegistry::new(1);
    registry.add_voice(voice);
    let buffer = registry.generate_period(8);
    assert_eq!(buffer.len(), 8);
    assert_eq!(buffer[0], 1000);
    assert!(buffer[..4].iter().all(|&s| s != 0));
    assert!(buffer[4..].iter().all(|&s| s == 0));
    assert_eq!(registry.voice_count(), 0);
}
