use zinnia::hwp::HardwareParams;
use zinnia::sound::config::{SoundConfig, SoundConfigCollection};
use zinnia::sound::filter::{Filter, LinearFadeIn};
use zinnia::sound::{
    calc_step, decode_i16_be_samples, duration_to_ticks, max_amplitude, sine,
    sine_period_n_channels, verify_scale, CachedPeriod, CachedSound, InputConfig, Sinusoid,
    Ticker, HALF_PHASE, MAX_AMPLITUDE, MAX_PHASE, SCALE_ONE,
};

const QUARTER_PHASE: u64 = 0x4000_0000;

fn params(channels: u32, rate: u32) -> HardwareParams<i16> {
    HardwareParams::granted(channels, rate, 256, 64)
}

#[test]
fn sine_is_exact_at_the_quarter_points() {
    assert_eq!(sine(0), 0);
    assert_eq!(sine(QUARTER_PHASE), SCALE_ONE);
    assert_eq!(sine(HALF_PHASE), 0);
    assert_eq!(sine(HALF_PHASE + QUARTER_PHASE), -SCALE_ONE);
}

#[test]
fn sine_stays_in_unit_range() {
    let mut phase: u64 = 0;
    while phase < MAX_PHASE {
        let v = sine(phase);
        assert!(-SCALE_ONE <= v && v <= SCALE_ONE);
        phase += 0x0123_4567;
    }
}

#[test]
fn clock_converts_milliseconds_to_ticks() {
    assert_eq!(duration_to_ticks(1000, 8000), 8000);
    assert_eq!(duration_to_ticks(500, 44100), 22050);
    assert_eq!(duration_to_ticks(1, 900), 0);
}

#[test]
fn step_is_proportional_to_frequency() {
    // One full turn per second at one hertz and a phase unit of 2^32:
    // 1000 millihertz at 8000 frames per second steps 2^32 / 8000.
    assert_eq!(calc_step(1000, 8000), MAX_PHASE / 8000);
    assert_eq!(calc_step(4000_000, 8000), MAX_PHASE / 2);
}

#[test]
fn scale_factors_are_clamped() {
    assert_eq!(verify_scale(-5), 5);
    assert_eq!(verify_scale(40000), SCALE_ONE);
    assert_eq!(verify_scale(-40000), SCALE_ONE);
    assert_eq!(verify_scale(12345), 12345);
}

#[test]
fn max_amplitude_matches_the_output_width() {
    assert_eq!(max_amplitude::<i16>(), 32767);
    assert_eq!(max_amplitude::<i32>(), 0x7FFF_FFFF);
}

#[test]
fn ticker_completes_one_past_its_duration() {
    let mut t = Ticker::new(3);
    let mut seen = 0;
    while !t.is_complete() {
        seen += 1;
        t.tick();
        assert!(seen <= 4);
    }
    assert_eq!(seen, 4);
}

// The oscillator's output is bounded by its amplitude at every tick, and
// its stored phase stays inside the accumulator range after every tick.
#[test]
fn oscillator_bounded_and_phase_wraps() {
    let hwp = params(2, 8000);
    let mut config = SoundConfigCollection::new();
    config.add_config(3_500_000, 0, 20000);
    config.add_config(3_500_000, QUARTER_PHASE, 20000);
    let mut voice = Sinusoid::new(&config, 1000, &hwp);
    for _ in 0..500 {
        for ch in 0..2 {
            let v = voice.generate(ch);
            assert!(-20000 <= v && v <= 20000);
        }
        voice.tick();
        assert!(voice.phase[0] < MAX_PHASE);
        assert!(voice.phase[1] < MAX_PHASE);
    }
}

// The concrete playback scenario: one second at 8000 frames per second is
// 8000 ticks; the voice is incomplete at tick 8000 and complete at 8001,
// and its very first sample at phase zero is exactly zero.
#[test]
fn one_second_oscillator_boundary() {
    let hwp = params(1, 8000);
    let mut config = SoundConfigCollection::new();
    config.add_config(1_000_000, 0, 32767);
    let mut voice = Sinusoid::new(&config, 1000, &hwp);
    assert_eq!(voice.ticker.duration, 8000);
    assert_eq!(voice.generate(0), 0);
    for _ in 0..8000 {
        assert!(!voice.is_complete());
        voice.tick();
    }
    assert_eq!(voice.ticker.tick_count, 8000);
    assert!(!voice.is_complete());
    voice.tick();
    assert_eq!(voice.ticker.tick_count, 8001);
    assert!(voice.is_complete());
}

#[test]
fn sine_table_holds_one_cycle_per_channel() {
    let table = sine_period_n_channels(8, 2);
    assert_eq!(table.len(), 16);
    assert_eq!(table[0], 0);
    assert_eq!(table[1], 0);
    assert_eq!(table[4], SCALE_ONE);
    assert_eq!(table[5], SCALE_ONE);
    assert_eq!(table[8], 0);
    assert_eq!(table[12], -SCALE_ONE);
}

// Sampling a wavetable at an index exactly on a frame boundary returns
// the stored sample with no interpolation error.
#[test]
fn wavetable_exact_at_integer_index() {
    let hwp = params(1, 8000);
    let table = sine_period_n_channels(8, 1);
    let stored = table[2];
    let mut config = SoundConfigCollection::new();
    // A phase offset of a quarter turn lands exactly on frame 2 of 8.
    config.add_config(1_000_000, QUARTER_PHASE, SCALE_ONE);
    let voice = CachedPeriod::new(InputConfig::new(table, 1), &config, 1000, &hwp);
    assert_eq!(voice.generate(0), stored);
    assert_eq!(stored, SCALE_ONE);
}

#[test]
fn wavetable_index_wraps_at_the_table_end() {
    let hwp = params(1, 8000);
    let table = sine_period_n_channels(8, 1);
    let mut config = SoundConfigCollection::new();
    // 1000 Hz at 8000 frames per second crosses the eight-frame table
    // once per eight ticks: each tick advances exactly one frame.
    config.add_config(1_000_000, 0, SCALE_ONE);
    let mut voice = CachedPeriod::new(InputConfig::new(table.clone(), 1), &config, 1000, &hwp);
    for cycle in 0..3 {
        for frame in 0..8 {
            assert_eq!(voice.generate(0), table[frame], "cycle {cycle} frame {frame}");
            voice.tick();
        }
    }
}

#[test]
fn recording_plays_back_then_goes_silent() {
    let data = vec![10, -20, 30, -40];
    let mut voice = CachedSound::new(InputConfig::new(data, 2));
    assert!(!voice.is_complete());
    assert_eq!(voice.generate(0), 10);
    assert_eq!(voice.generate(1), -20);
    assert_eq!(voice.generate(2), 10);
    voice.tick();
    assert_eq!(voice.generate(0), 30);
    assert_eq!(voice.generate(1), -40);
    voice.tick();
    assert!(voice.is_complete());
    assert_eq!(voice.generate(0), 0);
    assert_eq!(voice.generate(1), 0);
}

#[test]
fn decoder_reads_big_endian_signed_samples() {
    let decoded = decode_i16_be_samples(&vec![0x00, 0x01, 0xFF, 0xFF, 0x80, 0x00, 0x7F, 0xFF]);
    assert_eq!(decoded, vec![1, -1, -32768, 32767]);
    assert_eq!(decode_i16_be_samples(&vec![]).len(), 0);
    // A trailing odd byte is ignored.
    assert_eq!(decode_i16_be_samples(&vec![0x00, 0x02, 0x09]), vec![2]);
}

#[test]
fn configs_normalize_their_entries() {
    let c = SoundConfig::new(440_000, MAX_PHASE + 7, -5);
    assert_eq!(c.phase, 7);
    assert_eq!(c.amplitude, 0);
    let big = SoundConfig::new(1, 0, i64::MAX);
    assert_eq!(big.amplitude, MAX_AMPLITUDE);
    let all = SoundConfigCollection::with_configs(&[(1, 2, 3), (4, 5, 6)]);
    assert_eq!(all.len(), 2);
    assert_eq!(all.get(1).freq_mhz, 4);
    assert_eq!(all.get(1).phase, 5);
    assert_eq!(all.get(1).amplitude, 6);
}

#[test]
fn oscillator_fades_its_own_output() {
    let hwp = params(1, 8000);
    let mut config = SoundConfigCollection::new();
    config.add_config(1_000_000, 0x4000_0000, 1000);
    let mut voice = Sinusoid::new(&config, 1000, &hwp);
    assert_eq!(voice.generate(0), 1000);
    voice.add_filter(Filter::FadeIn(LinearFadeIn::new(10)));
    // The attached fade-in now silences the peak at tick zero.
    assert_eq!(voice.generate(0), 0);
}
