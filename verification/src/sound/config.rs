//! Per-voice, per-channel synthesis parameters: a frequency, an initial
//! phase and an amplitude, one entry per output channel.

use vstd::prelude::*;

use crate::sound::{MAX_AMPLITUDE, MAX_PHASE};

verus! {

/// The parameters of one channel of a voice: a frequency in millihertz,
/// an initial phase in accumulator units, and an amplitude already scaled
/// to the output numeric range.
#[derive(Clone, Copy, Debug, PartialEq, Eq, Structural)]
pub struct SoundConfig {
    /// The frequency, in millihertz.
    pub freq_mhz: u64,
    /// The initial phase, in accumulator units below [`MAX_PHASE`].
    pub phase: u64,
    /// The amplitude, in `[0, MAX_AMPLITUDE]`.
    pub amplitude: i64,
}

/// An amplitude clamped into `[0, MAX_AMPLITUDE]`.
pub open spec fn clamp_amplitude(a: int) -> int {
    if a < 0 {
        0
    } else if a > MAX_AMPLITUDE {
        MAX_AMPLITUDE as int
    } else {
        a
    }
}

/// A configuration is well formed when its phase lies below the phase
/// modulus and its amplitude is clamped.
pub open spec fn config_wf(c: SoundConfig) -> bool {
    &&& c.phase < MAX_PHASE
    &&& 0 <= c.amplitude <= MAX_AMPLITUDE
}

impl SoundConfig {
    /// Builds a channel configuration; the phase is wrapped into the
    /// accumulator range and the amplitude clamped, so the result is
    /// always well formed.
    pub fn new(freq_mhz: u64, phase: u64, amplitude: i64) -> (c: SoundConfig)
        ensures
            c.freq_mhz == freq_mhz,
            c.phase == phase % MAX_PHASE,
            c.amplitude == clamp_amplitude(amplitude as int),
            config_wf(c),
    {
        let amplitude = if amplitude < 0 {
            0
        } else if amplitude > MAX_AMPLITUDE {
            MAX_AMPLITUDE
        } else {
            amplitude
        };
        SoundConfig { freq_mhz, phase: phase % MAX_PHASE, amplitude }
    }
}

/// A collection is well formed when all its entries are.
pub open spec fn configs_wf(cs: Seq<SoundConfig>) -> bool {
    forall|i: int| 0 <= i < cs.len() ==> config_wf(#[trigger] cs[i])
}

/// One configuration per output channel, in channel order.
#[derive(Debug)]
pub struct SoundConfigCollection {
    /// The per-channel entries, index equal to channel number.
    pub configs: Vec<SoundConfig>,
}

impl SoundConfigCollection {
    /// An empty collection.
    pub fn new() -> (c: SoundConfigCollection)
        ensures
            c.configs@ =~= Seq::<SoundConfig>::empty(),
    {
        SoundConfigCollection { configs: Vec::new() }
    }

    /// Builds a collection from `(frequency, phase, amplitude)` triples,
    /// each normalized as by [`SoundConfig::new`].
    pub fn with_configs(configs: &[(u64, u64, i64)]) -> (c: SoundConfigCollection)
        ensures
            c.configs@.len() == configs@.len(),
            forall|i: int|
                0 <= i < configs@.len() ==> {
                    &&& (#[trigger] c.configs@[i]).freq_mhz == configs@[i].0
                    &&& c.configs@[i].phase == configs@[i].1 % MAX_PHASE
                    &&& c.configs@[i].amplitude == clamp_amplitude(configs@[i].2 as int)
                },
            configs_wf(c.configs@),
    {
        let mut out = SoundConfigCollection { configs: Vec::new() };
        let mut i: usize = 0;
        while i < configs.len()
            invariant
                i <= configs@.len(),
                out.configs@.len() == i,
                forall|j: int|
                    0 <= j < i ==> {
                        &&& (#[trigger] out.configs@[j]).freq_mhz == configs@[j].0
                        &&& out.configs@[j].phase == configs@[j].1 % MAX_PHASE
                        &&& out.configs@[j].amplitude == clamp_amplitude(configs@[j].2 as int)
                        &&& config_wf(out.configs@[j])
                    },
            decreases configs@.len() - i,
        {
            let entry = configs[i];
            out.configs.push(SoundConfig::new(entry.0, entry.1, entry.2));
            i = i + 1;
        }
        out
    }

    /// Appends one channel configuration, normalized as by
    /// [`SoundConfig::new`].
    pub fn add_config(&mut self, freq_mhz: u64, phase: u64, amplitude: i64)
        ensures
            final(self).configs@.len() == old(self).configs@.len() + 1,
            final(self).configs@ =~= old(self).configs@.push(
                (SoundConfig {
                    freq_mhz,
                    phase: phase % MAX_PHASE,
                    amplitude: clamp_amplitude(amplitude as int) as i64,
                }),
            ),
    {
        self.configs.push(SoundConfig::new(freq_mhz, phase, amplitude));
    }

    /// The number of channels configured.
    pub fn len(&self) -> (n: usize)
        ensures
            n == self.configs@.len(),
    {
        self.configs.len()
    }

    /// The configuration of one channel.
    pub fn get(&self, channel: usize) -> (c: &SoundConfig)
        requires
            channel < self.configs@.len(),
        ensures
            *c == self.configs@[channel as int],
    {
        &self.configs[channel]
    }
}

} // verus!
