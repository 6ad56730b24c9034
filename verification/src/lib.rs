//! A real-time audio synthesis and mixing engine.
//!
//! Voices (phase-accumulator oscillators, wavetable-lookup oscillators and
//! pre-recorded sample players) generate one sample per channel per tick,
//! run their output through an envelope/pan filter chain, and are mixed
//! under a clipping-avoidance policy into fixed-size periods for delivery
//! to a playback device.
//!
//! All sample arithmetic is fixed point: a phase is a `u64` accumulator
//! below [`sound::MAX_PHASE`] standing for the interval `[0, 2*pi)`, a
//! sample is an `i64`, and scale factors are fractions with denominator
//! [`sound::SCALE_ONE`].

use vstd::prelude::*;

pub mod convert;
pub mod error;
pub mod hwp;
pub mod music;
pub mod pipeline;
pub mod registry;
pub mod sound;

verus! {

/// The result type used throughout the engine.
pub type Result<T> = core::result::Result<T, error::Error>;

} // verus!
