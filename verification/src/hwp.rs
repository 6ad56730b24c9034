//! Hardware parameters: the immutable, device-confirmed timing values
//! every other component reads, and a builder for the requested values.
//!
//! The engine is generic over the output sample type `T`; the parameters
//! carry it as a phantom so that a parameter set and the voices built
//! from it agree on the output format. Negotiation itself happens at the
//! hardware layer outside this crate; what comes back is held here as
//! plain numbers.

use core::marker::PhantomData;

use vstd::prelude::*;

verus! {

/// Hardware-confirmed parameters: channel count, sampling rate and the
/// buffer/period sizing, fixed for the lifetime of a playback session.
#[derive(Debug)]
pub struct HardwareParams<T> {
    /// The number of interleaved channels.
    pub channels: u32,
    /// The sampling rate in frames per second.
    pub rate: u32,
    /// The device buffer length in frames.
    pub buffer_size: i64,
    /// The period length in frames: the unit of one transfer.
    pub period_size: i64,
    /// The requested buffer time in microseconds.
    pub buffer_time: u32,
    /// The requested period time in microseconds.
    pub period_time: u32,
    /// The output sample type the session was opened with.
    pub phantom: PhantomData<T>,
}

/// Parameters a session can actually run on: at least one channel, a
/// positive rate and a positive period.
pub open spec fn params_confirmed<T>(p: HardwareParams<T>) -> bool {
    &&& p.channels >= 1
    &&& p.rate >= 1
    &&& p.period_size >= 1
}

impl<T> HardwareParams<T> {
    /// Packs the values a device granted after negotiation.
    pub fn granted(channels: u32, rate: u32, buffer_size: i64, period_size: i64) -> (p:
        HardwareParams<T>)
        requires
            channels >= 1,
            rate >= 1,
            period_size >= 1,
        ensures
            p.channels == channels,
            p.rate == rate,
            p.buffer_size == buffer_size,
            p.period_size == period_size,
            params_confirmed(p),
    {
        HardwareParams {
            channels,
            rate,
            buffer_size,
            period_size,
            buffer_time: 0,
            period_time: 0,
            phantom: PhantomData,
        }
    }

    /// How many periods the device consumes per second.
    pub fn periods_per_second(&self) -> (n: u32)
        requires
            1 <= self.period_size <= u32::MAX,
        ensures
            n == self.rate as int / self.period_size as int,
    {
        self.rate / (self.period_size as u32)
    }

    /// The period length in frames.
    pub fn period_size(&self) -> (n: i64)
        ensures
            n == self.period_size,
    {
        self.period_size
    }

    /// The sampling rate in frames per second.
    pub fn rate(&self) -> (n: u32)
        ensures
            n == self.rate,
    {
        self.rate
    }

    /// The number of interleaved channels.
    pub fn channels(&self) -> (n: u32)
        ensures
            n == self.channels,
    {
        self.channels
    }
}

/// A builder for the parameter values requested from the device; what the
/// device grants may differ and comes back through
/// [`HardwareParams::granted`].
pub struct HwpBuilder<T> {
    /// The number of interleaved channels to request.
    pub channels: u32,
    /// The sampling rate to request, in frames per second.
    pub rate: u32,
    /// The buffer time to request, in microseconds.
    pub buffer_time: u32,
    /// The period time to request, in microseconds.
    pub period_time: u32,
    /// The output sample type of the session.
    pub phantom: PhantomData<T>,
}

impl<T> HwpBuilder<T> {
    /// Starts a request with the given timing and channel count, at the
    /// conventional default rate.
    pub fn new(buffer_time: u32, period_time: u32, channels: u32) -> (b: HwpBuilder<T>)
        ensures
            b.buffer_time == buffer_time,
            b.period_time == period_time,
            b.channels == channels,
            b.rate == 44100,
    {
        HwpBuilder { channels, rate: 44100, buffer_time, period_time, phantom: PhantomData }
    }

    /// Overrides the requested sampling rate.
    pub fn rate(self, rate: u32) -> (b: HwpBuilder<T>)
        ensures
            b.rate == rate,
            b.channels == self.channels,
            b.buffer_time == self.buffer_time,
            b.period_time == self.period_time,
    {
        HwpBuilder { rate, ..self }
    }

    /// The requested parameter set; buffer and period sizes stay zero
    /// until the device grants real values.
    pub fn build(self) -> (p: HardwareParams<T>)
        ensures
            p.channels == self.channels,
            p.rate == self.rate,
            p.buffer_time == self.buffer_time,
            p.period_time == self.period_time,
            p.buffer_size == 0,
            p.period_size == 0,
    {
        HardwareParams {
            channels: self.channels,
            rate: self.rate,
            buffer_size: 0,
            period_size: 0,
            buffer_time: self.buffer_time,
            period_time: self.period_time,
            phantom: PhantomData,
        }
    }
}

} // verus!
