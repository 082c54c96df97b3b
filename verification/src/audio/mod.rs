//! Audio output: a mono `i16` sample stream packed into a DAC's serial format
//! and pushed to the hardware.
//!
//! [`AudioChannel`] is the application-facing role (what an SSTV synthesiser
//! needs: a sample rate and a place to send samples). A concrete DAC driver
//! implements it, generic over an [`AudioInterface`] that moves the packed
//! bytes to hardware.

pub mod encoder;
pub mod i2s;
pub mod interface;
pub mod pcm5102a;

use vstd::prelude::*;

pub use encoder::AudioEncoder;
pub use i2s::I2sConfig;
pub use interface::AudioInterface;
pub use pcm5102a::Pcm5102a;

verus! {

/// Error raised by the audio channel.
#[derive(Clone, Copy, Debug, PartialEq, Eq, Structural)]
pub enum AudioError {
    /// The I2S channel could not be created or configured.
    Init,
    /// Writing samples to the I2S channel failed.
    Transmission,
}

/// One use of an [`AudioChannel`], and what came of it.
pub enum AudioCall {
    /// A sample was queued.
    Transmit(i16, Result<(), AudioError>),
    /// The queued samples were pushed out.
    Flush(Result<(), AudioError>),
}

/// A place to send a mono `i16` sample stream. Implemented by a concrete DAC
/// driver; the SSTV synthesiser drives whatever satisfies this.
pub trait AudioChannel {
    /// Every use made of the channel so far, oldest first.
    open spec fn calls(&self) -> Seq<AudioCall> {
        arbitrary()
    }

    /// The sample rate in Hz.
    open spec fn rate(&self) -> u32 {
        arbitrary()
    }

    /// There is room for another sample. A channel may run full when the
    /// hardware stops accepting samples.
    open spec fn ready(&self) -> bool {
        true
    }

    /// The sample rate the DAC is clocked at, in Hz. The synthesiser must
    /// generate samples at this rate.
    fn sample_rate(&self) -> (rate: u32)
        ensures
            rate == self.rate(),
    ;

    /// Queue one sample for output. May flush buffered samples to hardware.
    fn transmit(&mut self, sample: i16) -> (outcome: Result<(), AudioError>)
        requires
            old(self).ready(),
        ensures
            final(self).calls() == old(self).calls().push(AudioCall::Transmit(sample, outcome)),
            final(self).rate() == old(self).rate(),
            outcome is Ok ==> final(self).ready(),
    ;

    /// Push any buffered samples to hardware.
    fn flush(&mut self) -> (outcome: Result<(), AudioError>)
        ensures
            final(self).calls() == old(self).calls().push(AudioCall::Flush(outcome)),
            final(self).rate() == old(self).rate(),
            old(self).ready() && outcome is Ok ==> final(self).ready(),
    ;
}

} // verus!
