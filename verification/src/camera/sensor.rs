//! Control-plane traits: chip drivers over their register bus.
//!
//! A sensor driver owns its bus, so these traits stay bus-agnostic.
//! Board-level facts (pins, strap-selected addresses, bus clocking) live where
//! the bus is constructed.

use vstd::prelude::*;

use super::format::FrameFormat;

verus! {

/// One use of a sensor's control plane, and whether it succeeded.
pub enum SensorCall {
    /// The init sequence was written.
    Init(bool),
    /// The sensor was told to produce frames.
    Start(bool),
    /// The sensor was told to stop producing frames.
    Stop(bool),
    /// One frame was requested.
    Trigger(bool),
    /// The sensor was asked for a triggered frame; what it answered, if it did.
    Ready(Option<bool>),
}

/// A camera sensor: register protocol, capture lifecycle, and what it emits.
pub trait CameraSensor {
    /// What a failed register access reports.
    type Error;

    /// Every use made of the control plane so far, oldest first.
    open spec fn control(&self) -> Seq<SensorCall> {
        arbitrary()
    }

    /// The raw frame format this sensor produces.
    open spec fn emits(&self) -> FrameFormat {
        arbitrary()
    }

    /// The raw frame format this sensor produces on its data interface.
    fn format(&self) -> (format: FrameFormat)
        ensures
            format == self.emits(),
    ;

    /// Write the sensor's register init sequence. Called once at bring-up, with
    /// the sensor out of reset and not yet streaming.
    fn init(&mut self) -> (outcome: Result<(), Self::Error>)
        ensures
            final(self).control() == old(self).control().push(SensorCall::Init(outcome is Ok)),
    ;

    /// Start producing frames: enable streaming, or arm a single-shot chip.
    fn start(&mut self) -> (outcome: Result<(), Self::Error>)
        ensures
            final(self).control() == old(self).control().push(SensorCall::Start(outcome is Ok)),
    ;

    /// Stop producing frames and enter a low-power idle state.
    fn stop(&mut self) -> (outcome: Result<(), Self::Error>)
        ensures
            final(self).control() == old(self).control().push(SensorCall::Stop(outcome is Ok)),
    ;
}

/// Single-shot sensors: frames are triggered and polled per capture rather than
/// streamed. [`start`](CameraSensor::start) arms the chip (often a no-op); each
/// frame is then requested with [`trigger`](Self::trigger) and fetched from the
/// data interface once [`frame_ready`](Self::frame_ready) reports true.
pub trait FrameTrigger: CameraSensor {
    /// Request capture of exactly one frame.
    fn trigger(&mut self) -> (outcome: Result<(), Self::Error>)
        ensures
            final(self).control() == old(self).control().push(SensorCall::Trigger(outcome is Ok)),
    ;

    /// Whether a triggered frame is ready to be read from the data interface.
    fn frame_ready(&mut self) -> (ready: Result<bool, Self::Error>)
        ensures
            final(self).control() == old(self).control().push(
                SensorCall::Ready(
                    match ready {
                        Ok(answer) => Some(answer),
                        Err(_) => None,
                    },
                ),
            ),
    ;
}

} // verus!
