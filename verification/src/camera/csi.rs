//! The MIPI CSI-2 transport: which streams it can carry, and waiting for the
//! frames it delivers.

use vstd::prelude::*;

use super::format::{BayerOrder, FrameFormat, PixelFormat};
use super::interface::Timeout;
use super::CameraError;

verus! {

/// The clock of the signal processor, in Hz.
pub const PROCESSOR_CLOCK_HZ: u32 = 80_000_000;

/// How long the first receive buffer may take to be queued, in milliseconds.
pub const QUEUE_TIMEOUT_MS: u32 = 100;

/// How long to sleep between two looks for a frame, in milliseconds.
pub const POLL_MS: u32 = 1;

/// Raw data the camera controller can receive.
#[derive(Clone, Copy, Debug, PartialEq, Eq, Structural)]
pub enum ColorType {
    /// One byte per pixel.
    Raw8,
    /// Ten bits per pixel, packed.
    Raw10,
}

/// What the transport is configured with to carry a sensor's frames.
#[derive(Clone, Copy, Debug, PartialEq, Eq, Structural)]
pub struct Stream {
    /// The data on the link.
    pub color: ColorType,
    /// The color filter in front of the pixels.
    pub order: BayerOrder,
    /// Raw data is routed around the signal processor.
    pub bypass: bool,
    /// The size of the receive buffer.
    pub frame_bytes: usize,
}

impl Stream {
    /// The stream that carries frames of a format. Only mosaics can be carried;
    /// the signal processor is bypassed for ten-bit data, which it was not set
    /// up for.
    pub fn of(format: &FrameFormat) -> (stream: Result<Stream, CameraError>)
        requires
            format.countable(),
        ensures
            stream == match format.pixel {
                PixelFormat::Raw8(order) => Ok(
                    Stream {
                        color: ColorType::Raw8,
                        order,
                        bypass: false,
                        frame_bytes: format.frame_len() as usize,
                    },
                ),
                PixelFormat::Raw10(order) => Ok(
                    Stream {
                        color: ColorType::Raw10,
                        order,
                        bypass: true,
                        frame_bytes: format.frame_len() as usize,
                    },
                ),
                PixelFormat::Gray16 => Err(CameraError::UnsupportedFormat),
            },
    {
        let frame_bytes: usize = format.bytes_per_frame();
        match format.pixel {
            PixelFormat::Raw8(order) => Ok(
                Stream { color: ColorType::Raw8, order, bypass: false, frame_bytes },
            ),
            PixelFormat::Raw10(order) => Ok(
                Stream { color: ColorType::Raw10, order, bypass: true, frame_bytes },
            ),
            PixelFormat::Gray16 => Err(CameraError::UnsupportedFormat),
        }
    }
}

/// What to do after a look for a frame.
#[derive(Clone, Copy, Debug, PartialEq, Eq, Structural)]
pub enum Wait {
    /// The frame is there.
    Take,
    /// Sleep for [`POLL_MS`] and look again.
    Sleep,
    /// Give up.
    Fail(CameraError),
}

/// Waiting for one frame.
pub struct FrameWait {
    timeout: Timeout,
    waited_ms: u32,
}

impl View for FrameWait {
    /// The time allowed and the time spent, in milliseconds.
    type V = (Timeout, nat);

    closed spec fn view(&self) -> (Timeout, nat) {
        (self.timeout, self.waited_ms as nat)
    }
}

/// The time allowed is spent.
pub open spec fn expired(timeout: Timeout, waited_ms: nat) -> bool {
    timeout matches Timeout::Millis(ms) && waited_ms >= ms
}

impl FrameWait {
    /// No more time was spent than allowed.
    pub closed spec fn wf(&self) -> bool {
        match self.timeout {
            Timeout::Millis(ms) => self.waited_ms <= ms,
            Timeout::Forever => self.waited_ms == 0,
        }
    }

    /// About to look for the first time.
    pub fn new(timeout: Timeout) -> (wait: Self)
        ensures
            wait.wf(),
            wait@ == (timeout, 0nat),
    {
        FrameWait { timeout, waited_ms: 0 }
    }

    /// Decide what a look leads to: a frame is taken even if the time is spent.
    /// Without a limit no time is counted.
    pub fn look(&mut self, ready: bool) -> (next: Wait)
        requires
            old(self).wf(),
        ensures
            final(self).wf(),
            next == if ready {
                Wait::Take
            } else if expired(old(self)@.0, old(self)@.1) {
                Wait::Fail(CameraError::Transport)
            } else {
                Wait::Sleep
            },
            final(self)@.0 == old(self)@.0,
            final(self)@.1 == if next is Sleep && old(self)@.0 is Millis {
                old(self)@.1 + POLL_MS as nat
            } else {
                old(self)@.1
            },
    {
        if ready {
            return Wait::Take;
        }
        match self.timeout {
            Timeout::Forever => Wait::Sleep,
            Timeout::Millis(ms) => {
                if self.waited_ms >= ms {
                    Wait::Fail(CameraError::Transport)
                } else {
                    self.waited_ms = self.waited_ms + POLL_MS;
                    Wait::Sleep
                }
            },
        }
    }
}

/// The time allowed is spent exactly when no less than it went by, and never
/// without a limit; one look after another is a millisecond apart.
pub proof fn law_time_runs_out_at_the_limit(limit: u32, waited_ms: nat)
    ensures
        expired(Timeout::Millis(limit), waited_ms) <==> waited_ms >= limit,
        !expired(Timeout::Forever, waited_ms),
        POLL_MS == 1,
{
}

} // verus!
