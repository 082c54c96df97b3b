//! The platform's communication channel to a camera: the I2C control bus for
//! register access plus the frame-data transport. The sensor drivers are
//! generic over it and carry no platform code of their own.

use vstd::prelude::*;

use super::CameraError;

verus! {

/// How long to wait for a frame.
#[derive(Clone, Copy, Debug, PartialEq, Eq, Structural)]
pub enum Timeout {
    /// At most this many milliseconds.
    Millis(u32),
    /// Until a frame arrives.
    Forever,
}

/// One use of a [`CameraInterface`].
pub enum BusCall {
    /// Bytes were written to the device at an address; whether it took them.
    Write(u8, Seq<u8>, bool),
    /// Bytes were written to the device at an address and its reply was read,
    /// if it gave one.
    WriteRead(u8, Seq<u8>, Option<Seq<u8>>),
    /// A frame was awaited, and came if there is one.
    Frame(Timeout, Option<Seq<u8>>),
    /// So many milliseconds were let pass.
    Delay(u32),
}

/// The communication channel to a camera.
pub trait CameraInterface {
    /// Every use made of the channel so far, oldest first.
    open spec fn calls(&self) -> Seq<BusCall> {
        arbitrary()
    }

    /// Write to the device at a 7-bit address on the control bus. Sensors frame
    /// their own register protocol (address width differs per chip) over this.
    /// A failure is a failure of the bus.
    fn write(&mut self, address: u8, data: &[u8]) -> (outcome: Result<(), CameraError>)
        ensures
            outcome matches Err(e) ==> e == CameraError::Bus,
            final(self).calls() == old(self).calls().push(
                BusCall::Write(address, data@, outcome is Ok),
            ),
    ;

    /// Write to the device at a 7-bit address on the control bus, then read its
    /// reply. A failure is a failure of the bus.
    fn write_read(&mut self, address: u8, data: &[u8], reply: &mut [u8]) -> (outcome: Result<
        (),
        CameraError,
    >)
        ensures
            outcome matches Err(e) ==> e == CameraError::Bus,
            final(reply)@.len() == old(reply)@.len(),
            final(self).calls() == old(self).calls().push(
                BusCall::WriteRead(
                    address,
                    data@,
                    if outcome is Ok {
                        Some(final(reply)@)
                    } else {
                        None
                    },
                ),
            ),
    ;

    /// Obtain the next complete raw frame.
    ///
    /// Push-based transports (DMA-driven, like CSI) block until the next frame
    /// arrives or the timeout elapses. Pull-based transports (a clocked-out SPI
    /// readout) read immediately; the caller must complete any readiness
    /// handshake first. The returned slice lives in the transport's capture
    /// buffer and is only valid until the next call.
    fn wait_frame(&mut self, timeout: Timeout) -> (frame: Result<&[u8], CameraError>)
        ensures
            final(self).calls() == old(self).calls().push(
                BusCall::Frame(
                    timeout,
                    match frame {
                        Ok(bytes) => Some(bytes@),
                        Err(_) => None,
                    },
                ),
            ),
    ;

    /// Let time pass.
    fn delay_ms(&mut self, ms: u32)
        ensures
            final(self).calls() == old(self).calls().push(BusCall::Delay(ms)),
    ;
}

/// What a channel was used for since it had `before` behind it.
pub open spec fn since(after: Seq<BusCall>, before: Seq<BusCall>) -> Seq<BusCall> {
    after.skip(before.len() as int)
}

/// The uses of a channel only ever grow.
pub open spec fn extends(after: Seq<BusCall>, before: Seq<BusCall>) -> bool {
    before.len() <= after.len() && after.take(before.len() as int) == before
}

/// The frames of at least `min_len` bytes that came, oldest first.
pub open spec fn frames_in(calls: Seq<BusCall>, min_len: nat) -> Seq<Seq<u8>>
    decreases calls.len(),
{
    if calls.len() == 0 {
        seq![]
    } else {
        let before = frames_in(calls.drop_last(), min_len);
        match calls.last() {
            BusCall::Frame(_, Some(frame)) => if frame.len() >= min_len {
                before.push(frame)
            } else {
                before
            },
            _ => before,
        }
    }
}

/// The frames of two runs of uses are those of the first and then those of the
/// second.
pub proof fn lemma_frames_in_concat(first: Seq<BusCall>, second: Seq<BusCall>, min_len: nat)
    ensures
        frames_in(first + second, min_len) == frames_in(first, min_len) + frames_in(
            second,
            min_len,
        ),
    decreases second.len(),
{
    if second.len() == 0 {
        assert(first + second == first);
    } else {
        lemma_frames_in_concat(first, second.drop_last(), min_len);
        assert((first + second).drop_last() == first + second.drop_last());
    }
}

/// Where no frame was awaited, none came.
pub proof fn lemma_no_frames(calls: Seq<BusCall>, min_len: nat)
    requires
        forall|i: int| 0 <= i < calls.len() ==> #[trigger] calls[i] !is Frame,
    ensures
        frames_in(calls, min_len).len() == 0,
    decreases calls.len(),
{
    if calls.len() > 0 {
        lemma_no_frames(calls.drop_last(), min_len);
    }
}

/// How long time was let pass, in milliseconds.
pub open spec fn delay_in(calls: Seq<BusCall>) -> nat
    decreases calls.len(),
{
    if calls.len() == 0 {
        0
    } else {
        delay_in(calls.drop_last()) + match calls.last() {
            BusCall::Delay(ms) => ms as nat,
            _ => 0,
        }
    }
}

/// The delays of two runs of uses add up.
pub proof fn lemma_delay_in_concat(first: Seq<BusCall>, second: Seq<BusCall>)
    ensures
        delay_in(first + second) == delay_in(first) + delay_in(second),
    decreases second.len(),
{
    if second.len() == 0 {
        assert(first + second == first);
    } else {
        lemma_delay_in_concat(first, second.drop_last());
        assert((first + second).drop_last() == first + second.drop_last());
    }
}

/// Each use of a channel adds its own frame to those that came, if it is long
/// enough, and its own time to that let pass.
pub proof fn law_uses_add_up(calls: Seq<BusCall>, call: BusCall, min_len: nat)
    ensures
        frames_in(Seq::empty(), min_len).len() == 0,
        delay_in(Seq::empty()) == 0,
        frames_in(calls.push(call), min_len) == match call {
            BusCall::Frame(_, Some(frame)) => if frame.len() >= min_len {
                frames_in(calls, min_len).push(frame)
            } else {
                frames_in(calls, min_len)
            },
            _ => frames_in(calls, min_len),
        },
        delay_in(calls.push(call)) == match call {
            BusCall::Delay(ms) => delay_in(calls) + ms,
            _ => delay_in(calls) as int,
        },
{
    assert(calls.push(call).drop_last() == calls);
}

/// What was done since then is what stands behind it.
pub proof fn law_since_is_what_was_added(before: Seq<BusCall>, added: Seq<BusCall>)
    ensures
        since(before + added, before) == added,
        extends(before + added, before),
{
    assert((before + added).skip(before.len() as int) == added);
    assert((before + added).take(before.len() as int) == before);
}

/// A channel whose uses only grew has all of the earlier ones in front.
pub proof fn law_uses_are_never_undone(after: Seq<BusCall>, before: Seq<BusCall>)
    requires
        extends(after, before),
    ensures
        after == before + since(after, before),
{
    assert(after =~= before + since(after, before));
}

} // verus!
