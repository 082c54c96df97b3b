//! A thermal camera: any single-shot [`FrameTrigger`] sensor emitting
//! [`Gray16`](PixelFormat::Gray16) temperature frames, paired with any
//! [`CameraInterface`].

use vstd::prelude::*;

use super::averaging;
use super::averaging::FrameAverage;
use super::format::PixelFormat;
use super::interface;
use super::interface::{BusCall, CameraInterface, Timeout};
use super::sensor::{FrameTrigger, SensorCall};
use super::CameraError;

verus! {

/// Frames to capture and average after warm-up.
pub const AVERAGE_FRAMES: u32 = 8;

/// Frames to capture and discard on activation so the on-chip temporal/median
/// filters converge before the kept capture.
pub const WARMUP_FRAMES: u32 = 5;

/// Per-frame timeout waiting for the sensor to report frame-ready, in
/// milliseconds. Real frames arrive in tens of milliseconds.
pub const FRAME_TIMEOUT_MS: u32 = 2_000;

/// The pause between two questions whether a frame is ready, in milliseconds.
pub const POLL_MS: u32 = 5;

/// The most pauses while waiting for one frame.
pub open spec fn max_pauses() -> nat {
    (FRAME_TIMEOUT_MS / POLL_MS) as nat
}

/// The sensor was triggered and then answered `polls` times that no frame was
/// ready.
pub open spec fn kept_waiting(control: Seq<SensorCall>, polls: nat) -> bool {
    &&& control.len() > polls
    &&& control[0] is Trigger
    &&& forall|i: int|
        1 <= i <= polls ==> #[trigger] control[i] is Ready && control[i] != SensorCall::Ready(
            Some(true),
        )
}

/// The transport was only used to let time pass, `pauses` times.
pub open spec fn paused(transport: Seq<BusCall>, pauses: nat) -> bool {
    &&& transport.len() >= pauses
    &&& forall|i: int| 0 <= i < pauses ==> transport[i] == BusCall::Delay(POLL_MS)
}

/// One single-shot capture. The sensor is triggered, then asked until a frame
/// is ready, with a pause after every no; the frame is then read at once. When
/// the time is up, or the frame cannot be read, the sensor is stopped, so that
/// the next trigger starts clean.
pub open spec fn is_shot(
    control: Seq<SensorCall>,
    transport: Seq<BusCall>,
    frame: Option<Seq<u8>>,
) -> bool {
    ||| {
        let polls = (transport.len() - 1) as nat;
        &&& transport.len() >= 1
        &&& polls <= max_pauses()
        &&& paused(transport, polls)
        &&& transport.last() == BusCall::Frame(Timeout::Millis(0), frame)
        &&& kept_waiting(control, polls)
        &&& control.len() == polls + if frame is Some {
            2nat
        } else {
            3nat
        }
        &&& control[polls as int + 1] == SensorCall::Ready(Some(true))
        &&& frame is None ==> control.last() is Stop
    }
    ||| {
        &&& frame is None
        &&& control.len() == max_pauses() + 3
        &&& kept_waiting(control, max_pauses() + 1)
        &&& control.last() is Stop
        &&& transport.len() == max_pauses()
        &&& paused(transport, max_pauses())
    }
}

/// A capture that gives no frame leaves the sensor stopped.
pub proof fn law_failed_shot_stops_the_sensor(control: Seq<SensorCall>, transport: Seq<BusCall>)
    requires
        is_shot(control, transport, None),
    ensures
        control.len() > 0,
        control.last() is Stop,
{
}

/// `n` single-shot captures, one after the other.
pub open spec fn is_shots(control: Seq<SensorCall>, transport: Seq<BusCall>, n: nat) -> bool
    decreases n,
{
    if n == 0 {
        control.len() == 0 && transport.len() == 0
    } else {
        exists|a: int, b: int, frame: Option<Seq<u8>>|
            #![trigger is_shot(control.skip(a), transport.skip(b), frame)]
            {
                &&& 0 <= a <= control.len()
                &&& 0 <= b <= transport.len()
                &&& is_shots(control.take(a), transport.take(b), (n - 1) as nat)
                &&& is_shot(control.skip(a), transport.skip(b), frame)
            }
    }
}

proof fn lemma_one_more_shot(
    control: Seq<SensorCall>,
    transport: Seq<BusCall>,
    n: nat,
    more_control: Seq<SensorCall>,
    more_transport: Seq<BusCall>,
    frame: Option<Seq<u8>>,
)
    requires
        is_shots(control, transport, n),
        is_shot(more_control, more_transport, frame),
    ensures
        is_shots(control + more_control, transport + more_transport, n + 1),
{
    let (a, b) = (control.len() as int, transport.len() as int);
    assert((control + more_control).take(a) == control);
    assert((control + more_control).skip(a) == more_control);
    assert((transport + more_transport).take(b) == transport);
    assert((transport + more_transport).skip(b) == more_transport);
    assert(is_shot(
        (control + more_control).skip(a),
        (transport + more_transport).skip(b),
        frame,
    ));
}

proof fn lemma_shot_frames(
    control: Seq<SensorCall>,
    transport: Seq<BusCall>,
    frame: Option<Seq<u8>>,
    min_len: nat,
)
    requires
        is_shot(control, transport, frame),
    ensures
        interface::frames_in(transport, min_len) == match frame {
            Some(bytes) => if bytes.len() >= min_len {
                seq![bytes]
            } else {
                seq![]
            },
            None => seq![],
        },
{
    if transport.len() > 0 && transport.last() is Frame {
        let pauses = transport.drop_last();
        assert forall|i: int| 0 <= i < pauses.len() implies #[trigger] pauses[i] !is Frame by {
            assert(transport[i] == BusCall::Delay(POLL_MS));
        }
        interface::lemma_no_frames(pauses, min_len);
    } else {
        assert forall|i: int| 0 <= i < transport.len() implies #[trigger] transport[i]
            !is Frame by {
            assert(transport[i] == BusCall::Delay(POLL_MS));
        }
        interface::lemma_no_frames(transport, min_len);
    }
}

proof fn lemma_paused_delay(transport: Seq<BusCall>, pauses: nat)
    requires
        paused(transport, pauses),
        transport.len() == pauses,
    ensures
        interface::delay_in(transport) == POLL_MS * pauses,
    decreases pauses,
{
    if pauses > 0 {
        let before = transport.drop_last();
        assert(transport[pauses - 1] == BusCall::Delay(POLL_MS));
        assert(paused(before, (pauses - 1) as nat));
        lemma_paused_delay(before, (pauses - 1) as nat);
    }
}

/// A capture never waits longer than the frame timeout, frame or not.
pub proof fn law_shot_wait_is_bounded(
    control: Seq<SensorCall>,
    transport: Seq<BusCall>,
    frame: Option<Seq<u8>>,
)
    requires
        is_shot(control, transport, frame),
    ensures
        interface::delay_in(transport) <= FRAME_TIMEOUT_MS,
{
    if transport.len() > 0 && transport.last() is Frame {
        let pauses = transport.drop_last();
        assert(paused(pauses, pauses.len()));
        lemma_paused_delay(pauses, pauses.len());
    } else {
        lemma_paused_delay(transport, transport.len());
    }
}

/// A thermal camera.
pub struct ThermalCamera<S, I> {
    sensor: S,
    interface: I,
    size: (usize, usize),
    output: (usize, usize),
    mirror: bool,
}

impl<S: FrameTrigger, I: CameraInterface> ThermalCamera<S, I> {
    /// The sensor's side of the camera.
    pub closed spec fn control(&self) -> Seq<SensorCall> {
        self.sensor.control()
    }

    /// The transport's side of the camera.
    pub closed spec fn transport(&self) -> Seq<BusCall> {
        self.interface.calls()
    }

    /// The sensor grid in pixels.
    pub closed spec fn grid(&self) -> (usize, usize) {
        self.size
    }

    /// The output resolution.
    pub closed spec fn target(&self) -> (usize, usize) {
        self.output
    }

    /// The picture is flipped left to right.
    pub closed spec fn flipped(&self) -> bool {
        self.mirror
    }

    /// The camera is set up as it was.
    pub open spec fn same_setup(&self, other: &Self) -> bool {
        &&& self.grid() == other.grid()
        &&& self.target() == other.target()
        &&& self.flipped() == other.flipped()
    }

    /// Compose an initialized sensor with its frame transport. Only 16-bit
    /// grayscale temperature frames can be read.
    ///
    /// The sensor must already have had its init sequence run (board bring-up
    /// owns bus settling and diagnostics around it).
    pub fn try_new(
        sensor: S,
        interface: I,
        output: (usize, usize),
        mirror: bool,
    ) -> (camera: Result<Self, CameraError>)
        ensures
            camera is Ok <==> sensor.emits().pixel is Gray16,
            camera matches Err(e) ==> e == CameraError::UnsupportedFormat,
            camera matches Ok(c) ==> {
                &&& c.control() == sensor.control()
                &&& c.transport() == interface.calls()
                &&& c.grid() == (sensor.emits().width, sensor.emits().height)
                &&& c.target() == output
                &&& c.flipped() == mirror
            },
    {
        let format = sensor.format();
        if format.pixel != PixelFormat::Gray16 {
            return Err(CameraError::UnsupportedFormat);
        }
        Ok(
            ThermalCamera {
                sensor,
                interface,
                size: (format.width, format.height),
                output,
                mirror,
            },
        )
    }

    /// The sensor grid, the output resolution, and whether the picture is
    /// flipped left to right.
    pub fn setup(&self) -> (setup: ((usize, usize), (usize, usize), bool))
        ensures
            setup == (self.grid(), self.target(), self.flipped()),
    {
        (self.size, self.output, self.mirror)
    }

    /// Trigger and read exactly one single-shot frame. Returns `None` (and
    /// leaves the chip idle) on timeout or a failed readout.
    pub fn capture_one(&mut self) -> (frame: Option<&[u8]>)
        ensures
            final(self).same_setup(old(self)),
            old(self).control().len() <= final(self).control().len(),
            final(self).control().take(old(self).control().len() as int) == old(self).control(),
            interface::extends(final(self).transport(), old(self).transport()),
            is_shot(
                final(self).control().skip(old(self).control().len() as int),
                interface::since(final(self).transport(), old(self).transport()),
                match frame {
                    Some(bytes) => Some(bytes@),
                    None => None,
                },
            ),
    {
        let ghost c0 = self.sensor.control();
        let ghost t0 = self.interface.calls();
        let ghost mut polls: nat = 0;
        let _ = self.sensor.trigger();
        let mut waited: u32 = 0;
        let mut ready = false;
        let mut timed_out = false;
        while !ready && !timed_out
            invariant
                self.same_setup(old(self)),
                c0 == old(self).control(),
                t0 == old(self).transport(),
                waited == polls * POLL_MS,
                waited <= FRAME_TIMEOUT_MS,
                !(ready && timed_out),
                timed_out ==> waited == FRAME_TIMEOUT_MS,
                self.sensor.control().take(c0.len() as int) == c0,
                self.interface.calls().take(t0.len() as int) == t0,
                self.interface.calls().len() == t0.len() + polls,
                self.sensor.control().len() == c0.len() + 1 + polls + if ready || timed_out {
                    1nat
                } else {
                    0nat
                },
                paused(self.interface.calls().skip(t0.len() as int), polls),
                kept_waiting(
                    self.sensor.control().skip(c0.len() as int),
                    polls + if timed_out {
                        1nat
                    } else {
                        0nat
                    },
                ),
                ready ==> self.sensor.control().last() == SensorCall::Ready(Some(true)),
            decreases
                    FRAME_TIMEOUT_MS - waited + if ready || timed_out {
                        0int
                    } else {
                        1int
                    },
        {
            let ghost before = self.sensor.control();
            let ghost uses = self.interface.calls();
            let answer = self.sensor.frame_ready();
            proof {
                let after = self.sensor.control();
                assert(after.take(c0.len() as int) == before.take(c0.len() as int));
                assert forall|i: int| 0 <= i < before.len() - c0.len() implies after.skip(
                    c0.len() as int,
                )[i] == before.skip(c0.len() as int)[i] by {}
            }
            if let Ok(true) = answer {
                ready = true;
            } else if waited >= FRAME_TIMEOUT_MS {
                timed_out = true;
            } else {
                self.interface.delay_ms(POLL_MS);
                proof {
                    let after = self.interface.calls();
                    assert(after.take(t0.len() as int) == uses.take(t0.len() as int));
                    assert forall|i: int| 0 <= i < polls implies after.skip(t0.len() as int)[i]
                        == uses.skip(t0.len() as int)[i] by {}
                    polls = polls + 1;
                }
                waited = waited + POLL_MS;
            }
        }
        let ghost asked = self.sensor.control();
        let ghost uses = self.interface.calls();
        if timed_out {
            let _ = self.sensor.stop();
            proof {
                let control = self.sensor.control();
                assert(control.take(c0.len() as int) == asked.take(c0.len() as int));
                assert forall|i: int| 0 <= i < asked.len() - c0.len() implies control.skip(
                    c0.len() as int,
                )[i] == asked.skip(c0.len() as int)[i] by {}
            }
            return None;
        }
        proof {
            assert forall|last: BusCall| #![trigger uses.push(last)] {
                let after = uses.push(last);
                &&& after.take(t0.len() as int) == t0
                &&& after.skip(t0.len() as int) == uses.skip(t0.len() as int).push(last)
            } by {
                assert(uses.push(last).take(t0.len() as int) == uses.take(t0.len() as int));
                assert(uses.push(last).skip(t0.len() as int) == uses.skip(t0.len() as int).push(
                    last,
                ));
            }
        }
        match self.interface.wait_frame(Timeout::Millis(0)) {
            Ok(frame) => Some(frame),
            Err(_) => {
                let _ = self.sensor.stop();
                proof {
                    let control = self.sensor.control();
                    assert(control.take(c0.len() as int) == asked.take(c0.len() as int));
                    assert forall|i: int| 0 <= i < asked.len() - c0.len() implies control.skip(
                        c0.len() as int,
                    )[i] == asked.skip(c0.len() as int)[i] by {}
                }
                None
            },
        }
    }

    /// Capture one frame into `average`; a frame that did not come, or came
    /// short, is left out.
    fn capture_into(&mut self, average: &mut FrameAverage)
        requires
            old(average).wf(),
            old(average)@.len() < 0xFFFF,
        ensures
            final(average).wf(),
            final(average).words() == old(average).words(),
            final(self).same_setup(old(self)),
            old(self).control().len() <= final(self).control().len(),
            final(self).control().take(old(self).control().len() as int) == old(self).control(),
            interface::extends(final(self).transport(), old(self).transport()),
            exists|frame: Option<Seq<u8>>|
                is_shot(
                    final(self).control().skip(old(self).control().len() as int),
                    interface::since(final(self).transport(), old(self).transport()),
                    frame,
                ),
            final(average)@ == old(average)@ + interface::frames_in(
                interface::since(final(self).transport(), old(self).transport()),
                2 * old(average).words(),
            ),
    {
        let ghost min_len = 2 * average.words();
        let ghost before = average@;
        let ghost mut bytes: Option<Seq<u8>> = None;
        if let Some(frame) = self.capture_one() {
            proof {
                bytes = Some(frame@);
            }
            average.add_frame(frame);
        }
        proof {
            let control = self.control().skip(old(self).control().len() as int);
            let transport = interface::since(self.transport(), old(self).transport());
            assert(is_shot(control, transport, bytes));
            lemma_shot_frames(control, transport, bytes, min_len);
            assert(average@ == before + interface::frames_in(transport, min_len));
        }
    }

    /// Let the sensor produce frames. Single-shot sensors are triggered per
    /// frame, so a failure only shows in the captures.
    pub fn power_on(&mut self)
        ensures
            final(self).same_setup(old(self)),
            final(self).transport() == old(self).transport(),
            final(self).control().len() == old(self).control().len() + 1,
            final(self).control().drop_last() == old(self).control(),
            final(self).control().last() is Start,
    {
        let _ = self.sensor.start();
        assert(self.control().drop_last() == old(self).control());
    }

    /// Leave the sensor idle.
    pub fn power_off(&mut self)
        ensures
            final(self).same_setup(old(self)),
            final(self).transport() == old(self).transport(),
            final(self).control().len() == old(self).control().len() + 1,
            final(self).control().drop_last() == old(self).control(),
            final(self).control().last() is Stop,
    {
        let _ = self.sensor.stop();
        assert(self.control().drop_last() == old(self).control());
    }

    /// Capture `n` frames into a fresh average.
    fn capture_many(&mut self, n: u32, words: usize) -> (average: FrameAverage)
        requires
            n <= 0xFFFF,
        ensures
            average.wf(),
            average.words() == words,
            final(self).same_setup(old(self)),
            old(self).control().len() <= final(self).control().len(),
            final(self).control().take(old(self).control().len() as int) == old(self).control(),
            interface::extends(final(self).transport(), old(self).transport()),
            is_shots(
                final(self).control().skip(old(self).control().len() as int),
                interface::since(final(self).transport(), old(self).transport()),
                n as nat,
            ),
            average@ == interface::frames_in(
                interface::since(final(self).transport(), old(self).transport()),
                2 * words as nat,
            ),
    {
        let ghost (c0, t0) = (self.control(), self.transport());
        let mut average = FrameAverage::new(words);
        let mut i: u32 = 0;
        proof {
            assert(c0.skip(c0.len() as int) == Seq::<SensorCall>::empty());
            assert(t0.skip(t0.len() as int) == Seq::<BusCall>::empty());
            assert(c0.take(c0.len() as int) == c0);
            assert(t0.take(t0.len() as int) == t0);
        }
        while i < n
            invariant
                i <= n,
                n <= 0xFFFF,
                c0 == old(self).control(),
                t0 == old(self).transport(),
                average.wf(),
                average.words() == words,
                average@.len() <= i,
                self.same_setup(old(self)),
                c0.len() <= self.control().len(),
                self.control().take(c0.len() as int) == c0,
                interface::extends(self.transport(), t0),
                is_shots(
                    self.control().skip(c0.len() as int),
                    interface::since(self.transport(), t0),
                    i as nat,
                ),
                average@ == interface::frames_in(
                    interface::since(self.transport(), t0),
                    2 * words as nat,
                ),
            decreases n - i,
        {
            let ghost (c1, t1) = (self.control(), self.transport());
            let ghost frames = average@;
            self.capture_into(&mut average);
            proof {
                let (c2, t2) = (self.control(), self.transport());
                let (control, transport) = (
                    c2.skip(c1.len() as int),
                    interface::since(t2, t1),
                );
                let frame = choose|frame: Option<Seq<u8>>| is_shot(control, transport, frame);
                lemma_one_more_shot(
                    c1.skip(c0.len() as int),
                    interface::since(t1, t0),
                    i as nat,
                    control,
                    transport,
                    frame,
                );
                lemma_shot_frames(control, transport, frame, 2 * words as nat);
                interface::lemma_frames_in_concat(
                    interface::since(t1, t0),
                    transport,
                    2 * words as nat,
                );
                assert(c2 == c2.take(c1.len() as int) + c2.skip(c1.len() as int));
                assert(t2 == t2.take(t1.len() as int) + t2.skip(t1.len() as int));
                assert(c2.take(c0.len() as int) == c1.take(c0.len() as int));
                assert(t2.take(t0.len() as int) == t1.take(t0.len() as int));
                assert(c2.skip(c0.len() as int) == c1.skip(c0.len() as int) + control);
                assert(interface::since(t2, t0) == interface::since(t1, t0) + transport);
            }
            i += 1;
        }
        average
    }

    /// Capture and discard warm-up frames so on-chip temporal/median filters,
    /// which keep state across captures, converge before the frames we keep.
    pub fn calibrate(&mut self)
        ensures
            final(self).same_setup(old(self)),
            old(self).control().len() <= final(self).control().len(),
            final(self).control().take(old(self).control().len() as int) == old(self).control(),
            interface::extends(final(self).transport(), old(self).transport()),
            is_shots(
                final(self).control().skip(old(self).control().len() as int),
                interface::since(final(self).transport(), old(self).transport()),
                WARMUP_FRAMES as nat,
            ),
    {
        let _ = self.capture_many(WARMUP_FRAMES, 0);
    }

    /// Average [`AVERAGE_FRAMES`] frames per pixel, leaving out those that did
    /// not come or came short. Random sensor noise is uncorrelated between
    /// frames, so the mean converges to the true temperature while the noise
    /// shrinks. Call [`calibrate`](Self::calibrate) first so the on-chip
    /// filters have settled.
    pub fn average_frames(&mut self) -> (words: Vec<u16>)
        requires
            old(self).grid().0 * old(self).grid().1 <= usize::MAX,
        ensures
            final(self).same_setup(old(self)),
            old(self).control().len() <= final(self).control().len(),
            final(self).control().take(old(self).control().len() as int) == old(self).control(),
            interface::extends(final(self).transport(), old(self).transport()),
            is_shots(
                final(self).control().skip(old(self).control().len() as int),
                interface::since(final(self).transport(), old(self).transport()),
                AVERAGE_FRAMES as nat,
            ),
            ({
                let count = (old(self).grid().0 * old(self).grid().1) as nat;
                words@ == averaging::averaged(
                    interface::frames_in(
                        interface::since(final(self).transport(), old(self).transport()),
                        2 * count,
                    ),
                    count,
                )
            }),
    {
        let count: usize = self.size.0 * self.size.1;
        let average = self.capture_many(AVERAGE_FRAMES, count);
        average.finish()
    }
}

/// A shot triggers one frame and asks the sensor at most 401 times whether it is
/// ready, with five milliseconds behind every time that it is not. Only a sensor
/// that is ready is read; a shot without a frame stops the sensor.
pub proof fn law_shot_waits_for_its_frame(
    control: Seq<SensorCall>,
    transport: Seq<BusCall>,
    frame: Option<Seq<u8>>,
) -> (polls: int)
    requires
        is_shot(control, transport, frame),
    ensures
        0 <= polls <= 400,
        control.len() > polls + 1,
        control[0] is Trigger,
        forall|i: int|
            1 <= i <= polls ==> #[trigger] control[i] is Ready && control[i] != SensorCall::Ready(
                Some(true),
            ),
        control[polls + 1] is Ready,
        forall|i: int| 0 <= i < polls ==> #[trigger] transport[i] == BusCall::Delay(5),
        control[polls + 1] == SensorCall::Ready(Some(true)) ==> {
            &&& transport.len() == polls + 1
            &&& transport[polls] == BusCall::Frame(Timeout::Millis(0), frame)
        },
        control[polls + 1] != SensorCall::Ready(Some(true)) ==> {
            &&& frame is None
            &&& polls == 400
            &&& transport.len() == polls
        },
        frame is Some ==> control.len() == polls + 2,
        frame is None ==> control.len() == polls + 3 && control[polls + 2] is Stop,
{
    if transport.len() >= 1 && transport.last() is Frame {
        transport.len() - 1
    } else {
        transport.len() as int
    }
}

/// How often a frame was triggered.
pub open spec fn triggers(control: Seq<SensorCall>) -> nat
    decreases control.len(),
{
    if control.len() == 0 {
        0
    } else {
        triggers(control.drop_last()) + if control.last() is Trigger {
            1nat
        } else {
            0
        }
    }
}

proof fn lemma_triggers_concat(a: Seq<SensorCall>, b: Seq<SensorCall>)
    ensures
        triggers(a + b) == triggers(a) + triggers(b),
    decreases b.len(),
{
    if b.len() == 0 {
        assert(a + b =~= a);
    } else {
        lemma_triggers_concat(a, b.drop_last());
        assert((a + b).drop_last() =~= a + b.drop_last());
        assert((a + b).last() == b.last());
    }
}

proof fn lemma_no_triggers(control: Seq<SensorCall>)
    requires
        forall|i: int| 0 <= i < control.len() ==> !(#[trigger] control[i] is Trigger),
    ensures
        triggers(control) == 0,
    decreases control.len(),
{
    if control.len() > 0 {
        assert(control.last() == control[control.len() - 1]);
        lemma_no_triggers(control.drop_last());
    }
}

/// Every shot triggers one frame, so a row of shots triggers as many.
pub proof fn law_every_shot_triggers_once(
    control: Seq<SensorCall>,
    transport: Seq<BusCall>,
    n: nat,
)
    requires
        is_shots(control, transport, n),
    ensures
        triggers(control) == n,
    decreases n,
{
    if n > 0 {
        let (a, b, frame) = choose|a: int, b: int, frame: Option<Seq<u8>>|
            #![trigger is_shot(control.skip(a), transport.skip(b), frame)]
            {
                &&& 0 <= a <= control.len()
                &&& 0 <= b <= transport.len()
                &&& is_shots(control.take(a), transport.take(b), (n - 1) as nat)
                &&& is_shot(control.skip(a), transport.skip(b), frame)
            };
        let shot = control.skip(a);
        law_every_shot_triggers_once(control.take(a), transport.take(b), (n - 1) as nat);
        let polls = law_shot_waits_for_its_frame(shot, transport.skip(b), frame);
        let (first, rest) = (shot.take(1), shot.skip(1));
        assert forall|i: int| 0 <= i < rest.len() implies !(#[trigger] rest[i] is Trigger) by {
            assert(rest[i] == shot[i + 1]);
        }
        lemma_no_triggers(rest);
        assert(shot =~= first + rest);
        lemma_triggers_concat(first, rest);
        reveal_with_fuel(triggers, 2);
        assert(first.last() == shot[0]);
        assert(control =~= control.take(a) + shot);
        lemma_triggers_concat(control.take(a), shot);
    }
}

/// Eight frames are averaged, five warm the sensor up.
pub proof fn law_frame_counts()
    ensures
        AVERAGE_FRAMES == 8,
        WARMUP_FRAMES == 5,
{
}

} // verus!
