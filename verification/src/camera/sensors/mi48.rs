//! The MI48Dx thermal-image processor paired with a SenXor LWIR sensor
//! (MI1602: raw 160x120): register control and frame averaging.
//!
//! The raw sensor cannot be read directly; the MI48Dx performs per-pixel
//! calibration, bad-pixel correction and raw-to-temperature conversion, so the
//! host talks to the MI48Dx. Each pixel read back is a 16-bit unsigned
//! temperature in units of 0.1 K, most significant byte first on the wire
//! ([`PixelFormat::Gray16`]).
//!
//! The chip clock-stretches SCL for tens of milliseconds while busy (notably
//! during boot and between register accesses); the I2C bus behind the interface
//! must tolerate that.

use vstd::prelude::*;

use crate::camera::averaging;
use crate::camera::averaging::FrameAverage;
use crate::camera::format::{FrameFormat, PixelFormat};
use crate::camera::interface;
use crate::camera::interface::{BusCall, CameraInterface, Timeout};
use crate::camera::thermal_camera::{
    AVERAGE_FRAMES, FRAME_TIMEOUT_MS, POLL_MS, WARMUP_FRAMES,
};
use crate::camera::CameraError;

verus! {

/// Frame mode register.
pub const REG_FRAME_MODE: u8 = 0xB1;

/// Firmware version: major in the high half, minor in the low half.
pub const REG_FW_VERSION_1: u8 = 0xB2;

/// Firmware build.
pub const REG_FW_VERSION_2: u8 = 0xB3;

/// Status register.
pub const REG_STATUS: u8 = 0xB6;

/// Module type.
pub const REG_MODULE_TYPE: u8 = 0xBB;

/// Temporal filter control.
pub const REG_FILTER_TEMPORAL: u8 = 0xD0;

/// Temporal filter strength, low byte.
pub const REG_FILTER_TEMPORAL_LSB: u8 = 0xD1;

/// Temporal filter strength, high byte.
pub const REG_FILTER_TEMPORAL_MSB: u8 = 0xD2;

/// Median filter control.
pub const REG_FILTER_MEDIAN: u8 = 0x30;

/// Frame mode: capture exactly one frame, without its header row.
pub const FRAME_MODE_SINGLE_NO_HEADER: u8 = 0x21;

/// Frame mode: idle.
pub const FRAME_MODE_IDLE: u8 = 0x00;

/// Status: a frame is ready.
pub const STATUS_DATA_READY: u8 = 0x10;

/// Status: the chip is booting.
pub const STATUS_BOOTING_UP: u8 = 0x20;

/// Temporal filter on.
pub const FILTER_TEMPORAL_ON: u8 = 0x03;

/// Median filter on.
pub const FILTER_MEDIAN_ON: u8 = 0x01;

/// The most status polls while the chip boots.
pub const BOOT_POLLS: u32 = 300;

/// The pause between two status polls while the chip boots, in milliseconds.
pub const BOOT_POLL_MS: u32 = 10;

/// The pause after the filters were configured, in milliseconds.
pub const FILTER_SETTLE_MS: u32 = 60;

/// 7-bit I2C address with the ADDR pin strapped high; strapped low it is 0x40.
pub const DEFAULT_I2C_ADDRESS: u8 = 0x41;

/// The raw frame format this sensor produces on its data interface.
pub open spec fn mi48_format() -> FrameFormat {
    FrameFormat { width: 160, height: 120, pixel: PixelFormat::Gray16 }
}

/// What the chip says about itself.
#[derive(Clone, Copy, Debug, PartialEq, Eq, Structural)]
pub struct Identity {
    /// Firmware major version.
    pub major: u8,
    /// Firmware minor version.
    pub minor: u8,
    /// Firmware build.
    pub build: u8,
    /// Module type.
    pub module: u8,
}

/// Reading a register, and what it gave if the chip replied.
pub open spec fn read_call(address: u8, reg: u8, val: Option<u8>) -> BusCall {
    BusCall::WriteRead(
        address,
        seq![reg],
        match val {
            Some(v) => Some(seq![v]),
            None => None,
        },
    )
}

/// A register was written.
pub open spec fn is_write(call: BusCall, address: u8, reg: u8, val: u8) -> bool {
    call matches BusCall::Write(a, data, _) && a == address && data == seq![reg, val]
}

/// A register was read.
pub open spec fn is_read(call: BusCall, address: u8, reg: u8) -> bool {
    call matches BusCall::WriteRead(a, data, reply) && a == address && data == seq![reg] && (
    reply matches Some(r) ==> r.len() == 1)
}

/// What reading a register gave, if the chip replied.
pub open spec fn value_read(call: BusCall) -> Option<u8> {
    match call {
        BusCall::WriteRead(_, _, Some(reply)) => Some(reply[0]),
        _ => None,
    }
}

/// The status was read and none of `bits` was set.
pub open spec fn status_clear(call: BusCall, address: u8, bits: u8) -> bool {
    &&& is_read(call, address, REG_STATUS)
    &&& value_read(call) matches Some(status) && status & bits == 0
}

/// The status was read and one of `bits` was set.
pub open spec fn status_set(call: BusCall, address: u8, bits: u8) -> bool {
    &&& is_read(call, address, REG_STATUS)
    &&& value_read(call) matches Some(status) && status & bits != 0
}

/// The status was polled `polls` times in vain, with a pause after each.
pub open spec fn polled(
    calls: Seq<BusCall>,
    address: u8,
    polls: nat,
    pause: u32,
    in_vain: spec_fn(BusCall) -> bool,
) -> bool {
    &&& calls.len() == 2 * polls
    &&& forall|i: int|
        #![trigger calls[2 * i]]
        0 <= i < polls ==> is_read(calls[2 * i], address, REG_STATUS) && in_vain(calls[2 * i])
            && calls[2 * i + 1] == BusCall::Delay(pause)
}

/// Waiting for the chip to boot: leftover streaming state is cleared, then the
/// status is polled until it can be read and says that booting is over, or
/// until the polls are used up.
pub open spec fn is_boot_wait(calls: Seq<BusCall>, address: u8) -> bool {
    let polls = (calls.len() - 1) / 2;
    let booting = |call: BusCall| !status_clear(call, address, STATUS_BOOTING_UP);
    &&& calls.len() >= 1
    &&& is_write(calls[0], address, REG_FRAME_MODE, FRAME_MODE_IDLE)
    &&& polls <= BOOT_POLLS
    &&& polled(calls.subrange(1, 1 + 2 * polls), address, polls as nat, BOOT_POLL_MS, booting)
    &&& if polls == BOOT_POLLS {
        calls.len() == 1 + 2 * polls
    } else {
        calls.len() == 2 + 2 * polls && !booting(calls.last())
    }
}

/// The registers that configure the filters, with their values: temporal
/// strength 0x0080, temporal filter on, median filter on.
pub open spec fn filter_writes() -> Seq<(u8, u8)> {
    seq![
        (REG_FILTER_TEMPORAL_LSB, 0x80u8),
        (REG_FILTER_TEMPORAL_MSB, 0x00u8),
        (REG_FILTER_TEMPORAL, FILTER_TEMPORAL_ON),
        (REG_FILTER_MEDIAN, FILTER_MEDIAN_ON),
    ]
}

/// Configuring the filters: each register is written, whether or not the ones
/// before took, and the filters are given time to settle.
pub open spec fn is_filter_setup(calls: Seq<BusCall>, address: u8) -> bool {
    &&& calls.len() == 5
    &&& forall|i: int|
        0 <= i < 4 ==> is_write(
            #[trigger] calls[i],
            address,
            filter_writes()[i].0,
            filter_writes()[i].1,
        )
    &&& calls[4] == BusCall::Delay(FILTER_SETTLE_MS)
}

/// Reading the identity registers.
pub open spec fn is_identity_read(calls: Seq<BusCall>, address: u8) -> bool {
    &&& calls.len() == 3
    &&& is_read(calls[0], address, REG_FW_VERSION_1)
    &&& is_read(calls[1], address, REG_FW_VERSION_2)
    &&& is_read(calls[2], address, REG_MODULE_TYPE)
}

/// The identity that the identity registers held, if all of them were read.
pub open spec fn identity_in(calls: Seq<BusCall>) -> Option<Identity> {
    match (value_read(calls[0]), value_read(calls[1]), value_read(calls[2])) {
        (Some(version), Some(build), Some(module)) => Some(
            Identity { major: version / 16, minor: version % 16, build, module },
        ),
        _ => None,
    }
}

/// Bring-up: the link is checked, the chip given time to boot, its identity
/// read and its filters configured.
pub open spec fn is_init(calls: Seq<BusCall>, address: u8) -> bool {
    &&& calls.len() >= 9
    &&& is_read(calls[0], address, REG_STATUS)
    &&& is_boot_wait(calls.subrange(1, calls.len() - 8), address)
    &&& is_identity_read(calls.subrange(calls.len() - 8, calls.len() - 5), address)
    &&& is_filter_setup(calls.skip(calls.len() - 5), address)
}

/// The most pauses while waiting for one frame.
pub open spec fn max_pauses() -> nat {
    (FRAME_TIMEOUT_MS / POLL_MS) as nat
}

/// One single-shot capture. A frame is triggered, then the status polled until
/// it says that one is ready, with a pause after every poll in vain; the frame
/// is then read at once. When the time is up, or the frame cannot be read, the
/// chip is left idle, so that the next trigger starts clean.
pub open spec fn is_shot(calls: Seq<BusCall>, address: u8, frame: Option<Seq<u8>>) -> bool {
    let polls = (calls.len() - 3) / 2;
    let waiting = |call: BusCall| !status_set(call, address, STATUS_DATA_READY);
    let tail = calls.skip(1 + 2 * polls);
    &&& calls.len() >= 3
    &&& polls <= max_pauses()
    &&& is_write(calls[0], address, REG_FRAME_MODE, FRAME_MODE_SINGLE_NO_HEADER)
    &&& polled(calls.subrange(1, 1 + 2 * polls), address, polls as nat, POLL_MS, waiting)
    &&& {
        ||| {
            &&& frame is Some
            &&& tail.len() == 2
            &&& status_set(tail[0], address, STATUS_DATA_READY)
            &&& tail[1] == BusCall::Frame(Timeout::Millis(0), frame)
        }
        ||| {
            &&& frame is None
            &&& tail.len() == 3
            &&& status_set(tail[0], address, STATUS_DATA_READY)
            &&& tail[1] == BusCall::Frame(Timeout::Millis(0), None)
            &&& is_write(tail[2], address, REG_FRAME_MODE, FRAME_MODE_IDLE)
        }
        ||| {
            &&& frame is None
            &&& tail.len() == 2
            &&& polls == max_pauses()
            &&& is_read(tail[0], address, REG_STATUS)
            &&& waiting(tail[0])
            &&& is_write(tail[1], address, REG_FRAME_MODE, FRAME_MODE_IDLE)
        }
    }
}

/// A capture that gives no frame leaves the chip idle.
pub proof fn law_failed_shot_leaves_the_chip_idle(calls: Seq<BusCall>, address: u8)
    requires
        is_shot(calls, address, None),
    ensures
        is_write(calls.last(), address, REG_FRAME_MODE, FRAME_MODE_IDLE),
{
    let polls = (calls.len() - 3) / 2;
    assert(calls.last() == calls.skip(1 + 2 * polls).last());
}

/// `n` single-shot captures, one after the other.
pub open spec fn is_shots(calls: Seq<BusCall>, address: u8, n: nat) -> bool
    decreases n,
{
    if n == 0 {
        calls.len() == 0
    } else {
        exists|m: int, frame: Option<Seq<u8>>|
            #![trigger is_shot(calls.skip(m), address, frame)]
            {
                &&& 0 <= m <= calls.len()
                &&& is_shots(calls.take(m), address, (n - 1) as nat)
                &&& is_shot(calls.skip(m), address, frame)
            }
    }
}

proof fn lemma_polled_again(
    calls: Seq<BusCall>,
    address: u8,
    polls: nat,
    pause: u32,
    in_vain: spec_fn(BusCall) -> bool,
    call: BusCall,
)
    requires
        polled(calls, address, polls, pause, in_vain),
        is_read(call, address, REG_STATUS),
        in_vain(call),
    ensures
        polled(
            calls.push(call).push(BusCall::Delay(pause)),
            address,
            polls + 1,
            pause,
            in_vain,
        ),
{
    let more = calls.push(call).push(BusCall::Delay(pause));
    assert forall|i: int| #![trigger more[2 * i]] 0 <= i < polls + 1 implies is_read(
        more[2 * i],
        address,
        REG_STATUS,
    ) && in_vain(more[2 * i]) && more[2 * i + 1] == BusCall::Delay(pause) by {
        if i < polls {
            assert(more[2 * i] == calls[2 * i]);
            assert(more[2 * i + 1] == calls[2 * i + 1]);
        }
    }
}

proof fn lemma_polls_hold_no_frame(
    calls: Seq<BusCall>,
    address: u8,
    polls: nat,
    pause: u32,
    in_vain: spec_fn(BusCall) -> bool,
    k: int,
)
    requires
        polled(calls, address, polls, pause, in_vain),
        0 <= k < calls.len(),
    ensures
        calls[k] !is Frame,
{
    let i = k / 2;
    assert(is_read(calls[2 * i], address, REG_STATUS));
    assert(calls[2 * i + 1] == BusCall::Delay(pause));
}

proof fn lemma_shot_frames(
    calls: Seq<BusCall>,
    address: u8,
    frame: Option<Seq<u8>>,
    min_len: nat,
)
    requires
        is_shot(calls, address, frame),
    ensures
        interface::frames_in(calls, min_len) == match frame {
            Some(bytes) => if bytes.len() >= min_len {
                seq![bytes]
            } else {
                seq![]
            },
            None => seq![],
        },
{
    let polls = (calls.len() - 3) / 2;
    let waiting = |call: BusCall| !status_set(call, address, STATUS_DATA_READY);
    let tail = calls.skip(1 + 2 * polls);
    let body = calls.take(2 + 2 * polls);
    let middle = calls.subrange(1, 1 + 2 * polls);
    assert forall|k: int| 0 <= k < body.len() implies #[trigger] body[k] !is Frame by {
        if 1 <= k < 1 + 2 * polls {
            lemma_polls_hold_no_frame(middle, address, polls as nat, POLL_MS, waiting, k - 1);
            assert(middle[k - 1] == body[k]);
        } else if k > 0 {
            assert(body[k] == tail[0]);
        }
    }
    interface::lemma_no_frames(body, min_len);
    assert(calls[2 + 2 * polls] == tail[1]);
    if tail.len() == 3 {
        let readout = calls.drop_last();
        assert(calls.last() == tail[2]);
        assert(readout.last() == tail[1]);
        assert(readout.drop_last() == body);
        assert(interface::frames_in(readout, min_len) == interface::frames_in(body, min_len));
    } else {
        assert(calls.drop_last() == body);
    }
}

proof fn lemma_one_more_shot(
    calls: Seq<BusCall>,
    address: u8,
    n: nat,
    more: Seq<BusCall>,
    frame: Option<Seq<u8>>,
)
    requires
        is_shots(calls, address, n),
        is_shot(more, address, frame),
    ensures
        is_shots(calls + more, address, n + 1),
{
    let m = calls.len() as int;
    assert((calls + more).take(m) == calls);
    assert((calls + more).skip(m) == more);
    assert(is_shot((calls + more).skip(m), address, frame));
}

proof fn lemma_polled_delay(
    calls: Seq<BusCall>,
    address: u8,
    polls: nat,
    pause: u32,
    in_vain: spec_fn(BusCall) -> bool,
)
    requires
        polled(calls, address, polls, pause, in_vain),
    ensures
        interface::delay_in(calls) == polls * pause,
    decreases polls,
{
    if polls == 0 {
        assert(polls * pause == 0) by (nonlinear_arith)
            requires
                polls == 0,
        ;
    } else {
        let last = polls - 1;
        let shorter = calls.take(2 * last);
        assert forall|i: int| #![trigger shorter[2 * i]] 0 <= i < last implies is_read(
            shorter[2 * i],
            address,
            REG_STATUS,
        ) && in_vain(shorter[2 * i]) && shorter[2 * i + 1] == BusCall::Delay(pause) by {
            assert(shorter[2 * i] == calls[2 * i]);
            assert(shorter[2 * i + 1] == calls[2 * i + 1]);
        }
        lemma_polled_delay(shorter, address, last as nat, pause, in_vain);
        assert(is_read(calls[2 * last], address, REG_STATUS));
        assert(calls.last() == BusCall::Delay(pause));
        let middle = calls.drop_last();
        assert(middle.last() == calls[2 * last]);
        assert(middle.drop_last() == shorter);
        assert(interface::delay_in(middle) == interface::delay_in(shorter));
        assert(interface::delay_in(calls) == interface::delay_in(middle) + pause);
        assert(polls * pause == last * pause + pause) by (nonlinear_arith)
            requires
                last == polls - 1,
        ;
    }
}

/// A capture never waits longer than the frame timeout, frame or not.
pub proof fn law_shot_wait_is_bounded(calls: Seq<BusCall>, address: u8, frame: Option<Seq<u8>>)
    requires
        is_shot(calls, address, frame),
    ensures
        interface::delay_in(calls) <= FRAME_TIMEOUT_MS,
{
    let polls = (calls.len() - 3) / 2;
    let waiting = |call: BusCall| !status_set(call, address, STATUS_DATA_READY);
    let head = seq![calls[0]];
    let middle = calls.subrange(1, 1 + 2 * polls);
    let tail = calls.skip(1 + 2 * polls);
    lemma_polled_delay(middle, address, polls as nat, POLL_MS, waiting);
    assert(calls == head + middle + tail);
    interface::lemma_delay_in_concat(head, middle);
    interface::lemma_delay_in_concat(head + middle, tail);
    reveal_with_fuel(interface::delay_in, 4);
    assert(tail.drop_last().last() == tail[tail.len() - 2]);
    if tail.len() == 3 {
        assert(tail.drop_last().drop_last().last() == tail[0]);
        assert(tail.drop_last().drop_last().drop_last().len() == 0);
    } else {
        assert(tail.drop_last().drop_last().len() == 0);
    }
}

/// Waiting for the chip to boot takes three seconds at most.
pub proof fn law_boot_wait_is_bounded(calls: Seq<BusCall>, address: u8)
    requires
        is_boot_wait(calls, address),
    ensures
        interface::delay_in(calls) <= 3_000,
{
    let polls = (calls.len() - 1) / 2;
    let booting = |call: BusCall| !status_clear(call, address, STATUS_BOOTING_UP);
    let head = seq![calls[0]];
    let middle = calls.subrange(1, 1 + 2 * polls);
    let tail = calls.skip(1 + 2 * polls);
    lemma_polled_delay(middle, address, polls as nat, BOOT_POLL_MS, booting);
    assert(calls == head + middle + tail);
    interface::lemma_delay_in_concat(head, middle);
    interface::lemma_delay_in_concat(head + middle, tail);
    reveal_with_fuel(interface::delay_in, 3);
    if tail.len() > 0 {
        assert(tail.last() == calls.last());
        assert(tail.drop_last().len() == 0);
    }
}

/// The MI48Dx, over a frame transport that also carries the I2C control bus.
pub struct Mi48<I> {
    interface: I,
    address: u8,
    size: (usize, usize),
    output: (usize, usize),
    mirror: bool,
}

impl<I: CameraInterface> Mi48<I> {
    /// Every use made of the transport so far.
    pub closed spec fn calls(&self) -> Seq<BusCall> {
        self.interface.calls()
    }

    /// The board-strapped 7-bit I2C address.
    pub closed spec fn bus_address(&self) -> u8 {
        self.address
    }

    /// The sensor grid in pixels.
    pub closed spec fn grid(&self) -> (usize, usize) {
        self.size
    }

    /// The output resolution.
    pub closed spec fn target(&self) -> (usize, usize) {
        self.output
    }

    /// The picture is flipped left to right.
    pub closed spec fn flipped(&self) -> bool {
        self.mirror
    }

    /// The camera is set up as it was, and its transport was used further.
    pub open spec fn goes_on_from(&self, other: &Self) -> bool {
        &&& self.bus_address() == other.bus_address()
        &&& self.grid() == other.grid()
        &&& self.target() == other.target()
        &&& self.flipped() == other.flipped()
        &&& interface::extends(self.calls(), other.calls())
    }

    /// What the transport was used for since `other`.
    pub open spec fn used_since(&self, other: &Self) -> Seq<BusCall> {
        interface::since(self.calls(), other.calls())
    }

    /// The raw frame format this sensor produces on its data interface, for
    /// sizing the transport before the camera exists.
    pub fn format() -> (format: FrameFormat)
        ensures
            format == mi48_format(),
    {
        FrameFormat { width: 160, height: 120, pixel: PixelFormat::Gray16 }
    }

    /// Wrap a frame transport (which also carries the I2C control bus) as a
    /// thermal camera. `address` is the board-strapped 7-bit I2C address.
    pub fn new(interface: I, address: u8, output: (usize, usize), mirror: bool) -> (camera: Self)
        ensures
            camera.calls() == interface.calls(),
            camera.bus_address() == address,
            camera.grid() == (mi48_format().width, mi48_format().height),
            camera.target() == output,
            camera.flipped() == mirror,
    {
        let format = Self::format();
        Mi48 { interface, address, size: (format.width, format.height), output, mirror }
    }

    /// The sensor grid, the output resolution, and whether the picture is
    /// flipped left to right.
    pub fn setup(&self) -> (setup: ((usize, usize), (usize, usize), bool))
        ensures
            setup == (self.grid(), self.target(), self.flipped()),
    {
        (self.size, self.output, self.mirror)
    }

    fn write_reg(&mut self, reg: u8, val: u8) -> (outcome: Result<(), CameraError>)
        ensures
            outcome matches Err(e) ==> e == CameraError::Bus,
            final(self).goes_on_from(old(self)),
            final(self).calls() == old(self).calls().push(
                BusCall::Write(old(self).bus_address(), seq![reg, val], outcome is Ok),
            ),
    {
        let data: [u8; 2] = [reg, val];
        assert(data@ == seq![reg, val]);
        let outcome = self.interface.write(self.address, data.as_slice());
        assert(self.calls().take(old(self).calls().len() as int) == old(self).calls());
        outcome
    }

    fn read_reg(&mut self, reg: u8) -> (val: Result<u8, CameraError>)
        ensures
            val matches Err(e) ==> e == CameraError::Bus,
            final(self).goes_on_from(old(self)),
            final(self).calls() == old(self).calls().push(
                read_call(
                    old(self).bus_address(),
                    reg,
                    match val {
                        Ok(v) => Some(v),
                        Err(_) => None,
                    },
                ),
            ),
    {
        let data: [u8; 1] = [reg];
        assert(data@ == seq![reg]);
        let mut val: [u8; 1] = [0];
        let outcome = self.interface.write_read(self.address, data.as_slice(), &mut val);
        assert(val@ == seq![val@[0]]);
        assert(self.calls().take(old(self).calls().len() as int) == old(self).calls());
        match outcome {
            Ok(()) => Ok(val[0]),
            Err(e) => Err(e),
        }
    }

    /// Whether a triggered frame has finished and is ready to read out.
    pub fn frame_ready(&mut self) -> (ready: Result<bool, CameraError>)
        ensures
            ready matches Err(e) ==> e == CameraError::Bus,
            final(self).goes_on_from(old(self)),
            exists|status: Option<u8>|
                {
                    &&& final(self).calls() == old(self).calls().push(
                        #[trigger] read_call(old(self).bus_address(), REG_STATUS, status),
                    )
                    &&& ready is Ok <==> status is Some
                    &&& ready matches Ok(set) ==> set == (status->0 & STATUS_DATA_READY != 0)
                },
    {
        match self.read_reg(REG_STATUS) {
            Ok(status) => {
                assert(self.calls() == old(self).calls().push(
                    read_call(old(self).bus_address(), REG_STATUS, Some(status)),
                ));
                Ok(status & STATUS_DATA_READY != 0)
            },
            Err(e) => {
                assert(self.calls() == old(self).calls().push(
                    read_call(old(self).bus_address(), REG_STATUS, None),
                ));
                Err(e)
            },
        }
    }

    /// Trigger exactly one single-shot frame, header stripped: pure pixel data
    /// in the output frame buffer once ready.
    pub fn trigger(&mut self) -> (outcome: Result<(), CameraError>)
        ensures
            outcome matches Err(e) ==> e == CameraError::Bus,
            final(self).goes_on_from(old(self)),
            final(self).calls() == old(self).calls().push(
                BusCall::Write(
                    old(self).bus_address(),
                    seq![REG_FRAME_MODE, FRAME_MODE_SINGLE_NO_HEADER],
                    outcome is Ok,
                ),
            ),
    {
        self.write_reg(REG_FRAME_MODE, FRAME_MODE_SINGLE_NO_HEADER)
    }

    /// Single-shot chip: nothing to start, each frame is armed by a trigger.
    pub fn start(&mut self) -> (outcome: Result<(), CameraError>)
        ensures
            outcome is Ok,
            final(self).calls() == old(self).calls(),
            *final(self) == *old(self),
    {
        Ok(())
    }

    /// Leave the chip idle so the next trigger starts clean.
    pub fn stop(&mut self) -> (outcome: Result<(), CameraError>)
        ensures
            outcome matches Err(e) ==> e == CameraError::Bus,
            final(self).goes_on_from(old(self)),
            final(self).calls() == old(self).calls().push(
                BusCall::Write(
                    old(self).bus_address(),
                    seq![REG_FRAME_MODE, FRAME_MODE_IDLE],
                    outcome is Ok,
                ),
            ),
    {
        self.write_reg(REG_FRAME_MODE, FRAME_MODE_IDLE)
    }

    /// Read what the chip says about itself, or `None` if a register could not
    /// be read.
    pub fn read_identity(&mut self) -> (identity: Option<Identity>)
        ensures
            final(self).goes_on_from(old(self)),
            is_identity_read(final(self).used_since(old(self)), old(self).bus_address()),
            identity == identity_in(final(self).used_since(old(self))),
    {
        let version = self.read_reg(REG_FW_VERSION_1);
        let build = self.read_reg(REG_FW_VERSION_2);
        let module = self.read_reg(REG_MODULE_TYPE);
        assert(self.calls().take(old(self).calls().len() as int) == old(self).calls());
        match (version, build, module) {
            (Ok(version), Ok(build), Ok(module)) => Some(
                Identity { major: version / 16, minor: version % 16, build, module },
            ),
            _ => None,
        }
    }

    /// Turn on the temporal and median filters and let them settle.
    fn configure_filters(&mut self)
        ensures
            final(self).goes_on_from(old(self)),
            is_filter_setup(final(self).used_since(old(self)), old(self).bus_address()),
    {
        let _ = self.write_reg(REG_FILTER_TEMPORAL_LSB, 0x80);
        let _ = self.write_reg(REG_FILTER_TEMPORAL_MSB, 0x00);
        let _ = self.write_reg(REG_FILTER_TEMPORAL, FILTER_TEMPORAL_ON);
        let _ = self.write_reg(REG_FILTER_MEDIAN, FILTER_MEDIAN_ON);
        self.interface.delay_ms(FILTER_SETTLE_MS);
        assert(self.calls().take(old(self).calls().len() as int) == old(self).calls());
    }

    /// Block until the chip finishes booting; register writes and frame capture
    /// are only valid afterwards. Returns whether the boot was confirmed.
    fn wait_for_boot(&mut self) -> (booted: bool)
        ensures
            final(self).goes_on_from(old(self)),
            is_boot_wait(final(self).used_since(old(self)), old(self).bus_address()),
            booted == (final(self).used_since(old(self)).len() % 2 == 0),
    {
        let ghost before = self.calls();
        let ghost address = self.bus_address();
        let ghost booting = |call: BusCall| !status_clear(call, address, STATUS_BOOTING_UP);
        let _ = self.write_reg(REG_FRAME_MODE, FRAME_MODE_IDLE);
        let mut polls: u32 = 0;
        let ghost cleared = self.calls().last();
        assert(self.used_since(old(self)) == seq![cleared]);
        assert(seq![cleared].subrange(1, 1) == Seq::<BusCall>::empty());
        while polls < BOOT_POLLS
            invariant
                polls <= BOOT_POLLS,
                before == old(self).calls(),
                address == old(self).bus_address(),
                booting == |call: BusCall| !status_clear(call, address, STATUS_BOOTING_UP),
                self.goes_on_from(old(self)),
                self.used_since(old(self)).len() == 1 + 2 * polls,
                is_write(
                    self.used_since(old(self))[0],
                    address,
                    REG_FRAME_MODE,
                    FRAME_MODE_IDLE,
                ),
                polled(
                    self.used_since(old(self)).subrange(1, 1 + 2 * polls),
                    address,
                    polls as nat,
                    BOOT_POLL_MS,
                    booting,
                ),
            decreases BOOT_POLLS - polls,
        {
            let ghost used = self.used_since(old(self));
            let ghost n = 1 + 2 * polls;
            let status = self.read_reg(REG_STATUS);
            let ghost call = self.calls().last();
            assert(self.calls().take(before.len() as int) == before);
            assert(self.used_since(old(self)) == used.push(call));
            assert(used.push(call).subrange(1, n) == used.subrange(1, n));
            if let Ok(s) = status {
                if s & STATUS_BOOTING_UP == 0 {
                    assert(!booting(call));
                    return true;
                }
            }
            assert(booting(call));
            self.interface.delay_ms(BOOT_POLL_MS);
            proof {
                let delay = BusCall::Delay(BOOT_POLL_MS);
                assert(self.calls().take(before.len() as int) == before);
                assert(self.used_since(old(self)) == used.push(call).push(delay));
                assert(used.push(call).push(delay).subrange(1, n + 2) == used.subrange(1, n).push(
                    call,
                ).push(delay));
                lemma_polled_again(
                    used.subrange(1, n),
                    address,
                    polls as nat,
                    BOOT_POLL_MS,
                    booting,
                    call,
                );
            }
            polls += 1;
        }
        false
    }

    /// Bring-up diagnostics and configuration. Deliberately infallible: an
    /// unresponsive chip shows in every later capture, which then times out
    /// cleanly, rather than failing bring-up.
    pub fn init(&mut self) -> (outcome: Result<(), CameraError>)
        ensures
            outcome is Ok,
            final(self).goes_on_from(old(self)),
            is_init(final(self).used_since(old(self)), old(self).bus_address()),
    {
        let ghost c0 = self.calls();
        let _ = self.read_reg(REG_STATUS);
        let ghost c1 = self.calls();
        let _ = self.wait_for_boot();
        let ghost c2 = self.calls();
        let _ = self.read_identity();
        let ghost c3 = self.calls();
        self.configure_filters();
        proof {
            let c4 = self.calls();
            assert(c2 == c1 + interface::since(c2, c1)) by {
                assert(c2 == c2.take(c1.len() as int) + c2.skip(c1.len() as int));
            }
            assert(c3 == c2 + interface::since(c3, c2)) by {
                assert(c3 == c3.take(c2.len() as int) + c3.skip(c2.len() as int));
            }
            assert(c4 == c3 + interface::since(c4, c3)) by {
                assert(c4 == c4.take(c3.len() as int) + c4.skip(c3.len() as int));
            }
            let used = interface::since(c4, c0);
            let n = used.len();
            assert(c4.take(c0.len() as int) == c0);
            assert(used.subrange(1, n - 8) == interface::since(c2, c1));
            assert(used.subrange(n - 8, n - 5) == interface::since(c3, c2));
            assert(used.skip(n - 5) == interface::since(c4, c3));
        }
        Ok(())
    }

    /// Trigger and read exactly one single-shot frame. Returns `None` (and
    /// leaves the chip idle) on timeout or a failed readout.
    pub fn capture_one(&mut self) -> (frame: Option<Vec<u8>>)
        ensures
            final(self).goes_on_from(old(self)),
            is_shot(
                final(self).used_since(old(self)),
                old(self).bus_address(),
                match frame {
                    Some(bytes) => Some(bytes@),
                    None => None,
                },
            ),
    {
        let ghost before = self.calls();
        let ghost address = self.bus_address();
        let ghost waiting = |call: BusCall| !status_set(call, address, STATUS_DATA_READY);
        let ghost mut polls: nat = 0;
        let _ = self.trigger();
        let mut waited: u32 = 0;
        let ghost armed = self.calls().last();
        assert(self.used_since(old(self)) == seq![armed]);
        assert(seq![armed].subrange(1, 1) == Seq::<BusCall>::empty());
        loop
            invariant_except_break
                before == old(self).calls(),
                address == old(self).bus_address(),
                waiting == |call: BusCall| !status_set(call, address, STATUS_DATA_READY),
                waited == polls * POLL_MS,
                waited <= FRAME_TIMEOUT_MS,
                self.goes_on_from(old(self)),
                self.used_since(old(self)).len() == 1 + 2 * polls,
                is_write(
                    self.used_since(old(self))[0],
                    address,
                    REG_FRAME_MODE,
                    FRAME_MODE_SINGLE_NO_HEADER,
                ),
                polled(
                    self.used_since(old(self)).subrange(1, 1 + 2 * polls as int),
                    address,
                    polls,
                    POLL_MS,
                    waiting,
                ),
            ensures
                self.goes_on_from(old(self)),
                polls <= max_pauses(),
                self.used_since(old(self)).len() == 2 + 2 * polls,
                is_write(
                    self.used_since(old(self))[0],
                    address,
                    REG_FRAME_MODE,
                    FRAME_MODE_SINGLE_NO_HEADER,
                ),
                polled(
                    self.used_since(old(self)).subrange(1, 1 + 2 * polls as int),
                    address,
                    polls,
                    POLL_MS,
                    waiting,
                ),
                status_set(self.used_since(old(self)).last(), address, STATUS_DATA_READY),
            decreases FRAME_TIMEOUT_MS - waited,
        {
            let ghost used = self.used_since(old(self));
            let ghost n = 1 + 2 * polls as int;
            let ready = self.frame_ready();
            let ghost call = self.calls().last();
            assert(self.calls().take(before.len() as int) == before);
            assert(self.used_since(old(self)) == used.push(call));
            assert(used.push(call).subrange(1, n) == used.subrange(1, n));
            if let Ok(true) = ready {
                break;
            }
            assert(waiting(call));
            if waited >= FRAME_TIMEOUT_MS {
                let _ = self.stop();
                proof {
                    assert(self.calls().take(before.len() as int) == before);
                    let all = self.used_since(old(self));
                    let last = self.calls().last();
                    assert(all == used.push(call).push(last));
                    assert(all.subrange(1, n) == used.subrange(1, n));
                    assert(all.skip(n) == seq![call, last]);
                    assert((all.len() - 3) / 2 == polls);
                }
                return None;
            }
            self.interface.delay_ms(POLL_MS);
            proof {
                let delay = BusCall::Delay(POLL_MS);
                assert(self.calls().take(before.len() as int) == before);
                assert(self.used_since(old(self)) == used.push(call).push(delay));
                assert(used.push(call).push(delay).subrange(1, n + 2) == used.subrange(1, n).push(
                    call,
                ).push(delay));
                lemma_polled_again(
                    used.subrange(1, n),
                    address,
                    polls,
                    POLL_MS,
                    waiting,
                    call,
                );
                polls = polls + 1;
            }
            waited = waited + POLL_MS;
        }
        let ghost calls = self.calls();
        let ghost used = self.used_since(old(self));
        let ghost n = 1 + 2 * polls as int;
        let frame = match self.interface.wait_frame(Timeout::Millis(0)) {
            Ok(bytes) => Some(vstd::slice::slice_to_vec(bytes)),
            Err(_) => None,
        };
        let ghost readout = self.calls().last();
        proof {
            let all = self.used_since(old(self));
            assert(self.calls() == calls.push(readout));
            assert(self.calls().take(before.len() as int) == before);
            assert(all == used.push(readout));
            assert(all.subrange(1, n) == used.subrange(1, n));
            assert(all.skip(n) == seq![used.last(), readout]);
            assert((all.len() - 3) / 2 == polls);
        }
        if frame.is_none() {
            let _ = self.stop();
            proof {
                let all = self.used_since(old(self));
                let last = self.calls().last();
                assert(self.calls() == calls.push(readout).push(last));
                assert(self.calls().take(before.len() as int) == before);
                assert(all == used.push(readout).push(last));
                assert(all.subrange(1, n) == used.subrange(1, n));
                assert(all.skip(n) == seq![used.last(), readout, last]);
                assert((all.len() - 3) / 2 == polls);
            }
        }
        frame
    }

    /// Capture one frame into `average`; a frame that did not come, or came
    /// short, is left out.
    fn capture_into(&mut self, average: &mut FrameAverage)
        requires
            old(average).wf(),
            old(average)@.len() < 0xFFFF,
        ensures
            final(average).wf(),
            final(average).words() == old(average).words(),
            final(self).goes_on_from(old(self)),
            exists|frame: Option<Seq<u8>>|
                is_shot(final(self).used_since(old(self)), old(self).bus_address(), frame),
            final(average)@ == old(average)@ + interface::frames_in(
                final(self).used_since(old(self)),
                2 * old(average).words(),
            ),
    {
        let ghost min_len = 2 * average.words();
        let ghost before = average@;
        let ghost mut bytes: Option<Seq<u8>> = None;
        if let Some(frame) = self.capture_one() {
            proof {
                bytes = Some(frame@);
            }
            average.add_frame(frame.as_slice());
        }
        proof {
            let used = self.used_since(old(self));
            assert(is_shot(used, old(self).bus_address(), bytes));
            lemma_shot_frames(used, old(self).bus_address(), bytes, min_len);
            assert(average@ == before + interface::frames_in(used, min_len));
        }
    }

    /// Capture `n` frames into a fresh average.
    fn capture_many(&mut self, n: u32, words: usize) -> (average: FrameAverage)
        requires
            n <= 0xFFFF,
        ensures
            average.wf(),
            average.words() == words,
            final(self).goes_on_from(old(self)),
            is_shots(final(self).used_since(old(self)), old(self).bus_address(), n as nat),
            average@ == interface::frames_in(
                final(self).used_since(old(self)),
                2 * words as nat,
            ),
    {
        let ghost c0 = self.calls();
        let mut average = FrameAverage::new(words);
        let mut i: u32 = 0;
        proof {
            assert(c0.skip(c0.len() as int) == Seq::<BusCall>::empty());
            assert(c0.take(c0.len() as int) == c0);
        }
        while i < n
            invariant
                i <= n,
                n <= 0xFFFF,
                c0 == old(self).calls(),
                average.wf(),
                average.words() == words,
                average@.len() <= i,
                self.goes_on_from(old(self)),
                is_shots(self.used_since(old(self)), old(self).bus_address(), i as nat),
                average@ == interface::frames_in(self.used_since(old(self)), 2 * words as nat),
            decreases n - i,
        {
            let ghost c1 = self.calls();
            let ghost address = self.bus_address();
            let ghost used = self.used_since(old(self));
            self.capture_into(&mut average);
            proof {
                let c2 = self.calls();
                let more = interface::since(c2, c1);
                let frame = choose|frame: Option<Seq<u8>>| is_shot(more, address, frame);
                lemma_one_more_shot(used, address, i as nat, more, frame);
                lemma_shot_frames(more, address, frame, 2 * words as nat);
                interface::lemma_frames_in_concat(used, more, 2 * words as nat);
                assert(c2 == c2.take(c1.len() as int) + more);
                assert(c2.take(c0.len() as int) == c1.take(c0.len() as int));
                assert(interface::since(c2, c0) == used + more);
            }
            i += 1;
        }
        average
    }

    /// Prepare to capture: nothing to power on, each frame is triggered.
    pub fn power_on(&mut self)
        ensures
            *final(self) == *old(self),
    {
        let _ = self.start();
    }

    /// Leave the chip idle.
    pub fn power_off(&mut self)
        ensures
            final(self).goes_on_from(old(self)),
            final(self).used_since(old(self)).len() == 1,
            is_write(
                final(self).used_since(old(self))[0],
                old(self).bus_address(),
                REG_FRAME_MODE,
                FRAME_MODE_IDLE,
            ),
    {
        let _ = self.stop();
    }

    /// Capture and discard warm-up frames so on-chip temporal/median filters,
    /// which keep state across captures, converge before the frames we keep.
    pub fn calibrate(&mut self)
        ensures
            final(self).goes_on_from(old(self)),
            is_shots(
                final(self).used_since(old(self)),
                old(self).bus_address(),
                WARMUP_FRAMES as nat,
            ),
    {
        let _ = self.capture_many(WARMUP_FRAMES, 0);
    }

    /// Average [`AVERAGE_FRAMES`] frames per pixel, leaving out those that did
    /// not come or came short. Random sensor noise is uncorrelated between
    /// frames, so the mean converges to the true temperature while the noise
    /// shrinks. Call [`calibrate`](Self::calibrate) first so the on-chip
    /// filters have settled.
    pub fn average_frames(&mut self) -> (words: Vec<u16>)
        requires
            old(self).grid().0 * old(self).grid().1 <= usize::MAX,
        ensures
            final(self).goes_on_from(old(self)),
            is_shots(
                final(self).used_since(old(self)),
                old(self).bus_address(),
                AVERAGE_FRAMES as nat,
            ),
            ({
                let count = (old(self).grid().0 * old(self).grid().1) as nat;
                words@ == averaging::averaged(
                    interface::frames_in(final(self).used_since(old(self)), 2 * count),
                    count,
                )
            }),
    {
        let count: usize = self.size.0 * self.size.1;
        let average = self.capture_many(AVERAGE_FRAMES, count);
        average.finish()
    }
}

} // verus!
