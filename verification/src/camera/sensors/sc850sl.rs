//! The SmartSens SC850SL 8MP Bayer camera, in its 4K / 15 fps / 2-lane / RAW10
//! mode: register control and frame development. The I2C bus and the CSI frame
//! transport live behind the
//! [`CameraInterface`](crate::camera::interface::CameraInterface) this owns.

use vstd::prelude::*;

use crate::camera::format::{BayerOrder, FrameFormat, PixelFormat};
use crate::camera::image;
use crate::camera::image::{Image, Picture, RgbPixel};
use crate::camera::interface;
use crate::camera::interface::{BusCall, CameraInterface, Timeout};
use crate::camera::raw10;
use crate::camera::raw10::{Mosaic, ToneCurves};
use crate::camera::CameraError;
use crate::pacing;
use crate::pacing::Sleeper;

verus! {

/// Frame length in lines (registers 0x320e/0x320f in the init table). Bounds
/// the exposure time.
pub const VTS: u32 = 0x08ca;

/// Bayer mosaic order of this sensor's RAW10 output.
pub const ORDER: BayerOrder = BayerOrder::Rggb;

/// Strap-default 7-bit I2C address.
pub const DEFAULT_I2C_ADDRESS: u8 = 0x30;

/// Shortest integration time the sensor accepts, in lines.
pub const MIN_EXPOSURE: u32 = 1;

/// Longest integration time the sensor accepts, in lines: the frame length
/// minus a small guard band (the limit is four lines less; a couple of extra
/// lines of margin are kept).
pub const MAX_EXPOSURE: u32 = VTS - 8;

/// Integration time in lines after the init sequence.
pub const DEFAULT_EXPOSURE: u32 = 2080;

/// The sensor's black-level pedestal in 8-bit space.
pub const BLACK_LEVEL: u8 = 16;

/// Largest usable analog gain as a linear multiplier.
pub const MAX_GAIN: u32 = 48;

/// Attempts to write a register before giving up.
pub const WRITE_ATTEMPTS: u32 = 3;

/// The pause between two attempts, in milliseconds.
pub const RETRY_MS: u32 = 5;

/// The pause after writing a register that latches the PLL, in milliseconds.
pub const PLL_SETTLE_MS: u32 = 20;

/// The pause after streaming was enabled, in milliseconds.
pub const STREAM_SETTLE_MS: u32 = 200;

/// Frames that must arrive before the stream counts as working.
pub const STREAM_CHECK_FRAMES: u32 = 3;

/// How long each of them may take, in milliseconds.
pub const STREAM_CHECK_MS: u32 = 5_000;

/// The register init sequence of the 4K / 15 fps / 2-lane / RAW10 mode.
pub const INIT_TABLE: [(u16, u8); 191] = [
    (0x0103, 0x01), (0x0100, 0x00), (0x36e9, 0x80), (0x36f9, 0x80),
    (0x36ea, 0x17), (0x36eb, 0x0c), (0x36ec, 0x4a), (0x36ed, 0x24),
    (0x36fa, 0xcb), (0x36fb, 0x13), (0x36fc, 0x00), (0x36fd, 0x07),
    (0x36e9, 0x20), (0x36f9, 0x53), (0x3018, 0x3a), (0x3019, 0xfc),
    (0x301a, 0x30), (0x301e, 0x3c), (0x301f, 0x38), (0x302a, 0x00),
    (0x3031, 0x0a), (0x3032, 0x20), (0x3033, 0x22), (0x3037, 0x00),
    (0x303e, 0xb4), (0x320c, 0x04), (0x320d, 0x4c), (0x320e, 0x08),
    (0x320f, 0xca), (0x3211, 0x0f), (0x3213, 0x07), (0x3226, 0x00),
    (0x3227, 0x03), (0x3250, 0x40), (0x3253, 0x08), (0x327e, 0x00),
    (0x3280, 0x00), (0x3281, 0x00), (0x3301, 0x3c), (0x3304, 0x30),
    (0x3306, 0xe8), (0x3308, 0x10), (0x3309, 0x70), (0x330a, 0x01),
    (0x330b, 0xe0), (0x330d, 0x10), (0x3314, 0x92), (0x331e, 0x29),
    (0x331f, 0x69), (0x3333, 0x10), (0x3347, 0x05), (0x3348, 0xd0),
    (0x3352, 0x01), (0x3356, 0x38), (0x335d, 0x60), (0x3362, 0x70),
    (0x338f, 0x80), (0x33af, 0x48), (0x33fe, 0x00), (0x3400, 0x12),
    (0x3406, 0x04), (0x3410, 0x12), (0x3416, 0x06), (0x3433, 0x01),
    (0x3440, 0x12), (0x3446, 0x08), (0x3478, 0x01), (0x3479, 0x01),
    (0x347a, 0x02), (0x347b, 0x01), (0x347c, 0x04), (0x347d, 0x01),
    (0x3616, 0x0c), (0x3620, 0x92), (0x3622, 0x74), (0x3629, 0x74),
    (0x362a, 0xf0), (0x362b, 0x0f), (0x362d, 0x00), (0x3630, 0x68),
    (0x3633, 0x22), (0x3634, 0x22), (0x3635, 0x20), (0x3637, 0x06),
    (0x3638, 0x26), (0x363b, 0x06), (0x363c, 0x07), (0x363d, 0x05),
    (0x363e, 0x8f), (0x3648, 0xe0), (0x3649, 0x0a), (0x364a, 0x06),
    (0x364c, 0x6a), (0x3650, 0x3d), (0x3654, 0x40), (0x3656, 0x68),
    (0x3657, 0x0f), (0x3658, 0x3d), (0x365c, 0x40), (0x365e, 0x68),
    (0x3901, 0x04), (0x3904, 0x20), (0x3905, 0x91), (0x391e, 0x83),
    (0x3928, 0x04), (0x3933, 0xa0), (0x3934, 0x0a), (0x3935, 0x68),
    (0x3936, 0x00), (0x3937, 0x20), (0x3938, 0x0a), (0x3946, 0x20),
    (0x3961, 0x40), (0x3962, 0x40), (0x3963, 0xc8), (0x3964, 0xc8),
    (0x3965, 0x40), (0x3966, 0x40), (0x3967, 0x00), (0x39cd, 0xc8),
    (0x39ce, 0xc8), (0x3e01, 0x82), (0x3e02, 0x00), (0x3e0e, 0x02),
    (0x3e0f, 0x00), (0x3e1c, 0x0f), (0x3e23, 0x00), (0x3e24, 0x00),
    (0x3e53, 0x00), (0x3e54, 0x00), (0x3e68, 0x00), (0x3e69, 0x80),
    (0x3e73, 0x00), (0x3e74, 0x00), (0x3e86, 0x03), (0x3e87, 0x40),
    (0x3f02, 0x24), (0x4424, 0x02), (0x4501, 0xc4), (0x4509, 0x20),
    (0x4561, 0x12), (0x4800, 0x24), (0x4837, 0x0b), (0x4900, 0x24),
    (0x4937, 0x0b), (0x5000, 0x0e), (0x500f, 0x35), (0x5020, 0x00),
    (0x5787, 0x10), (0x5788, 0x06), (0x5789, 0x00), (0x578a, 0x18),
    (0x578b, 0x0c), (0x578c, 0x00), (0x5790, 0x10), (0x5791, 0x06),
    (0x5792, 0x01), (0x5793, 0x18), (0x5794, 0x0c), (0x5795, 0x01),
    (0x5799, 0x06), (0x57a2, 0x60), (0x59e0, 0xfe), (0x59e1, 0x40),
    (0x59e2, 0x38), (0x59e3, 0x30), (0x59e4, 0x20), (0x59e5, 0x38),
    (0x59e6, 0x30), (0x59e7, 0x20), (0x59e8, 0x3f), (0x59e9, 0x38),
    (0x59ea, 0x30), (0x59eb, 0x3f), (0x59ec, 0x38), (0x59ed, 0x30),
    (0x59ee, 0xfe), (0x59ef, 0x40), (0x59f4, 0x38), (0x59f5, 0x30),
    (0x59f6, 0x20), (0x59f7, 0x38), (0x59f8, 0x30), (0x59f9, 0x20),
    (0x59fa, 0x3f), (0x59fb, 0x38), (0x59fc, 0x30), (0x59fd, 0x3f),
    (0x59fe, 0x38), (0x59ff, 0x30), (0x0100, 0x00),
];

/// The raw frame format this sensor produces on its data interface.
pub open spec fn sc850sl_format() -> FrameFormat {
    FrameFormat { width: 3840, height: 2160, pixel: PixelFormat::Raw10(ORDER) }
}

/// One register write of a sequence, and the pause after it in milliseconds;
/// zero is none.
#[derive(Clone, Copy, Debug, PartialEq, Eq, Structural)]
pub struct Step {
    /// The 16-bit register address.
    pub reg: u16,
    /// The value to write.
    pub val: u8,
    /// The pause after the write.
    pub pause: u32,
}

/// The bytes that write a register: its address, high byte first, then the
/// value.
pub open spec fn reg_bytes(reg: u16, val: u8) -> Seq<u8> {
    seq![(reg / 256) as u8, (reg % 256) as u8, val]
}

/// Writing a register: up to three attempts, each after a failed one and a
/// pause. It succeeds with its last attempt.
pub open spec fn is_reg_write(calls: Seq<BusCall>, address: u8, reg: u16, val: u8, ok: bool) -> bool {
    let attempts = (calls.len() + 1) / 2;
    &&& calls.len() % 2 == 1
    &&& attempts <= WRITE_ATTEMPTS
    &&& ok || attempts == WRITE_ATTEMPTS
    &&& forall|i: int|
        #![trigger calls[2 * i]]
        0 <= i < attempts ==> calls[2 * i] == BusCall::Write(
            address,
            reg_bytes(reg, val),
            ok && i == attempts - 1,
        )
    &&& forall|i: int|
        #![trigger calls[2 * i + 1]]
        0 <= i < attempts - 1 ==> calls[2 * i + 1] == BusCall::Delay(RETRY_MS)
}

/// A successful step: the register is written, then the pause is kept.
pub open spec fn is_step(calls: Seq<BusCall>, address: u8, step: Step) -> bool {
    if step.pause == 0 {
        is_reg_write(calls, address, step.reg, step.val, true)
    } else {
        &&& calls.len() > 0
        &&& is_reg_write(calls.drop_last(), address, step.reg, step.val, true)
        &&& calls.last() == BusCall::Delay(step.pause)
    }
}

/// The first `n` steps of a sequence, each successful.
pub open spec fn is_steps(calls: Seq<BusCall>, address: u8, steps: Seq<Step>, n: nat) -> bool
    decreases n,
{
    if n == 0 {
        calls.len() == 0
    } else {
        exists|m: int|
            #![trigger calls.take(m)]
            {
                &&& 0 <= m <= calls.len()
                &&& is_steps(calls.take(m), address, steps, (n - 1) as nat)
                &&& is_step(calls.skip(m), address, steps[n - 1])
            }
    }
}

/// A sequence of register writes: every step in order if it succeeds;
/// otherwise the steps up to the first register that could not be written, and
/// nothing after it.
pub open spec fn is_sequence(calls: Seq<BusCall>, address: u8, steps: Seq<Step>, ok: bool) -> bool {
    if ok {
        is_steps(calls, address, steps, steps.len())
    } else {
        exists|n: nat, m: int|
            #![trigger is_steps(calls.take(m), address, steps, n)]
            {
                &&& n < steps.len()
                &&& 0 <= m <= calls.len()
                &&& is_steps(calls.take(m), address, steps, n)
                &&& is_reg_write(calls.skip(m), address, steps[n as int].reg, steps[n as int].val, false)
            }
    }
}

/// A step was tried: its register was written, with success or not, and its
/// pause kept.
pub open spec fn is_tried(calls: Seq<BusCall>, address: u8, step: Step, ok: bool) -> bool {
    if step.pause > 0 {
        &&& calls.len() > 0
        &&& calls.last() == BusCall::Delay(step.pause)
        &&& is_reg_write(calls.drop_last(), address, step.reg, step.val, ok)
    } else {
        is_reg_write(calls, address, step.reg, step.val, ok)
    }
}

/// The first `n` steps of a sequence were tried in order, each whether or not
/// the ones before succeeded, and so many of them failed.
pub open spec fn is_program(
    calls: Seq<BusCall>,
    address: u8,
    steps: Seq<Step>,
    n: nat,
    failures: int,
) -> bool
    decreases n,
{
    if n == 0 {
        calls.len() == 0 && failures == 0
    } else {
        exists|m: int, ok: bool|
            #![trigger is_tried(calls.skip(m), address, steps[n - 1], ok)]
            {
                &&& 0 <= m <= calls.len()
                &&& is_program(
                    calls.take(m),
                    address,
                    steps,
                    (n - 1) as nat,
                    if ok {
                        failures
                    } else {
                        failures - 1
                    },
                )
                &&& is_tried(calls.skip(m), address, steps[n - 1], ok)
            }
    }
}

/// The registers that latch the PLL.
pub open spec fn latches_pll(reg: u16) -> bool {
    reg == 0x36e9 || reg == 0x36f9
}

/// The init sequence: the init table, with a pause after every PLL register.
pub open spec fn init_sequence() -> Seq<Step> {
    Seq::new(
        INIT_TABLE@.len(),
        |i: int|
            Step {
                reg: INIT_TABLE@[i].0,
                val: INIT_TABLE@[i].1,
                pause: if latches_pll(INIT_TABLE@[i].0) {
                    PLL_SETTLE_MS
                } else {
                    0
                },
            },
    )
}

/// The sequence that starts streaming.
pub open spec fn start_sequence() -> Seq<Step> {
    seq![
        Step { reg: 0x302c, val: 0x00, pause: 0 },
        Step { reg: 0x0100, val: 0x01, pause: STREAM_SETTLE_MS },
    ]
}

/// The sequence that stops streaming.
pub open spec fn stop_sequence() -> Seq<Step> {
    seq![Step { reg: 0x0100, val: 0x00, pause: 0 }]
}

/// An integration time within the range the sensor accepts.
pub open spec fn clamped_exposure(lines: u32) -> u32 {
    if lines < MIN_EXPOSURE {
        MIN_EXPOSURE
    } else if lines > MAX_EXPOSURE {
        MAX_EXPOSURE
    } else {
        lines
    }
}

/// The sequence that sets the integration time. The exposure field is a 20-bit
/// value spread over three registers, in units of 1/16 line.
pub open spec fn exposure_sequence(lines: u32) -> Seq<Step> {
    let l = clamped_exposure(lines);
    seq![
        Step { reg: 0x3e00, val: (l / 4096 % 16) as u8, pause: 0 },
        Step { reg: 0x3e01, val: (l / 16 % 256) as u8, pause: 0 },
        Step { reg: 0x3e02, val: (l % 16 * 16) as u8, pause: 0 },
    ]
}

/// The sequence that sets the analog gain.
pub open spec fn gain_sequence(coarse: u8, fine: u8) -> Seq<Step> {
    seq![
        Step { reg: 0x3e08, val: coarse, pause: 0 },
        Step { reg: 0x3e09, val: fine, pause: 0 },
    ]
}

/// The exposure field, read back from its registers in units of 1/16 line, is
/// the integration time, sixteen times.
pub proof fn law_exposure_field(lines: u32)
    ensures
        ({
            let regs = exposure_sequence(lines);
            let field = regs[0].val * 4096 + regs[1].val * 16 + regs[2].val / 16;
            &&& field == clamped_exposure(lines)
            &&& regs[2].val % 16 == 0
            &&& MIN_EXPOSURE <= field <= MAX_EXPOSURE
        }),
{
}

/// The gain bucket of a gain's whole part: its base gain, and the coarse gain
/// code. Coarse gain doubles per bucket.
pub open spec fn bucket_of(whole: u32) -> (u32, u8) {
    if whole >= 32 {
        (32, 0x3f)
    } else if whole >= 16 {
        (16, 0x2f)
    } else if whole >= 8 {
        (8, 0x27)
    } else if whole >= 4 {
        (4, 0x23)
    } else if whole >= 2 {
        (2, 0x07)
    } else {
        (1, 0x03)
    }
}

/// A bucket's base is the largest power of two that does not exceed the gain,
/// up to the last bucket.
pub proof fn law_bucket_holds_the_gain(whole: u32)
    requires
        1 <= whole < 64,
    ensures
        bucket_of(whole).0 <= whole < 2 * bucket_of(whole).0,
{
}

/// Choose the gain bucket for a gain with this whole part.
pub fn gain_bucket(whole: u32) -> (bucket: (u32, u8))
    ensures
        bucket == bucket_of(whole),
{
    if whole >= 32 {
        (32, 0x3f)
    } else if whole >= 16 {
        (16, 0x2f)
    } else if whole >= 8 {
        (8, 0x27)
    } else if whole >= 4 {
        (4, 0x23)
    } else if whole >= 2 {
        (2, 0x07)
    } else {
        (1, 0x03)
    }
}

/// The fine gain code: `scaled` is 64 times the gain over its bucket's base.
/// It runs from 0x40 (the base) up to 0x7f (almost twice the base).
pub fn fine_gain(scaled: i32) -> (code: u8)
    ensures
        code == if scaled < 0x40 {
            0x40
        } else if scaled > 0x7f {
            0x7f
        } else {
            scaled as int
        },
{
    if scaled < 0x40 {
        0x40
    } else if scaled > 0x7f {
        0x7f
    } else {
        scaled as u8
    }
}

/// Moving to a new operating point: the integration time and the gain are set,
/// whether or not either takes, and two frames are let pass so that they come
/// into effect.
pub open spec fn is_adjustment(
    calls: Seq<BusCall>,
    address: u8,
    lines: u32,
    coarse: u8,
    fine: u8,
) -> bool {
    let n = calls.len() - 2;
    &&& n >= 0
    &&& awaits_frame(calls[n])
    &&& awaits_frame(calls[n + 1])
    &&& exists|m: int, exposed: bool, gained: bool|
        #![trigger is_sequence(calls.take(m), address, exposure_sequence(lines), exposed),
            is_sequence(calls.subrange(m, n), address, gain_sequence(coarse, fine), gained)]
        {
            &&& 0 <= m <= n
            &&& is_sequence(calls.take(m), address, exposure_sequence(lines), exposed)
            &&& is_sequence(calls.subrange(m, n), address, gain_sequence(coarse, fine), gained)
        }
}

/// The next frame of the stream was awaited, however long it took.
pub open spec fn awaits_frame(call: BusCall) -> bool {
    call matches BusCall::Frame(Timeout::Forever, _)
}

/// One of the frames that show the stream working was awaited, and whether it
/// came.
pub open spec fn checks_frame(call: BusCall, came: bool) -> bool {
    call matches BusCall::Frame(timeout, frame) && timeout == Timeout::Millis(STREAM_CHECK_MS)
        && came == (frame is Some)
}

/// Checking the stream: it is started, three frames must arrive, and it is
/// stopped again. The check fails at the first thing that does.
pub open spec fn is_stream_check(
    calls: Seq<BusCall>,
    address: u8,
    outcome: Result<(), CameraError>,
) -> bool {
    match outcome {
        Err(CameraError::Bus) => is_sequence(calls, address, start_sequence(), false),
        Err(CameraError::Transport) => exists|m: int|
            #![trigger calls.take(m)]
            {
                &&& 0 <= m < calls.len() <= m + STREAM_CHECK_FRAMES
                &&& is_sequence(calls.take(m), address, start_sequence(), true)
                &&& forall|i: int|
                    m <= i < calls.len() ==> checks_frame(
                        #[trigger] calls[i],
                        i < calls.len() - 1,
                    )
            },
        Ok(()) => exists|m: int, stopped: bool|
            #![trigger is_sequence(calls.skip(m + STREAM_CHECK_FRAMES), address, stop_sequence(), stopped)]
            {
                &&& 0 <= m <= calls.len() - STREAM_CHECK_FRAMES
                &&& is_sequence(calls.take(m), address, start_sequence(), true)
                &&& forall|i: int|
                    m <= i < m + STREAM_CHECK_FRAMES ==> checks_frame(#[trigger] calls[i], true)
                &&& is_sequence(calls.skip(m + STREAM_CHECK_FRAMES), address, stop_sequence(), stopped)
            },
        Err(CameraError::UnsupportedFormat) => false,
    }
}

/// A complete frame came.
pub open spec fn is_complete(frame: Option<Seq<u8>>) -> bool {
    frame matches Some(bytes) && bytes.len() >= sc850sl_format().frame_len()
}

/// The picture developed from a frame; black if no complete frame came.
pub open spec fn developed_picture(
    frame: Option<Seq<u8>>,
    output: (usize, usize),
    curves: ToneCurves,
) -> Picture {
    image::drawn(
        output.0 as nat,
        output.1 as nat,
        match frame {
            Some(bytes) => if bytes.len() >= sc850sl_format().frame_len() {
                |dx: int, dy: int|
                    raw10::developed(
                        Mosaic { frame: bytes, row_len: sc850sl_format().row_len(), order: ORDER },
                        curves,
                        raw10::region(sc850sl_format(), output, dx, dy),
                    )
            } else {
                |dx: int, dy: int| RgbPixel { red: 0, green: 0, blue: 0 }
            },
            None => |dx: int, dy: int| RgbPixel { red: 0, green: 0, blue: 0 },
        },
    )
}

/// A black image.
fn blank_image(output: (usize, usize)) -> (image: Image)
    requires
        output.0 * output.1 <= usize::MAX,
    ensures
        image@ == image::drawn(
            output.0 as nat,
            output.1 as nat,
            |dx: int, dy: int| RgbPixel { red: 0, green: 0, blue: 0 },
        ),
{
    let count: usize = output.0 * output.1;
    let mut pixels: Vec<RgbPixel> = Vec::new();
    let mut i: usize = 0;
    while i < count
        invariant
            i <= count,
            pixels@.len() == i,
            forall|k: int|
                0 <= k < i ==> pixels@[k] == (RgbPixel { red: 0, green: 0, blue: 0 }),
        decreases count - i,
    {
        pixels.push(RgbPixel::new(0, 0, 0));
        i += 1;
    }
    assert(pixels@ == image::raster(
        output.0 as nat,
        output.1 as nat,
        |dx: int, dy: int| RgbPixel { red: 0, green: 0, blue: 0 },
    ));
    Image::from_pixels(output.0, output.1, pixels)
}

/// The init sequence.
fn init_steps() -> (steps: Vec<Step>)
    ensures
        steps@ == init_sequence(),
{
    let mut steps: Vec<Step> = Vec::new();
    let mut i: usize = 0;
    while i < INIT_TABLE.len()
        invariant
            i <= INIT_TABLE@.len(),
            steps@ == init_sequence().take(i as int),
        decreases INIT_TABLE@.len() - i,
    {
        let (reg, val) = INIT_TABLE[i];
        let pause: u32 = if reg == 0x36e9 || reg == 0x36f9 {
            PLL_SETTLE_MS
        } else {
            0
        };
        steps.push(Step { reg, val, pause });
        i += 1;
    }
    assert(init_sequence().take(i as int) == init_sequence());
    steps
}

/// The SC850SL, over a frame transport that also carries the I2C control bus.
pub struct Sc850sl<I> {
    interface: I,
    address: u8,
    output: (usize, usize),
    exposure: u32,
}

impl<I: CameraInterface> Sc850sl<I> {
    /// Every use made of the transport so far.
    pub closed spec fn calls(&self) -> Seq<BusCall> {
        self.interface.calls()
    }

    /// The board-strapped 7-bit I2C address.
    pub closed spec fn bus_address(&self) -> u8 {
        self.address
    }

    /// The output resolution.
    pub closed spec fn target(&self) -> (usize, usize) {
        self.output
    }

    /// The integration time in lines that was last asked for.
    pub closed spec fn lines(&self) -> u32 {
        self.exposure
    }

    /// The camera is set up as it was, and its transport was used further.
    pub open spec fn goes_on_from(&self, other: &Self) -> bool {
        &&& self.bus_address() == other.bus_address()
        &&& self.target() == other.target()
        &&& interface::extends(self.calls(), other.calls())
    }

    /// What the transport was used for since `other`.
    pub open spec fn used_since(&self, other: &Self) -> Seq<BusCall> {
        interface::since(self.calls(), other.calls())
    }

    /// The raw frame format this sensor produces on its data interface, for
    /// sizing the transport before the camera exists.
    pub fn format() -> (format: FrameFormat)
        ensures
            format == sc850sl_format(),
    {
        FrameFormat { width: 3840, height: 2160, pixel: PixelFormat::Raw10(ORDER) }
    }

    /// Wrap a frame transport (which also carries the I2C control bus) as an
    /// RGB camera. `address` is the board-strapped 7-bit I2C address.
    pub fn new(interface: I, address: u8, output: (usize, usize)) -> (camera: Self)
        ensures
            camera.calls() == interface.calls(),
            camera.bus_address() == address,
            camera.target() == output,
            camera.lines() == DEFAULT_EXPOSURE,
    {
        Sc850sl { interface, address, output, exposure: DEFAULT_EXPOSURE }
    }

    /// The integration time in lines that was last asked for.
    pub fn exposure(&self) -> (lines: u32)
        ensures
            lines == self.lines(),
    {
        self.exposure
    }

    /// Inclusive (min, max) integration time the sensor accepts, in lines.
    pub fn exposure_range() -> (range: (u32, u32))
        ensures
            range == (MIN_EXPOSURE, MAX_EXPOSURE),
    {
        (MIN_EXPOSURE, MAX_EXPOSURE)
    }

    /// Write an 8-bit value to a 16-bit register address, retrying on bus
    /// errors.
    pub fn write(&mut self, reg: u16, val: u8) -> (outcome: Result<(), CameraError>)
        ensures
            outcome matches Err(e) ==> e == CameraError::Bus,
            final(self).goes_on_from(old(self)),
            final(self).lines() == old(self).lines(),
            is_reg_write(
                final(self).used_since(old(self)),
                old(self).bus_address(),
                reg,
                val,
                outcome is Ok,
            ),
    {
        let data: [u8; 3] = [(reg / 256) as u8, (reg % 256) as u8, val];
        assert(data@ == reg_bytes(reg, val));
        let ghost before = self.calls();
        let ghost address = self.bus_address();
        let mut attempts: u32 = 1;
        let mut outcome = self.interface.write(self.address, data.as_slice());
        assert(self.calls().take(before.len() as int) == before);
        while outcome.is_err() && attempts < WRITE_ATTEMPTS
            invariant
                data@ == reg_bytes(reg, val),
                before == old(self).calls(),
                address == old(self).bus_address(),
                1 <= attempts <= WRITE_ATTEMPTS,
                outcome matches Err(e) ==> e == CameraError::Bus,
                self.lines() == old(self).lines(),
                self.goes_on_from(old(self)),
                self.used_since(old(self)).len() == 2 * attempts - 1,
                forall|i: int|
                    #![trigger self.used_since(old(self))[2 * i]]
                    0 <= i < attempts ==> self.used_since(old(self))[2 * i] == BusCall::Write(
                        address,
                        reg_bytes(reg, val),
                        outcome is Ok && i == attempts - 1,
                    ),
                forall|i: int|
                    #![trigger self.used_since(old(self))[2 * i + 1]]
                    0 <= i < attempts - 1 ==> self.used_since(old(self))[2 * i + 1]
                        == BusCall::Delay(RETRY_MS),
            decreases WRITE_ATTEMPTS - attempts,
        {
            let ghost used = self.used_since(old(self));
            self.interface.delay_ms(RETRY_MS);
            outcome = self.interface.write(self.address, data.as_slice());
            proof {
                assert(self.calls().take(before.len() as int) == before);
                let more = self.used_since(old(self));
                assert(more == used.push(BusCall::Delay(RETRY_MS)).push(self.calls().last()));
                assert forall|i: int| #![trigger more[2 * i]] 0 <= i < attempts + 1 implies more[2
                    * i] == BusCall::Write(
                    address,
                    reg_bytes(reg, val),
                    outcome is Ok && i == attempts,
                ) by {
                    if i < attempts {
                        assert(more[2 * i] == used[2 * i]);
                    }
                }
                assert forall|i: int| #![trigger more[2 * i + 1]] 0 <= i < attempts implies more[2
                    * i + 1] == BusCall::Delay(RETRY_MS) by {
                    if i < attempts - 1 {
                        assert(more[2 * i + 1] == used[2 * i + 1]);
                    }
                }
            }
            attempts += 1;
        }
        outcome
    }

    /// Write the steps of a sequence in order, up to the first that fails.
    fn run(&mut self, steps: &[Step]) -> (outcome: Result<(), CameraError>)
        ensures
            outcome matches Err(e) ==> e == CameraError::Bus,
            final(self).goes_on_from(old(self)),
            final(self).lines() == old(self).lines(),
            is_sequence(
                final(self).used_since(old(self)),
                old(self).bus_address(),
                steps@,
                outcome is Ok,
            ),
    {
        let ghost c0 = self.calls();
        let ghost address = self.bus_address();
        let mut i: usize = 0;
        proof {
            assert(c0.skip(c0.len() as int) == Seq::<BusCall>::empty());
            assert(c0.take(c0.len() as int) == c0);
        }
        while i < steps.len()
            invariant
                i <= steps@.len(),
                c0 == old(self).calls(),
                address == old(self).bus_address(),
                self.goes_on_from(old(self)),
                self.lines() == old(self).lines(),
                is_steps(self.used_since(old(self)), address, steps@, i as nat),
            decreases steps@.len() - i,
        {
            let ghost c1 = self.calls();
            let ghost used = self.used_since(old(self));
            let step = steps[i];
            let outcome = self.write(step.reg, step.val);
            let ghost c2 = self.calls();
            let ghost more = interface::since(c2, c1);
            proof {
                assert(c2 == c2.take(c1.len() as int) + more);
                assert(c2.take(c0.len() as int) == c1.take(c0.len() as int));
                assert(interface::since(c2, c0) == used + more);
                assert((used + more).take(used.len() as int) == used);
                assert((used + more).skip(used.len() as int) == more);
            }
            if let Err(e) = outcome {
                return Err(e);
            }
            if step.pause > 0 {
                self.interface.delay_ms(step.pause);
                proof {
                    let all = more.push(BusCall::Delay(step.pause));
                    assert(self.calls().take(c0.len() as int) == c0);
                    assert(all.drop_last() == more);
                    assert(self.used_since(old(self)) == used + all);
                    assert((used + all).take(used.len() as int) == used);
                    assert((used + all).skip(used.len() as int) == all);
                }
            }
            i += 1;
        }
        Ok(())
    }

    /// Write the sensor's register init sequence, out of reset and not
    /// streaming.
    pub fn init(&mut self) -> (outcome: Result<(), CameraError>)
        ensures
            outcome matches Err(e) ==> e == CameraError::Bus,
            final(self).goes_on_from(old(self)),
            final(self).lines() == old(self).lines(),
            is_sequence(
                final(self).used_since(old(self)),
                old(self).bus_address(),
                init_sequence(),
                outcome is Ok,
            ),
    {
        self.run(init_steps().as_slice())
    }

    /// Write the sensor's register init sequence as far as the sensor takes it:
    /// a register that fails does not keep the others from being written.
    /// Returns how many failed.
    pub fn program(&mut self) -> (failures: usize)
        ensures
            final(self).goes_on_from(old(self)),
            final(self).lines() == old(self).lines(),
            failures <= init_sequence().len(),
            is_program(
                final(self).used_since(old(self)),
                old(self).bus_address(),
                init_sequence(),
                init_sequence().len(),
                failures as int,
            ),
    {
        let steps = init_steps();
        let ghost c0 = self.calls();
        let ghost address = self.bus_address();
        let mut failures: usize = 0;
        let mut i: usize = 0;
        proof {
            assert(c0.skip(c0.len() as int) == Seq::<BusCall>::empty());
            assert(c0.take(c0.len() as int) == c0);
        }
        while i < steps.len()
            invariant
                i <= steps@.len(),
                failures <= i,
                c0 == old(self).calls(),
                address == old(self).bus_address(),
                self.goes_on_from(old(self)),
                self.lines() == old(self).lines(),
                is_program(
                    self.used_since(old(self)),
                    address,
                    steps@,
                    i as nat,
                    failures as int,
                ),
            decreases steps@.len() - i,
        {
            let ghost c1 = self.calls();
            let ghost used = self.used_since(old(self));
            let step = steps[i];
            let ok = self.write(step.reg, step.val).is_ok();
            let ghost more = interface::since(self.calls(), c1);
            proof {
                let c2 = self.calls();
                assert(c2 == c2.take(c1.len() as int) + more);
                assert(c2.take(c0.len() as int) == c1.take(c0.len() as int));
                assert(interface::since(c2, c0) == used + more);
            }
            let ghost mut tried = more;
            if step.pause > 0 {
                self.interface.delay_ms(step.pause);
                proof {
                    tried = more.push(BusCall::Delay(step.pause));
                    assert(self.calls().take(c0.len() as int) == c0);
                    assert(tried.drop_last() == more);
                    assert(self.used_since(old(self)) == used + tried);
                }
            }
            proof {
                let m = used.len() as int;
                assert((used + tried).take(m) == used);
                assert((used + tried).skip(m) == tried);
                let n = (i + 1) as nat;
                let all = used + tried;
                assert(is_tried(all.skip(m), address, steps@[n - 1], ok));
                assert(is_program(
                    all,
                    address,
                    steps@,
                    n,
                    if ok {
                        failures as int
                    } else {
                        failures + 1
                    },
                ));
                assert(self.used_since(old(self)) == all);
            }
            if !ok {
                failures += 1;
            }
            i += 1;
        }
        failures
    }

    /// Start streaming frames.
    pub fn start(&mut self) -> (outcome: Result<(), CameraError>)
        ensures
            outcome matches Err(e) ==> e == CameraError::Bus,
            final(self).goes_on_from(old(self)),
            final(self).lines() == old(self).lines(),
            is_sequence(
                final(self).used_since(old(self)),
                old(self).bus_address(),
                start_sequence(),
                outcome is Ok,
            ),
    {
        let steps: [Step; 2] = [
            Step { reg: 0x302c, val: 0x00, pause: 0 },
            Step { reg: 0x0100, val: 0x01, pause: STREAM_SETTLE_MS },
        ];
        assert(steps@ == start_sequence());
        self.run(steps.as_slice())
    }

    /// Stop streaming and enter a low-power idle state.
    pub fn stop(&mut self) -> (outcome: Result<(), CameraError>)
        ensures
            outcome matches Err(e) ==> e == CameraError::Bus,
            final(self).goes_on_from(old(self)),
            final(self).lines() == old(self).lines(),
            is_sequence(
                final(self).used_since(old(self)),
                old(self).bus_address(),
                stop_sequence(),
                outcome is Ok,
            ),
    {
        let steps: [Step; 1] = [Step { reg: 0x0100, val: 0x00, pause: 0 }];
        assert(steps@ == stop_sequence());
        self.run(steps.as_slice())
    }

    /// Set the linear-mode integration time in lines, clamped to the range the
    /// sensor accepts.
    pub fn set_exposure(&mut self, lines: u32) -> (outcome: Result<(), CameraError>)
        ensures
            outcome matches Err(e) ==> e == CameraError::Bus,
            final(self).goes_on_from(old(self)),
            final(self).lines() == old(self).lines(),
            is_sequence(
                final(self).used_since(old(self)),
                old(self).bus_address(),
                exposure_sequence(lines),
                outcome is Ok,
            ),
    {
        let l: u32 = if lines < MIN_EXPOSURE {
            MIN_EXPOSURE
        } else if lines > MAX_EXPOSURE {
            MAX_EXPOSURE
        } else {
            lines
        };
        let steps: [Step; 3] = [
            Step { reg: 0x3e00, val: (l / 4096 % 16) as u8, pause: 0 },
            Step { reg: 0x3e01, val: (l / 16 % 256) as u8, pause: 0 },
            Step { reg: 0x3e02, val: (l % 16 * 16) as u8, pause: 0 },
        ];
        assert(steps@ == exposure_sequence(lines));
        self.run(steps.as_slice())
    }

    /// Set the analog gain registers.
    pub fn set_gain_codes(&mut self, coarse: u8, fine: u8) -> (outcome: Result<(), CameraError>)
        ensures
            outcome matches Err(e) ==> e == CameraError::Bus,
            final(self).goes_on_from(old(self)),
            final(self).lines() == old(self).lines(),
            is_sequence(
                final(self).used_since(old(self)),
                old(self).bus_address(),
                gain_sequence(coarse, fine),
                outcome is Ok,
            ),
    {
        let steps: [Step; 2] = [
            Step { reg: 0x3e08, val: coarse, pause: 0 },
            Step { reg: 0x3e09, val: fine, pause: 0 },
        ];
        assert(steps@ == gain_sequence(coarse, fine));
        self.run(steps.as_slice())
    }

    /// Push a new operating point to the sensor, then wait for it to take
    /// effect (exposure and gain apply a frame or two later) before the next
    /// metering.
    pub fn apply_exposure(&mut self, lines: u32, coarse: u8, fine: u8)
        ensures
            final(self).goes_on_from(old(self)),
            final(self).lines() == lines,
            is_adjustment(
                final(self).used_since(old(self)),
                old(self).bus_address(),
                lines,
                coarse,
                fine,
            ),
    {
        let ghost c0 = self.calls();
        let ghost address = self.bus_address();
        self.exposure = lines;
        let exposed = self.set_exposure(lines);
        let ghost c1 = self.calls();
        let gained = self.set_gain_codes(coarse, fine);
        let ghost c2 = self.calls();
        let _ = self.interface.wait_frame(Timeout::Forever);
        let _ = self.interface.wait_frame(Timeout::Forever);
        proof {
            let c3 = self.calls();
            let used = interface::since(c3, c0);
            let m = c1.len() - c0.len();
            let n = used.len() - 2;
            assert(c1 == c1.take(c0.len() as int) + interface::since(c1, c0));
            assert(c2 == c2.take(c1.len() as int) + interface::since(c2, c1));
            assert(c3.take(c0.len() as int) == c0);
            assert(used.take(m) == interface::since(c1, c0));
            assert(used.subrange(m, n) == interface::since(c2, c1));
            assert(is_sequence(used.take(m), address, exposure_sequence(lines), exposed is Ok));
            assert(is_sequence(
                used.subrange(m, n),
                address,
                gain_sequence(coarse, fine),
                gained is Ok,
            ));
        }
    }

    /// Let a frame of the stream pass.
    pub fn discard_frame(&mut self)
        ensures
            final(self).goes_on_from(old(self)),
            final(self).lines() == old(self).lines(),
            final(self).calls().len() == old(self).calls().len() + 1,
            awaits_frame(final(self).calls().last()),
    {
        let _ = self.interface.wait_frame(Timeout::Forever);
        assert(self.calls().take(old(self).calls().len() as int) == old(self).calls());
    }

    /// The next frame of the stream, for metering.
    pub fn next_frame(&mut self) -> (frame: Option<&[u8]>)
        ensures
            final(self).bus_address() == old(self).bus_address(),
            final(self).target() == old(self).target(),
            final(self).lines() == old(self).lines(),
            final(self).calls() == old(self).calls().push(
                BusCall::Frame(
                    Timeout::Forever,
                    match frame {
                        Some(bytes) => Some(bytes@),
                        None => None,
                    },
                ),
            ),
    {
        match self.interface.wait_frame(Timeout::Forever) {
            Ok(frame) => Some(frame),
            Err(_) => None,
        }
    }

    /// Receive a single frame as a ready-to-encode image; a black one if no
    /// complete frame came. Sleeps now and then, so that developing a frame does
    /// not starve the scheduler.
    pub fn receive_frame<S: Sleeper>(&mut self, curves: &ToneCurves, sleeper: &mut S) -> (image:
        Image)
        requires
            raw10::croppable(sc850sl_format(), old(self).target()),
        ensures
            final(self).goes_on_from(old(self)),
            final(self).lines() == old(self).lines(),
            final(self).calls().len() == old(self).calls().len() + 1,
            final(self).calls().last() matches BusCall::Frame(timeout, frame) && timeout
                == Timeout::Forever && image@ == developed_picture(
                frame,
                old(self).target(),
                *curves,
            ) && final(sleeper).sleeps() == old(sleeper).sleeps() + if is_complete(frame) {
                pacing::naps(old(self).target().1 as nat)
            } else {
                seq![]
            },
    {
        let ghost slept = sleeper.sleeps();
        assert(slept + Seq::<u32>::empty() == slept);
        let format = Self::format();
        let output = self.output;
        let ghost mut bytes: Option<Seq<u8>> = None;
        let image = match self.interface.wait_frame(Timeout::Forever) {
            Ok(frame) => {
                proof {
                    bytes = Some(frame@);
                }
                if frame.len() >= format.bytes_per_frame() {
                    raw10::build_image(frame, &format, ORDER, output, curves, sleeper)
                } else {
                    blank_image(output)
                }
            },
            Err(_) => blank_image(output),
        };
        assert(self.calls().take(old(self).calls().len() as int) == old(self).calls());
        assert(self.calls().last() == BusCall::Frame(Timeout::Forever, bytes));
        image
    }

    /// Enable sensor streaming.
    pub fn power_on(&mut self)
        ensures
            final(self).goes_on_from(old(self)),
            final(self).lines() == old(self).lines(),
            exists|started: bool|
                is_sequence(
                    final(self).used_since(old(self)),
                    old(self).bus_address(),
                    start_sequence(),
                    started,
                ),
    {
        let _ = self.start();
    }

    /// Put the sensor into standby (stops streaming, saves power).
    pub fn power_off(&mut self)
        ensures
            final(self).goes_on_from(old(self)),
            final(self).lines() == old(self).lines(),
            exists|stopped: bool|
                is_sequence(
                    final(self).used_since(old(self)),
                    old(self).bus_address(),
                    stop_sequence(),
                    stopped,
                ),
    {
        let _ = self.stop();
    }

    /// Start streaming, discard a few frames to verify that they arrive, and
    /// park the sensor in standby.
    pub fn check_stream(&mut self) -> (outcome: Result<(), CameraError>)
        ensures
            final(self).goes_on_from(old(self)),
            final(self).lines() == old(self).lines(),
            is_stream_check(
                final(self).used_since(old(self)),
                old(self).bus_address(),
                outcome,
            ),
    {
        let ghost c0 = self.calls();
        let ghost address = self.bus_address();
        if self.start().is_err() {
            return Err(CameraError::Bus);
        }
        let ghost c1 = self.calls();
        let ghost m = c1.len() - c0.len();
        assert(self.used_since(old(self)).take(m) == self.used_since(old(self)));
        let mut i: u32 = 0;
        while i < STREAM_CHECK_FRAMES
            invariant
                i <= STREAM_CHECK_FRAMES,
                c0 == old(self).calls(),
                address == old(self).bus_address(),
                self.goes_on_from(old(self)),
                self.lines() == old(self).lines(),
                0 <= m,
                self.used_since(old(self)).len() == m + i,
                is_sequence(
                    self.used_since(old(self)).take(m),
                    address,
                    start_sequence(),
                    true,
                ),
                forall|k: int|
                    m <= k < m + i ==> checks_frame(
                        #[trigger] self.used_since(old(self))[k],
                        true,
                    ),
            decreases STREAM_CHECK_FRAMES - i,
        {
            let ghost used = self.used_since(old(self));
            let came = self.interface.wait_frame(Timeout::Millis(STREAM_CHECK_MS)).is_ok();
            proof {
                let more = self.used_since(old(self));
                assert(self.calls().take(c0.len() as int) == c0);
                assert(more == used.push(self.calls().last()));
                assert(more.take(m) == used.take(m));
                assert forall|k: int| m <= k < m + i implies checks_frame(
                    #[trigger] more[k],
                    true,
                ) by {
                    assert(more[k] == used[k]);
                }
            }
            if !came {
                return Err(CameraError::Transport);
            }
            i += 1;
        }
        let ghost c2 = self.calls();
        let stopped = self.stop();
        proof {
            let c3 = self.calls();
            let used = interface::since(c3, c0);
            let before = interface::since(c2, c0);
            assert(c3 == c3.take(c2.len() as int) + interface::since(c3, c2));
            assert(c3.take(c0.len() as int) == c0);
            assert(used == before + interface::since(c3, c2));
            assert(used.take(m) == before.take(m));
            assert(used.skip(m + STREAM_CHECK_FRAMES) == interface::since(c3, c2));
            assert forall|k: int| m <= k < m + STREAM_CHECK_FRAMES implies checks_frame(
                #[trigger] used[k],
                true,
            ) by {
                assert(used[k] == before[k]);
            }
            assert(is_sequence(
                used.skip(m + STREAM_CHECK_FRAMES),
                address,
                stop_sequence(),
                stopped is Ok,
            ));
        }
        Ok(())
    }
}

} // verus!
