//! The sensor drivers against a scripted transport.

use std::cell::RefCell;
use std::collections::VecDeque;
use std::rc::Rc;

use beacon::camera::interface::{CameraInterface, Timeout};
use beacon::camera::raw10::ToneCurves;
use beacon::camera::rgb::RgbCamera;
use beacon::camera::sensor::{CameraSensor, FrameTrigger};
use beacon::camera::sensors::mi48::{self, Identity, Mi48};
use beacon::camera::sensors::sc850sl::{self, Sc850sl};
use beacon::camera::thermal_camera::ThermalCamera;
use beacon::camera::{BayerOrder, CameraError, FrameFormat, PixelFormat, RgbPixel};
use beacon::pacing::Awake;

#[derive(Clone, Debug, PartialEq)]
enum Call {
    Write(u8, Vec<u8>),
    Read(u8, Vec<u8>),
    Frame(Timeout),
    Delay(u32),
}

#[derive(Default)]
struct Script {
    calls: Vec<Call>,
    /// Outcomes of the next writes; a write beyond them succeeds.
    writes: VecDeque<bool>,
    /// Replies to the next reads; a read beyond them fails.
    replies: VecDeque<Option<u8>>,
    /// The next frames; waiting beyond them fails.
    frames: VecDeque<Option<Vec<u8>>>,
}

#[derive(Clone, Default)]
struct Transport(Rc<RefCell<Script>>, Vec<u8>);

impl Transport {
    fn calls(&self) -> Vec<Call> {
        self.0.borrow().calls.clone()
    }

    fn clear(&self) {
        self.0.borrow_mut().calls.clear();
    }
}

impl CameraInterface for Transport {
    fn write(&mut self, address: u8, data: &[u8]) -> Result<(), CameraError> {
        let mut script = self.0.borrow_mut();
        script.calls.push(Call::Write(address, data.to_vec()));
        if script.writes.pop_front().unwrap_or(true) {
            Ok(())
        } else {
            Err(CameraError::Bus)
        }
    }

    fn write_read(
        &mut self,
        address: u8,
        data: &[u8],
        reply: &mut [u8],
    ) -> Result<(), CameraError> {
        let mut script = self.0.borrow_mut();
        script.calls.push(Call::Read(address, data.to_vec()));
        reply[0] = script
            .replies
            .pop_front()
            .flatten()
            .ok_or(CameraError::Bus)?;
        Ok(())
    }

    fn wait_frame(&mut self, timeout: Timeout) -> Result<&[u8], CameraError> {
        let next = {
            let mut script = self.0.borrow_mut();
            script.calls.push(Call::Frame(timeout));
            script.frames.pop_front().flatten()
        };
        self.1 = next.ok_or(CameraError::Transport)?;
        Ok(&self.1)
    }

    fn delay_ms(&mut self, ms: u32) {
        self.0.borrow_mut().calls.push(Call::Delay(ms));
    }
}

fn reg16(reg: u16, val: u8) -> Call {
    Call::Write(0x30, vec![(reg >> 8) as u8, reg as u8, val])
}

fn rgb(transport: &Transport) -> Sc850sl<Transport> {
    Sc850sl::new(transport.clone(), sc850sl::DEFAULT_I2C_ADDRESS, (4, 2))
}

#[test]
fn the_init_table_programs_the_documented_mode() {
    let table = sc850sl::INIT_TABLE;
    assert_eq!(table.len(), 191);
    assert_eq!(table[0], (0x0103, 0x01));
    assert_eq!(table[27], (0x320e, 0x08));
    assert_eq!(table[28], (0x320f, 0xca));
    assert_eq!(table[121], (0x3e01, 0x82));
    assert_eq!(table[190], (0x0100, 0x00));
    let vts = (table[27].1 as u32) * 256 + table[28].1 as u32;
    assert_eq!(vts, sc850sl::VTS);
    assert_eq!((table[121].1 as u32) << 4, sc850sl::DEFAULT_EXPOSURE);
}

#[test]
fn the_sensor_is_programmed_in_order() {
    let transport = Transport::default();
    let mut camera = rgb(&transport);
    assert_eq!(camera.init(), Ok(()));
    let calls = transport.calls();
    assert_eq!(calls.len(), 191 + 4);
    assert_eq!(calls[0], reg16(0x0103, 0x01));
    assert_eq!(calls[2], reg16(0x36e9, 0x80));
    assert_eq!(calls[3], Call::Delay(20));
    assert_eq!(calls[4], reg16(0x36f9, 0x80));
    assert_eq!(calls[5], Call::Delay(20));
    assert_eq!(calls[194], reg16(0x0100, 0x00));
}

#[test]
fn a_register_that_fails_does_not_stop_the_others() {
    let transport = Transport::default();
    let mut camera = rgb(&transport);
    assert_eq!(camera.program(), 0);
    assert_eq!(transport.calls().len(), 191 + 4);
    transport.clear();
    // The first and the third register fail three times each.
    transport.0.borrow_mut().writes =
        VecDeque::from([false, false, false, true, false, false, false]);
    assert_eq!(camera.program(), 2);
    let calls = transport.calls();
    assert_eq!(calls.len(), 191 + 4 + 2 * 4);
    assert_eq!(calls[4], reg16(0x0103, 0x01));
    assert_eq!(calls[5], reg16(0x0100, 0x00));
    assert_eq!(calls[10], reg16(0x36e9, 0x80));
    assert_eq!(calls[11], Call::Delay(20));
    assert_eq!(calls[12], reg16(0x36f9, 0x80));
}

#[test]
fn register_writes_are_retried_twice() {
    let transport = Transport::default();
    transport.0.borrow_mut().writes = VecDeque::from([false, false, true]);
    assert_eq!(rgb(&transport).write(0x1234, 5), Ok(()));
    let attempt = reg16(0x1234, 5);
    assert_eq!(
        transport.calls(),
        [
            attempt.clone(),
            Call::Delay(5),
            attempt.clone(),
            Call::Delay(5),
            attempt
        ]
    );
    transport.clear();
    transport.0.borrow_mut().writes = VecDeque::from([false, false, false]);
    assert_eq!(rgb(&transport).init(), Err(CameraError::Bus));
    assert_eq!(transport.calls().len(), 5);
}

#[test]
fn streaming_starts_and_stops() {
    let transport = Transport::default();
    let mut camera = rgb(&transport);
    camera.power_on();
    assert_eq!(
        transport.calls(),
        [
            reg16(0x302c, 0x00),
            reg16(0x0100, 0x01),
            Call::Delay(200)
        ]
    );
    transport.clear();
    camera.power_off();
    assert_eq!(transport.calls(), [reg16(0x0100, 0x00)]);
}

#[test]
fn exposure_is_clamped_and_spread_over_registers() {
    let transport = Transport::default();
    let mut camera = rgb(&transport);
    assert_eq!(camera.set_exposure(0x0821), Ok(()));
    assert_eq!(
        transport.calls(),
        [
            reg16(0x3e00, 0x00),
            reg16(0x3e01, 0x82),
            reg16(0x3e02, 0x10)
        ]
    );
    transport.clear();
    camera.set_exposure(0).expect("written");
    camera.set_exposure(70_000).expect("written");
    assert_eq!(
        transport.calls(),
        [
            reg16(0x3e00, 0x00),
            reg16(0x3e01, 0x00),
            reg16(0x3e02, 0x10),
            reg16(0x3e00, 0x00),
            reg16(0x3e01, 0x8c),
            reg16(0x3e02, 0x20)
        ]
    );
    assert_eq!(Sc850sl::<Transport>::exposure_range(), (1, 2242));
}

#[test]
fn gain_is_coarse_and_fine() {
    assert_eq!(sc850sl::gain_bucket(0), (1, 0x03));
    assert_eq!(sc850sl::gain_bucket(1), (1, 0x03));
    assert_eq!(sc850sl::gain_bucket(3), (2, 0x07));
    assert_eq!(sc850sl::gain_bucket(4), (4, 0x23));
    assert_eq!(sc850sl::gain_bucket(15), (8, 0x27));
    assert_eq!(sc850sl::gain_bucket(16), (16, 0x2f));
    assert_eq!(sc850sl::gain_bucket(48), (32, 0x3f));
    assert_eq!(sc850sl::fine_gain(0x40), 0x40);
    assert_eq!(sc850sl::fine_gain(-3), 0x40);
    assert_eq!(sc850sl::fine_gain(0x5a), 0x5a);
    assert_eq!(sc850sl::fine_gain(0x80), 0x7f);
}

#[test]
fn a_new_operating_point_settles_for_two_frames() {
    let transport = Transport::default();
    let mut camera = rgb(&transport);
    assert_eq!(camera.exposure(), 2080);
    camera.apply_exposure(100, 0x07, 0x41);
    assert_eq!(camera.exposure(), 100);
    assert_eq!(
        transport.calls(),
        [
            reg16(0x3e00, 0x00),
            reg16(0x3e01, 0x06),
            reg16(0x3e02, 0x40),
            reg16(0x3e08, 0x07),
            reg16(0x3e09, 0x41),
            Call::Frame(Timeout::Forever),
            Call::Frame(Timeout::Forever)
        ]
    );
}

fn curves() -> ToneCurves {
    let mut plain = [0; 256];
    for (level, out) in plain.iter_mut().enumerate() {
        *out = level as u8;
    }
    ToneCurves {
        red: plain,
        green: plain,
        blue: plain,
    }
}

#[test]
fn incomplete_frames_give_a_black_picture() {
    let transport = Transport::default();
    transport.0.borrow_mut().frames = VecDeque::from([None, Some(vec![9; 100])]);
    let mut camera = rgb(&transport);
    for _ in 0..2 {
        let image = camera.receive_frame(&curves(), &mut Awake::new());
        assert_eq!((image.width(), image.height()), (4, 2));
        assert_eq!(image.pixels(), [RgbPixel::new(0, 0, 0); 8]);
    }
}

#[test]
fn complete_frames_are_developed() {
    let transport = Transport::default();
    transport.0.borrow_mut().frames = VecDeque::from([Some(vec![77; 10_368_000])]);
    let image = rgb(&transport).receive_frame(&curves(), &mut Awake::new());
    assert_eq!(image.pixels(), [RgbPixel::new(77, 77, 77); 8]);
}

#[test]
fn frames_can_be_metered_or_discarded() {
    let transport = Transport::default();
    transport.0.borrow_mut().frames = VecDeque::from([Some(vec![1]), Some(vec![2]), None]);
    let mut camera = rgb(&transport);
    camera.discard_frame();
    assert_eq!(camera.next_frame(), Some([2].as_slice()));
    assert_eq!(camera.next_frame(), None);
}

#[test]
fn a_stream_is_checked_before_use() {
    let transport = Transport::default();
    transport.0.borrow_mut().frames = VecDeque::from(vec![Some(vec![0]); 3]);
    assert!(RgbCamera::try_new(rgb(&transport)).is_ok());
    let wait = Call::Frame(Timeout::Millis(5_000));
    assert_eq!(
        transport.calls()[3..],
        [wait.clone(), wait.clone(), wait.clone(), reg16(0x0100, 0x00)]
    );
    transport.clear();
    transport.0.borrow_mut().frames = VecDeque::from([Some(vec![0]), None]);
    assert!(matches!(
        RgbCamera::try_new(rgb(&transport)),
        Err(CameraError::Transport)
    ));
    transport.clear();
    transport.0.borrow_mut().writes = VecDeque::from([false, false, false]);
    assert!(matches!(
        RgbCamera::try_new(rgb(&transport)),
        Err(CameraError::Bus)
    ));
}

fn thermal(transport: &Transport) -> Mi48<Transport> {
    Mi48::new(transport.clone(), mi48::DEFAULT_I2C_ADDRESS, (320, 240), true)
}

fn reg8(reg: u8, val: u8) -> Call {
    Call::Write(0x41, vec![reg, val])
}

fn status() -> Call {
    Call::Read(0x41, vec![0xB6])
}

#[test]
fn the_thermal_camera_knows_its_setup() {
    let camera = thermal(&Transport::default());
    assert_eq!(camera.setup(), ((160, 120), (320, 240), true));
    let format = Mi48::<Transport>::format();
    assert_eq!(format.bytes_per_frame(), 38_400);
}

#[test]
fn a_frame_is_triggered_polled_and_read() {
    let transport = Transport::default();
    transport.0.borrow_mut().replies = VecDeque::from([Some(0x00), None, Some(0x10)]);
    transport.0.borrow_mut().frames = VecDeque::from([Some(vec![1, 2])]);
    assert_eq!(thermal(&transport).capture_one(), Some(vec![1, 2]));
    assert_eq!(
        transport.calls(),
        [
            reg8(0xB1, 0x21),
            status(),
            Call::Delay(5),
            status(),
            Call::Delay(5),
            status(),
            Call::Frame(Timeout::Millis(0))
        ]
    );
}

#[test]
fn a_silent_chip_times_out_and_is_left_idle() {
    let transport = Transport::default();
    assert_eq!(thermal(&transport).capture_one(), None);
    let calls = transport.calls();
    assert_eq!(calls.len(), 1 + 2 * 400 + 2);
    assert_eq!(calls.last(), Some(&reg8(0xB1, 0x00)));
    let waited: u32 = calls
        .iter()
        .map(|c| if let Call::Delay(ms) = c { *ms } else { 0 })
        .sum();
    assert_eq!(waited, 2_000);
}

#[test]
fn a_failed_readout_leaves_the_chip_idle() {
    let transport = Transport::default();
    transport.0.borrow_mut().replies = VecDeque::from([Some(0x10)]);
    transport.0.borrow_mut().frames = VecDeque::from([None]);
    assert_eq!(thermal(&transport).capture_one(), None);
    assert_eq!(
        transport.calls(),
        [
            reg8(0xB1, 0x21),
            status(),
            Call::Frame(Timeout::Millis(0)),
            reg8(0xB1, 0x00),
        ]
    );
}

#[test]
fn bring_up_checks_boots_and_configures() {
    let transport = Transport::default();
    transport.0.borrow_mut().replies = VecDeque::from([
        Some(0x20),
        Some(0x20),
        Some(0x00),
        Some(0x53),
        Some(7),
        Some(0x13),
    ]);
    assert_eq!(thermal(&transport).init(), Ok(()));
    assert_eq!(
        transport.calls(),
        [
            status(),
            reg8(0xB1, 0x00),
            status(),
            Call::Delay(10),
            status(),
            Call::Read(0x41, vec![0xB2]),
            Call::Read(0x41, vec![0xB3]),
            Call::Read(0x41, vec![0xBB]),
            reg8(0xD1, 0x80),
            reg8(0xD2, 0x00),
            reg8(0xD0, 0x03),
            reg8(0x30, 0x01),
            Call::Delay(60)
        ]
    );
}

#[test]
fn an_unresponsive_chip_does_not_fail_bring_up() {
    let transport = Transport::default();
    transport.0.borrow_mut().writes = VecDeque::from(vec![false; 5]);
    assert_eq!(thermal(&transport).init(), Ok(()));
    let delays = transport
        .calls()
        .iter()
        .filter(|c| **c == Call::Delay(10))
        .count();
    assert_eq!(delays, 300);
}

#[test]
fn identity_is_read_from_three_registers() {
    let transport = Transport::default();
    transport.0.borrow_mut().replies = VecDeque::from([Some(0x53), Some(7), Some(0x13), None]);
    let mut camera = thermal(&transport);
    assert_eq!(
        camera.read_identity(),
        Some(Identity {
            major: 5,
            minor: 3,
            build: 7,
            module: 0x13
        })
    );
    assert_eq!(camera.read_identity(), None);
}

#[test]
fn registers_report_readiness_and_errors() {
    let transport = Transport::default();
    transport.0.borrow_mut().replies = VecDeque::from([Some(0x10), Some(0xEF), None]);
    let mut camera = thermal(&transport);
    assert_eq!(camera.frame_ready(), Ok(true));
    assert_eq!(camera.frame_ready(), Ok(false));
    assert_eq!(camera.frame_ready(), Err(CameraError::Bus));
    assert_eq!(camera.start(), Ok(()));
    transport.0.borrow_mut().writes = VecDeque::from([false, true]);
    assert_eq!(camera.trigger(), Err(CameraError::Bus));
    assert_eq!(camera.stop(), Ok(()));
}

#[test]
fn eight_frames_are_averaged() {
    let transport = Transport::default();
    {
        let mut script = transport.0.borrow_mut();
        script.replies = VecDeque::from(vec![Some(0x10); 8]);
        script.frames = VecDeque::from([
            Some([0x00, 0x04].repeat(19_200)),
            None,
            Some(vec![0xFF; 10]),
            Some([0x00, 0x07].repeat(19_200)),
            None,
            None,
            None,
            None,
        ]);
    }
    let words = thermal(&transport).average_frames();
    assert_eq!(words.len(), 19_200);
    assert!(words.iter().all(|w| *w == 5));
}

#[test]
fn calibration_takes_five_shots() {
    let transport = Transport::default();
    transport.0.borrow_mut().replies = VecDeque::from(vec![Some(0x10); 5]);
    let mut camera = thermal(&transport);
    camera.power_on();
    camera.calibrate();
    let triggers = transport
        .calls()
        .iter()
        .filter(|c| **c == reg8(0xB1, 0x21))
        .count();
    assert_eq!(triggers, 5);
    transport.clear();
    camera.power_off();
    assert_eq!(transport.calls(), [reg8(0xB1, 0x00)]);
}

/// A single-shot sensor that is ready after some polls.
struct Shutter {
    pixel: PixelFormat,
    polls_left: u32,
    stopped: Rc<RefCell<u32>>,
}

impl CameraSensor for Shutter {
    type Error = ();

    fn format(&self) -> FrameFormat {
        FrameFormat {
            width: 2,
            height: 1,
            pixel: self.pixel,
        }
    }

    fn init(&mut self) -> Result<(), ()> {
        Ok(())
    }

    fn start(&mut self) -> Result<(), ()> {
        Ok(())
    }

    fn stop(&mut self) -> Result<(), ()> {
        *self.stopped.borrow_mut() += 1;
        Ok(())
    }
}

impl FrameTrigger for Shutter {
    fn trigger(&mut self) -> Result<(), ()> {
        Ok(())
    }

    fn frame_ready(&mut self) -> Result<bool, ()> {
        if self.polls_left == 0 {
            Ok(true)
        } else {
            self.polls_left -= 1;
            Err(())
        }
    }
}

fn shutter(polls_left: u32) -> Shutter {
    Shutter {
        pixel: PixelFormat::Gray16,
        polls_left,
        stopped: Rc::default(),
    }
}

#[test]
fn thermal_cameras_need_temperatures() {
    let mosaic = Shutter {
        pixel: PixelFormat::Raw8(BayerOrder::Rggb),
        ..shutter(0)
    };
    assert!(matches!(
        ThermalCamera::try_new(mosaic, Transport::default(), (1, 1), false),
        Err(CameraError::UnsupportedFormat)
    ));
    let camera = ThermalCamera::try_new(shutter(0), Transport::default(), (4, 4), true);
    assert_eq!(camera.ok().expect("grey").setup(), ((2, 1), (4, 4), true));
}

#[test]
fn any_single_shot_sensor_can_be_averaged() {
    let transport = Transport::default();
    transport.0.borrow_mut().frames = VecDeque::from(vec![Some(vec![0, 1, 0, 3]); 8]);
    let mut camera = ThermalCamera::try_new(shutter(2), transport.clone(), (1, 1), false)
        .ok()
        .expect("grey");
    assert_eq!(camera.average_frames(), [1, 3]);
    assert_eq!(
        transport.calls()[..3],
        [
            Call::Delay(5),
            Call::Delay(5),
            Call::Frame(Timeout::Millis(0))
        ]
    );
}

#[test]
fn a_failed_readout_stops_the_sensor() {
    let transport = Transport::default();
    let sensor = shutter(0);
    let stopped = sensor.stopped.clone();
    let mut camera = ThermalCamera::try_new(sensor, transport.clone(), (1, 1), false)
        .ok()
        .expect("grey");
    transport.0.borrow_mut().frames = VecDeque::from([None, Some(vec![1, 2])]);
    assert_eq!(camera.capture_one(), None);
    assert_eq!(*stopped.borrow(), 1);
    assert_eq!(camera.capture_one(), Some([1, 2].as_slice()));
    assert_eq!(*stopped.borrow(), 1);
}

#[test]
fn a_sensor_that_never_is_ready_is_stopped() {
    let transport = Transport::default();
    let sensor = shutter(1_000);
    let stopped = sensor.stopped.clone();
    let mut camera = ThermalCamera::try_new(sensor, transport.clone(), (1, 1), false)
        .ok()
        .expect("grey");
    assert_eq!(camera.capture_one(), None);
    assert_eq!(*stopped.borrow(), 1);
    assert_eq!(transport.calls().len(), 400);
    camera.power_on();
    camera.power_off();
    assert_eq!(*stopped.borrow(), 2);
}
