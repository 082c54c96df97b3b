//! The SSTV downlink and the idle loop against stand-ins for the hardware.

use std::cell::RefCell;
use std::collections::VecDeque;
use std::rc::Rc;

use beacon::audio::{AudioChannel, AudioError};
use beacon::camera::{capture_image, Camera, Image, RgbPixel};
use beacon::error::{Error, ReportIfErr, Result};
use beacon::idle::{next_task, serve_sstv, Task};
use beacon::link::{Command, CommandLink, Message};
use beacon::pacing::{Awake, Sleeper};
use beacon::timeline::Timeline;
use beacon::transmit_sstv::{
    capture_images, play, transmit_image, transmit_images, transmit_sstv,
};

/// A Robot36-sized frame.
fn fake_robot36_frame() -> Image {
    let (w, h) = (320, 240);
    Image::from_pixels(w, h, vec![RgbPixel::new(0, 128, 255); w * h])
}

/// The calls a camera received, readable after the camera was handed off.
#[derive(Clone)]
struct CallLog(Rc<RefCell<Vec<&'static str>>>);

impl CallLog {
    fn new() -> Self {
        Self(Rc::new(RefCell::new(Vec::new())))
    }

    fn append_call(&self, call: &'static str) {
        self.0.borrow_mut().push(call);
    }

    fn calls(&self) -> Vec<&'static str> {
        self.0.borrow().clone()
    }
}

fn working_camera() -> Option<Box<dyn Camera>> {
    Some(FakeCamera::boxed().0)
}

fn missing_camera() -> Option<Box<dyn Camera>> {
    None
}

/// A camera that records its lifecycle calls and yields a fixed frame.
struct FakeCamera {
    log: CallLog,
}

impl FakeCamera {
    fn boxed() -> (Box<dyn Camera>, CallLog) {
        let log = CallLog::new();
        (Box::new(Self { log: log.clone() }), log)
    }
}

impl Camera for FakeCamera {
    fn power_on(&mut self) {
        self.log.append_call("power_on");
    }
    fn power_off(&mut self) {
        self.log.append_call("power_off");
    }
    fn calibrate(&mut self) {
        self.log.append_call("calibrate");
    }
    fn receive_frame(&mut self) -> Image {
        self.log.append_call("receive_frame");
        fake_robot36_frame()
    }
}

/// A camera whose frame has a single pixel.
struct TinyCamera;

impl Camera for TinyCamera {
    fn power_on(&mut self) {}
    fn power_off(&mut self) {}
    fn calibrate(&mut self) {}
    fn receive_frame(&mut self) -> Image {
        Image::from_pixels(1, 1, vec![RgbPixel::new(1, 2, 3)])
    }
}

/// Counts samples and flushes, and can be told to fail.
struct FakeAudio {
    samples: usize,
    flushes: usize,
    fail_after: Option<usize>,
    fail_flush: bool,
    heard: Vec<i16>,
}

impl FakeAudio {
    fn completed_transmissions(&self) -> usize {
        self.flushes
    }

    fn new() -> Self {
        Self {
            samples: 0,
            flushes: 0,
            fail_after: None,
            fail_flush: false,
            heard: Vec::new(),
        }
    }

    fn failing_after(n: usize) -> Self {
        Self {
            fail_after: Some(n),
            ..Self::new()
        }
    }
}

impl AudioChannel for FakeAudio {
    fn sample_rate(&self) -> u32 {
        8000
    }

    fn transmit(&mut self, sample: i16) -> core::result::Result<(), AudioError> {
        if self.fail_after.is_some_and(|n| self.samples >= n) {
            return Err(AudioError::Transmission);
        }
        self.samples += 1;
        self.heard.push(sample);
        Ok(())
    }

    fn flush(&mut self) -> core::result::Result<(), AudioError> {
        if self.fail_flush {
            return Err(AudioError::Transmission);
        }
        self.flushes += 1;
        Ok(())
    }
}

/// A timeline on which no time passes.
fn awake() -> Timeline<Awake> {
    Timeline::new(Awake::new())
}

/// Remembers how long it was asked to sleep.
struct FakeTask(Vec<u32>);

impl Sleeper for FakeTask {
    fn sleep_ms(&mut self, millis: u32) {
        self.0.push(millis);
    }
}

/// One log of everything that happens to the hardware, in order.
#[derive(Clone)]
struct Journal(Rc<RefCell<Vec<String>>>);

impl Journal {
    fn new() -> Self {
        Self(Rc::new(RefCell::new(Vec::new())))
    }

    /// Note an event; repeated ones are noted once.
    fn note(&self, event: &str) {
        let mut events = self.0.borrow_mut();
        if events.last().map(String::as_str) != Some(event) {
            events.push(event.to_owned());
        }
    }

    fn events(&self) -> Vec<String> {
        self.0.borrow().clone()
    }
}

struct JournalCamera(Journal);

impl Camera for JournalCamera {
    fn power_on(&mut self) {
        self.0.note("power_on");
    }
    fn power_off(&mut self) {
        self.0.note("power_off");
    }
    fn calibrate(&mut self) {}
    fn receive_frame(&mut self) -> Image {
        self.0.note("receive_frame");
        fake_robot36_frame()
    }
}

struct JournalAudio(Journal);

impl AudioChannel for JournalAudio {
    fn sample_rate(&self) -> u32 {
        8000
    }

    fn transmit(&mut self, _: i16) -> core::result::Result<(), AudioError> {
        self.0.note("transmit");
        Ok(())
    }

    fn flush(&mut self) -> core::result::Result<(), AudioError> {
        self.0.note("flush");
        Ok(())
    }
}

struct JournalTask(Journal);

impl Sleeper for JournalTask {
    fn sleep_ms(&mut self, millis: u32) {
        self.0.note(&format!("sleep {}", millis));
    }
}

struct JournalLink(Journal);

impl CommandLink for JournalLink {
    fn send(&mut self, message: Message) {
        self.0.note(match message {
            Message::Available => "AVAILABLE",
            Message::Busy => "BUSY",
            Message::Booted(_) => "BOOTED",
            Message::Error(_) => "ERROR",
        });
    }

    fn receive(&mut self) -> Result<Option<Command>> {
        Ok(None)
    }
}

/// A link with a script of receive results that keeps what was sent.
struct FakeLink {
    inbound: VecDeque<Result<Option<Command>>>,
    sent: Vec<&'static str>,
}

impl FakeLink {
    fn new(inbound: Vec<Result<Option<Command>>>) -> Self {
        Self {
            inbound: inbound.into(),
            sent: Vec::new(),
        }
    }
}

impl CommandLink for FakeLink {
    fn send(&mut self, message: Message) {
        self.sent.push(match message {
            Message::Available => "AVAILABLE",
            Message::Busy => "BUSY",
            Message::Booted(_) => "BOOTED",
            Message::Error(_) => "ERROR",
        });
    }

    fn receive(&mut self) -> Result<Option<Command>> {
        self.inbound.pop_front().unwrap_or(Ok(None))
    }
}

#[test]
fn single_camera_captures_then_encodes_and_flushes_once() {
    let (camera, log) = FakeCamera::boxed();
    let mut audio = FakeAudio::new();

    transmit_sstv(&mut vec![Some(camera)], &mut audio, &mut awake()).expect("transmission");

    assert_eq!(
        log.calls(),
        ["power_on", "calibrate", "receive_frame", "power_off"]
    );
    assert_eq!(audio.completed_transmissions(), 1);
    assert!(audio.samples > 0);
}

#[test]
fn empty_slots_are_skipped() {
    let mut cameras = vec![missing_camera(), working_camera(), missing_camera()];
    let mut audio = FakeAudio::new();

    transmit_sstv(&mut cameras, &mut audio, &mut awake()).expect("transmission");

    assert_eq!(
        audio.completed_transmissions(),
        1,
        "only the working camera transmits"
    );
}

#[test]
fn every_present_camera_transmits() {
    let mut cameras = vec![working_camera(), working_camera()];
    let mut audio = FakeAudio::new();

    transmit_sstv(&mut cameras, &mut audio, &mut awake()).expect("transmission");

    assert_eq!(
        audio.completed_transmissions(),
        2,
        "one image per working camera"
    );
}

#[test]
fn no_cameras_transmit_nothing() {
    let mut audio = FakeAudio::new();

    transmit_sstv(&mut [], &mut audio, &mut awake()).expect("no-op");

    assert_eq!(audio.samples, 0);
    assert_eq!(audio.completed_transmissions(), 0);
}

#[test]
fn audio_error_propagates_and_skips_flush() {
    let mut cameras = vec![working_camera()];
    let mut audio = FakeAudio::failing_after(100);

    let result = transmit_sstv(&mut cameras, &mut audio, &mut awake());

    assert!(result.is_err());
    assert_eq!(
        audio.completed_transmissions(),
        0,
        "a failed transmit must not complete"
    );
}

#[test]
fn audio_error_keeps_its_meaning() {
    let mut audio = FakeAudio::failing_after(100);
    assert_eq!(
        transmit_sstv(&mut [working_camera()], &mut audio, &mut awake()),
        Err(Error::AudioTransmission)
    );
    assert_eq!(audio.samples, 100);
}

#[test]
fn failed_flush_is_an_error() {
    let mut audio = FakeAudio::new();
    audio.fail_flush = true;
    assert_eq!(
        transmit_image(fake_robot36_frame(), &mut audio, &mut awake()),
        Err(Error::AudioTransmission)
    );
    assert!(audio.samples > 0);
}

#[test]
fn first_failure_ends_the_downlink() {
    let mut cameras: Vec<Option<Box<dyn Camera>>> =
        vec![working_camera(), Some(Box::new(TinyCamera)), working_camera()];
    let mut audio = FakeAudio::new();
    assert_eq!(
        transmit_sstv(&mut cameras, &mut audio, &mut awake()),
        Err(Error::EmptyImage)
    );
    assert_eq!(audio.completed_transmissions(), 1);
}

#[test]
fn robot36_needs_the_first_two_lines() {
    let mut audio = FakeAudio::new();
    let short = Image::from_pixels(639, 1, vec![RgbPixel::new(9, 9, 9); 639]);
    assert_eq!(transmit_image(short, &mut audio, &mut awake()), Err(Error::EmptyImage));
    assert_eq!(audio.samples, 0);
    let enough = Image::from_pixels(640, 1, vec![RgbPixel::new(9, 9, 9); 640]);
    assert_eq!(transmit_image(enough, &mut audio, &mut awake()), Ok(()));
    assert!(audio.samples > 0);
}

#[test]
fn robot36_transmission_matches_the_outside_synthesizer() {
    let mut audio = FakeAudio::new();
    transmit_image(fake_robot36_frame(), &mut audio, &mut awake()).expect("transmission");

    let pixels = vec![sstv::RgbPixel::new(0, 128, 255); 320 * 240];
    let encoder =
        sstv::Encoder::new(sstv::modes::ROBOT_36, pixels.into_iter()).expect("full frame");
    let expected: Vec<i16> = sstv::Synthesizer::new(encoder, 8000).collect();
    assert_eq!(audio.heard, expected);
}

#[test]
fn robot36_transmission_takes_its_time() {
    let mut audio = FakeAudio::new();
    transmit_image(fake_robot36_frame(), &mut audio, &mut awake()).expect("transmission");
    let seconds = audio.samples / 8000;
    assert!((36..=38).contains(&seconds), "{} s", seconds);
}

#[test]
fn playing_keeps_order_and_flushes_once() {
    let mut audio = FakeAudio::new();
    play(&vec![3, -1, 7], &mut audio, &mut awake()).expect("played");
    assert_eq!(audio.heard, [3, -1, 7]);
    assert_eq!(audio.flushes, 1);
}

#[test]
fn pauses_lie_between_transmissions_only() {
    let mut cameras = vec![working_camera(), missing_camera(), working_camera()];
    let mut audio = FakeAudio::new();
    let mut timeline = Timeline::new(FakeTask(Vec::new()));
    transmit_sstv(&mut cameras, &mut audio, &mut timeline).expect("transmission");
    assert_eq!(timeline.sleeper().0, [5_000]);
    assert_eq!(audio.completed_transmissions(), 2);

    let mut timeline = Timeline::new(FakeTask(Vec::new()));
    transmit_sstv(&mut [working_camera()], &mut audio, &mut timeline).expect("transmission");
    transmit_sstv(&mut [], &mut audio, &mut timeline).expect("no-op");
    assert!(timeline.sleeper().0.is_empty());
}

#[test]
fn a_picture_that_fails_was_paused_for() {
    let tiny = || Image::from_pixels(1, 1, vec![RgbPixel::new(1, 0, 0)]);
    for (images, pauses) in [
        (vec![tiny(), tiny()], 0),
        (vec![fake_robot36_frame(), tiny(), fake_robot36_frame()], 1),
        (vec![fake_robot36_frame(), fake_robot36_frame(), tiny()], 2),
    ] {
        let mut audio = FakeAudio::new();
        let mut timeline = Timeline::new(FakeTask(Vec::new()));
        assert_eq!(
            transmit_images(images, &mut audio, &mut timeline),
            Err(Error::EmptyImage)
        );
        assert_eq!(timeline.sleeper().0, vec![5_000; pauses]);
        assert_eq!(audio.completed_transmissions(), pauses);
    }
}

#[test]
fn every_camera_is_captured_before_the_first_transmission() {
    let journal = Journal::new();
    let camera = || -> Option<Box<dyn Camera>> { Some(Box::new(JournalCamera(journal.clone()))) };
    let mut cameras = vec![camera(), None, camera()];
    serve_sstv(
        &mut JournalLink(journal.clone()),
        &mut cameras,
        &mut JournalAudio(journal.clone()),
        &mut Timeline::new(JournalTask(journal.clone())),
    )
    .expect("transmission");
    assert_eq!(
        journal.events(),
        [
            "BUSY",
            "power_on",
            "receive_frame",
            "power_off",
            "power_on",
            "receive_frame",
            "power_off",
            "transmit",
            "flush",
            "sleep 5000",
            "transmit",
            "flush",
            "AVAILABLE",
        ]
    );
}

#[test]
fn capturing_drops_empty_slots() {
    let mut cameras: Vec<Option<Box<dyn Camera>>> = vec![None, Some(Box::new(TinyCamera)), None];
    let images = capture_images(&mut cameras, &mut awake());
    assert_eq!(images.len(), 1);
    assert_eq!(images[0].pixels(), [RgbPixel::new(1, 2, 3)]);
}

#[test]
fn capturing_one_camera_runs_its_lifecycle() {
    let log = CallLog::new();
    let mut camera = FakeCamera { log: log.clone() };
    assert!(capture_image(Some(&mut camera)).is_some());
    assert_eq!(
        log.calls(),
        ["power_on", "calibrate", "receive_frame", "power_off"]
    );
    assert!(capture_image(None::<&mut FakeCamera>).is_none());
}

#[test]
fn commands_become_tasks() {
    let mut link = FakeLink::new(vec![
        Ok(Some(Command::Sstv)),
        Ok(Some(Command::UpdateAnnounced(200))),
        Ok(Some(Command::UpdateEnd)),
        Ok(None),
        Err(Error::UartReceive),
    ]);
    assert_eq!(next_task(&mut link), Task::Transmit);
    assert_eq!(next_task(&mut link), Task::Update(200));
    assert_eq!(next_task(&mut link), Task::Nothing);
    assert_eq!(next_task(&mut link), Task::Nothing);
    assert!(link.sent.is_empty());
    assert_eq!(next_task(&mut link), Task::Nothing);
    assert_eq!(link.sent, ["ERROR"]);
}

#[test]
fn image_requests_are_bracketed_by_status() {
    let mut link = FakeLink::new(vec![]);
    let mut audio = FakeAudio::new();
    let result = serve_sstv(&mut link, &mut [working_camera()], &mut audio, &mut awake());
    assert_eq!(result, Ok(()));
    assert_eq!(link.sent, ["BUSY", "AVAILABLE"]);
    assert_eq!(audio.completed_transmissions(), 1);
}

#[test]
fn failed_image_requests_are_reported_in_between() {
    let mut link = FakeLink::new(vec![]);
    let mut audio = FakeAudio::failing_after(3);
    let result = serve_sstv(&mut link, &mut [working_camera()], &mut audio, &mut awake());
    assert_eq!(result, Err(Error::AudioTransmission));
    assert_eq!(link.sent, ["BUSY", "ERROR", "AVAILABLE"]);
}

#[test]
fn only_errors_are_reported() {
    let mut link = FakeLink::new(vec![]);
    assert_eq!(Ok(5).report_if_err(&mut link), Ok(5));
    assert!(link.sent.is_empty());
    let failed: Result<u8> = Err(Error::CspInit);
    assert_eq!(failed.report_if_err(&mut link), Err(Error::CspInit));
    assert_eq!(link.sent, ["ERROR"]);
}
