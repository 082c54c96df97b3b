//! Camera abstraction: the application-facing [`Camera`] lifecycle, the pixel
//! pipelines that turn raw frames into images, and the sensor drivers.
//!
//! `Camera` is the outward lifecycle; `CameraInterface` is the inward platform
//! boundary the sensors depend on.

pub mod averaging;
pub mod bring_up;
pub mod csi;
pub mod downscale;
pub mod format;
pub mod i2c;
pub mod image;
pub mod interface;
pub mod metering;
pub mod raw10;
pub mod rgb;
pub mod sensor;
pub mod sensors;
pub mod settling;
pub mod spi_frame;
pub mod thermal;
pub mod thermal_camera;
pub mod watermark;

use vstd::prelude::*;

pub use format::{BayerOrder, FrameFormat, PixelFormat};
pub use image::{Image, Picture, RgbPixel};

verus! {

/// Error raised while bringing up or operating a camera.
#[derive(Clone, Copy, Debug, PartialEq, Eq, Structural)]
pub enum CameraError {
    /// Register access over the control bus failed.
    Bus,
    /// The frame transport (CSI/ISP/SPI/DMA) could not be set up.
    Transport,
    /// The sensor's [`FrameFormat`] is not supported by this pipeline or transport.
    UnsupportedFormat,
}

/// One step in the life of a [`Camera`].
pub enum CameraCall {
    /// The sensor was brought out of standby.
    PowerOn,
    /// The sensor was returned to a low-power state.
    PowerOff,
    /// Warm-up frames were captured and discarded.
    Calibrate,
    /// A frame was received.
    ReceiveFrame(Picture),
}

/// What capturing a frame from turned-off state does to a camera.
pub open spec fn capture_calls(picture: Picture) -> Seq<CameraCall> {
    seq![
        CameraCall::PowerOn,
        CameraCall::Calibrate,
        CameraCall::ReceiveFrame(picture),
        CameraCall::PowerOff,
    ]
}

/// A camera that can be powered, settled, and read as an RGB [`Image`].
///
/// Individual cameras have very different transports and pipelines, but users
/// only ever need this lifecycle: power it on, let it settle, capture, power
/// it off. Each camera keeps its own constructor for hardware bring-up (their
/// construction arguments differ); this trait covers everything after that.
pub trait Camera {
    /// Every step so far, oldest first.
    open spec fn calls(&self) -> Seq<CameraCall> {
        arbitrary()
    }

    /// Bring the sensor out of standby and prepare it to capture.
    fn power_on(&mut self)
        ensures
            final(self).calls() == old(self).calls().push(CameraCall::PowerOn),
    ;

    /// Return the sensor to a low-power idle state.
    fn power_off(&mut self)
        ensures
            final(self).calls() == old(self).calls().push(CameraCall::PowerOff),
    ;

    /// Capture and discard warm-up frames so the sensor / on-chip filters
    /// settle. Each implementation knows how many frames it needs.
    fn calibrate(&mut self)
        ensures
            final(self).calls() == old(self).calls().push(CameraCall::Calibrate),
    ;

    /// Receive a single frame as a ready-to-encode image.
    fn receive_frame(&mut self) -> (image: Image)
        ensures
            final(self).calls() == old(self).calls().push(CameraCall::ReceiveFrame(image@)),
    ;

    /// Capture a frame from turned off state and turn the camera back off.
    fn capture(&mut self) -> (image: Image)
        ensures
            final(self).calls() == old(self).calls() + capture_calls(image@),
    {
        self.power_on();
        self.calibrate();
        let image = self.receive_frame();
        self.power_off();
        assert(self.calls() == old(self).calls() + capture_calls(image@));
        image
    }
}

/// Capture one frame, or `None` if the camera is unavailable (failed to
/// initialize).
pub fn capture_image<C: Camera + ?Sized>(camera: Option<&mut C>) -> (image: Option<Image>)
    ensures
        image is Some <==> camera is Some,
        camera matches Some(cam) ==> final(cam).calls() == cam.calls() + capture_calls(
            image->0@,
        ),
{
    match camera {
        Some(cam) => Some(cam.capture()),
        None => None,
    }
}

/// A capture powers the camera on, calibrates it, takes the one picture it
/// hands out, and powers the camera off, in this order.
pub proof fn law_capture_takes_one_picture(picture: Picture)
    ensures
        capture_calls(picture).len() == 4,
        capture_calls(picture)[0] is PowerOn,
        capture_calls(picture)[1] is Calibrate,
        capture_calls(picture)[2] == CameraCall::ReceiveFrame(picture),
        capture_calls(picture)[3] is PowerOff,
{
}

} // verus!
