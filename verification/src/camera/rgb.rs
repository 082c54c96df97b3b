//! The RGB camera: an SC850SL whose stream was seen working.

use vstd::prelude::*;

use super::interface::CameraInterface;
use super::sensors::sc850sl;
use super::sensors::sc850sl::Sc850sl;
use super::CameraError;

verus! {

/// An SC850SL whose frames are known to arrive, parked in standby.
pub struct RgbCamera<I> {
    /// The sensor.
    pub sensor: Sc850sl<I>,
}

impl<I: CameraInterface> RgbCamera<I> {
    /// Take over an initialized sensor: start streaming, verify that frames
    /// arrive, and park the sensor in standby.
    ///
    /// The sensor must already have had its init sequence run (board bring-up
    /// owns the reset/retry sequencing around it). Fails with
    /// [`CameraError::Bus`] if streaming could not be started, with
    /// [`CameraError::Transport`] if a frame did not arrive.
    pub fn try_new(sensor: Sc850sl<I>) -> (camera: Result<Self, CameraError>)
        ensures
            camera matches Ok(c) ==> c.sensor.goes_on_from(&sensor) && c.sensor.lines()
                == sensor.lines() && sc850sl::is_stream_check(
                c.sensor.used_since(&sensor),
                sensor.bus_address(),
                Ok(()),
            ),
            camera matches Err(e) ==> exists|after: Sc850sl<I>|
                #![trigger after.used_since(&sensor)]
                after.goes_on_from(&sensor) && after.lines() == sensor.lines()
                    && sc850sl::is_stream_check(
                    after.used_since(&sensor),
                    sensor.bus_address(),
                    Err(e),
                ),
    {
        let mut sensor = sensor;
        let ghost before = sensor;
        match sensor.check_stream() {
            Ok(()) => Ok(RgbCamera { sensor }),
            Err(e) => {
                assert(sc850sl::is_stream_check(
                    sensor.used_since(&before),
                    before.bus_address(),
                    Err(e),
                ));
                Err(e)
            },
        }
    }
}

} // verus!
