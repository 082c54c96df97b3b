//! Sensor drivers: register protocols over a
//! [`CameraInterface`](super::interface::CameraInterface).

pub mod mi48;
pub mod mi48_laws;
pub mod sc850sl;
pub mod sc850sl_laws;
