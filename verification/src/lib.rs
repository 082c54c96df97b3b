//! Reusable beacon firmware logic: the decisions and codecs of a slow-scan
//! television payload, with every contract machine-checked.

pub mod audio;
pub mod bytes;
pub mod camera;
pub mod debug;
pub mod error;
pub mod idle;
pub mod link;
pub mod ota;
pub mod pacing;
pub mod recording;
pub mod text;
pub mod timeline;
pub mod transfer;
pub mod transmit_sstv;
pub mod update;
