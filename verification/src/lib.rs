//! Verified core of a video pipeline that rectifies a camera's view of a
//! screen: pixel-format conversion, colour handling, output framing, the
//! bookkeeping of calibration landmarks, camera-control caching and the
//! validation of video settings.

use vstd::prelude::*;

pub mod pixel;
pub mod text;
pub mod stable_sort;
pub mod keyed;
pub mod color;
pub mod jpeg;

pub mod capture;
pub mod output;
pub mod camera_controls;
pub mod video_settings;
pub mod calibration;
pub mod mesh;
pub mod transform;
pub mod system_stats;
pub mod stats;
pub mod config;
