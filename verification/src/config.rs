//! The parts of the stored configuration that concern video and server.

use vstd::prelude::*;
use vstd::string::StringExecFns;

verus! {

/// The capture format to prefer.
#[derive(Debug, Clone, Copy, PartialEq, Eq, Structural)]
pub enum CaptureFormat {
    /// Motion JPEG: less bandwidth, colour conversion done by the camera.
    Mjpeg,
    /// YUYV: more bandwidth, colour conversion done here.
    Yuyv,
}

impl Default for CaptureFormat {
    fn default() -> (r: Self)
        ensures
            r == CaptureFormat::Mjpeg,
    {
        CaptureFormat::Mjpeg
    }
}

/// Video devices and the format asked of the camera.
#[derive(Debug, Clone)]
pub struct VideoConfig {
    /// Path of the capture device.
    pub input_device: String,
    /// Path of the loopback device.
    pub output_device: String,
    pub width: u32,
    pub height: u32,
    pub fps: u32,
    pub format: CaptureFormat,
}

impl Default for VideoConfig {
    fn default() -> (r: Self)
        ensures
            r.input_device@ == "/dev/video0"@,
            r.output_device@ == "/dev/video10"@,
            r.width == 640,
            r.height == 480,
            r.fps == 30,
            r.format == CaptureFormat::Mjpeg,
    {
        VideoConfig {
            input_device: String::from_str("/dev/video0"),
            output_device: String::from_str("/dev/video10"),
            width: 640,
            height: 480,
            fps: 30,
            format: CaptureFormat::Mjpeg,
        }
    }
}

/// Where the web server listens.
#[derive(Debug, Clone)]
pub struct ServerConfig {
    pub host: String,
    pub port: u16,
}

impl Default for ServerConfig {
    fn default() -> (r: Self)
        ensures
            r.host@ == "0.0.0.0"@,
            r.port == 8091,
    {
        ServerConfig { host: String::from_str("0.0.0.0"), port: 8091 }
    }
}

/// Stored values of the camera's controls, by settings key.
#[derive(Debug, Clone)]
pub struct CameraConfig {
    /// Key and value of each stored control.
    pub controls: Vec<(String, i64)>,
}

impl Default for CameraConfig {
    fn default() -> (r: Self)
        ensures
            r.controls@.len() == 0,
    {
        CameraConfig { controls: Vec::new() }
    }
}

/// A setting after a change is proposed: the proposed value, or the one
/// it had where none is proposed.
pub open spec fn changed_to(proposed: Option<u32>, current: u32) -> u32 {
    match proposed {
        Some(v) => v,
        None => current,
    }
}

impl VideoConfig {
    /// Takes proposed video settings into the configuration; what is not
    /// proposed stays, and so do devices and format.
    pub fn set_mode(&mut self, width: Option<u32>, height: Option<u32>, fps: Option<u32>)
        ensures
            final(self).width == changed_to(width, old(self).width),
            final(self).height == changed_to(height, old(self).height),
            final(self).fps == changed_to(fps, old(self).fps),
            final(self).input_device == old(self).input_device,
            final(self).output_device == old(self).output_device,
            final(self).format == old(self).format,
    {
        match width {
            Some(w) => {
                self.width = w;
            },
            None => {},
        }
        match height {
            Some(h) => {
                self.height = h;
            },
            None => {},
        }
        match fps {
            Some(f) => {
                self.fps = f;
            },
            None => {},
        }
    }
}

} // verus!
