//! The camera that is asked for.
use vstd::arithmetic::power2;
use vstd::prelude::*;
use vstd::string::*;

use crate::request::{CameraFormat, FrameFormat, RequestedFormat};
use crate::single::{self, F32};

verus! {

/// Nine tenths, as the bits of a single.
pub const PLANE_HEIGHT: u32 = 0x3f66_6666;

/// A camera to show.
#[derive(Debug, Clone)]
pub struct Webcam {
    /// The V4L2 node, e.g. `/dev/video0`.
    pub device: String,
    /// Which of the device's modes to use.
    pub format: RequestedFormat,
    /// Number of kernel buffers. More tolerate GPU stalls; the consumer always takes the newest
    /// frame, so depth does not add latency by itself.
    pub buffers: u32,
    /// Write back the CPU cache for each frame so a non-snooping GPU sees the driver's writes.
    /// Leave on unless you have verified your platform does not need it.
    pub flush_cpu_cache: bool,
    /// Flip horizontally, like a mirror.
    pub mirror: bool,
    /// Skip DMA-BUF import and always upload through the CPU (for comparison).
    pub force_upload: bool,
    /// Height of the plane that shows the camera, in world units; width follows the aspect ratio.
    pub plane_height: F32,
    /// Read back the first N GPU copies and compare them byte-for-byte with the kernel buffer.
    pub verify_frames: u32,
    /// Skip the foreign-queue acquire/release barriers (diagnostic).
    pub no_barrier: bool,
}

/// Outcome of opening the camera.
#[derive(Debug, Clone, PartialEq, Eq)]
pub enum WebcamStatus {
    Running,
    Failed(String),
}

impl Webcam {
    /// Everything but the format is as it is by default.
    pub open spec fn plain(self) -> bool {
        &&& self.device@ == "/dev/video0"@
        &&& self.buffers == 4
        &&& self.flush_cpu_cache
        &&& !self.mirror
        &&& !self.force_upload
        &&& self.plane_height.bits == PLANE_HEIGHT
        &&& self.verify_frames == 0
        &&& !self.no_barrier
    }
}

impl Default for Webcam {
    fn default() -> (r: Webcam)
        ensures
            r.plain(),
            r.format == RequestedFormat::HighestResolution,
    {
        Webcam {
            device: "/dev/video0".to_owned(),
            format: RequestedFormat::default(),
            buffers: 4,
            flush_cpu_cache: true,
            mirror: false,
            force_upload: false,
            plane_height: F32 { bits: PLANE_HEIGHT },
            verify_frames: 0,
            no_barrier: false,
        }
    }
}

impl Webcam {
    /// `/dev/video0` with this format request.
    pub fn new(format: RequestedFormat) -> (r: Webcam)
        ensures
            r.plain(),
            r.format == format,
    {
        let mut r = Webcam::default();
        r.format = format;
        r
    }

    /// `/dev/video0` at the given size and rate, format chosen automatically (raw zero-copy if
    /// it reaches the rate, else MJPEG).
    pub fn want(width: u32, height: u32, fps: u32) -> (r: Webcam)
        ensures
            r.plain(),
            r.format == RequestedFormat::Closest(
                CameraFormat { width, height, format: FrameFormat::Any, fps },
            ),
    {
        Webcam::new(
            RequestedFormat::Closest(CameraFormat::new(width, height, FrameFormat::Any, fps)),
        )
    }

    /// The largest mode that still runs smoothly.
    pub fn auto() -> (r: Webcam)
        ensures
            r.plain(),
            r.format == RequestedFormat::HighestResolution,
    {
        Webcam::new(RequestedFormat::HighestResolution)
    }

    pub fn device(self, device: String) -> (r: Webcam)
        ensures
            r == (Webcam { device, ..self }),
    {
        let mut r = self;
        r.device = device;
        r
    }

    pub fn mirror(self, mirror: bool) -> (r: Webcam)
        ensures
            r == (Webcam { mirror, ..self }),
    {
        let mut r = self;
        r.mirror = mirror;
        r
    }

    pub fn plane_height(self, height: F32) -> (r: Webcam)
        ensures
            r == (Webcam { plane_height: height, ..self }),
    {
        let mut r = self;
        r.plane_height = height;
        r
    }
}

/// What a camera is by default: four buffers, whose writes are made visible; shown as it is, nine
/// tenths of a unit high, without a copy where that can be, and compared with nothing.
pub proof fn what_a_webcam_is_by_default(webcam: Webcam)
    requires
        webcam.plain(),
    ensures
        webcam.buffers == 4,
        webcam.flush_cpu_cache,
        !webcam.mirror && !webcam.force_upload && !webcam.no_barrier,
        webcam.verify_frames == 0,
        9 * power2::pow2(149) - power2::pow2(128) <= 10 * webcam.plane_height.value() <= 9
            * power2::pow2(149),
{
    power2::lemma2_to64();
    single::lemma_units_of(125, 0xe6_6666);
    power2::lemma_pow2_adds(24, 125);
    power2::lemma_pow2_adds(3, 125);
    power2::lemma_pow2_pos(125);
}

} // verus!
