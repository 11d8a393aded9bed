//! What to open, how to configure it, and what can go wrong.
use vstd::prelude::*;
use vstd::string::*;

use crate::fourcc::{FourCC, FOURCC_YUYV};
use crate::text;

verus! {

/// What to open and how to configure it.
#[derive(Debug, Clone)]
pub struct CaptureConfig {
    pub device: String,
    pub width: u32,
    pub height: u32,
    pub fourcc: FourCC,
    /// Requested frame rate. `None` keeps the driver default.
    pub fps: Option<u32>,
    /// Number of kernel buffers to request. More buffers tolerate GPU stalls; fewer keep the
    /// pipeline shallow. The consumer always takes the newest frame, so depth does not add
    /// latency by itself.
    pub buffer_count: u32,
    /// Write back the CPU cache for each frame after dequeue, so a GPU reading the DMA-BUF
    /// without snooping sees the driver's writes rather than stale DRAM. Only matters for the
    /// zero-copy path.
    pub flush_cpu_cache: bool,
}

impl Default for CaptureConfig {
    fn default() -> (r: CaptureConfig)
        ensures
            r.device@ == "/dev/video0"@,
            r.width == 1280,
            r.height == 720,
            r.fourcc.code == FOURCC_YUYV,
            r.fps == Some(30u32),
            r.buffer_count == 4,
            r.flush_cpu_cache,
    {
        CaptureConfig {
            device: "/dev/video0".to_owned(),
            width: 1280,
            height: 720,
            fourcc: FourCC { code: FOURCC_YUYV },
            fps: Some(30),
            buffer_count: 4,
            flush_cpu_cache: true,
        }
    }
}

/// The requests that are made of the driver.
#[derive(Debug, Clone, Copy, PartialEq, Eq, Structural)]
pub enum Ioctl {
    QueryCapabilities,
    SetFormat,
    RequestBuffers,
    QueryBuffer,
    ExportBuffer,
    QueueBuffer,
    StreamOn,
}

/// Why a device could not be opened. Failures of the system come with its own words.
#[derive(Debug, Clone)]
pub enum CaptureError {
    Open { path: String, source: String },
    NotCapture,
    NoStreaming,
    Format { requested: FourCC, available: String },
    TooFewBuffers(u32),
    Ioctl { op: Ioctl, source: String },
    Mmap { index: u32, source: String },
}

impl Ioctl {
    pub open spec fn spec_name(self) -> Seq<char> {
        match self {
            Ioctl::QueryCapabilities => "VIDIOC_QUERYCAP"@,
            Ioctl::SetFormat => "VIDIOC_S_FMT"@,
            Ioctl::RequestBuffers => "VIDIOC_REQBUFS"@,
            Ioctl::QueryBuffer => "VIDIOC_QUERYBUF"@,
            Ioctl::ExportBuffer => "VIDIOC_EXPBUF"@,
            Ioctl::QueueBuffer => "VIDIOC_QBUF"@,
            Ioctl::StreamOn => "VIDIOC_STREAMON"@,
        }
    }

    /// The request as V4L2 names it.
    pub fn name(&self) -> (r: &'static str)
        ensures
            r@ == self.spec_name(),
    {
        match self {
            Ioctl::QueryCapabilities => "VIDIOC_QUERYCAP",
            Ioctl::SetFormat => "VIDIOC_S_FMT",
            Ioctl::RequestBuffers => "VIDIOC_REQBUFS",
            Ioctl::QueryBuffer => "VIDIOC_QUERYBUF",
            Ioctl::ExportBuffer => "VIDIOC_EXPBUF",
            Ioctl::QueueBuffer => "VIDIOC_QBUF",
            Ioctl::StreamOn => "VIDIOC_STREAMON",
        }
    }
}

impl CaptureError {
    pub open spec fn message(self) -> Seq<char> {
        match self {
            CaptureError::Open { path, source } => "failed to open "@ + path@ + ": "@ + source@,
            CaptureError::NotCapture => "device does not support video capture"@,
            CaptureError::NoStreaming => "device does not support streaming I/O (MMAP)"@,
            CaptureError::Format { requested, available } => "driver refused pixel format "@
                + requested.text() + "; it offers: "@ + available@,
            CaptureError::TooFewBuffers(n) => "driver granted "@ + text::decimal(n as nat)
                + " buffers, need at least 2"@,
            CaptureError::Ioctl { op, source } => op.spec_name() + " failed: "@ + source@,
            CaptureError::Mmap { index, source } => "mmap of buffer "@ + text::decimal(
                index as nat,
            ) + " failed: "@ + source@,
        }
    }

    /// The error in words.
    pub fn to_string(&self) -> (r: String)
        ensures
            r@ == self.message(),
    {
        let mut out = String::new();
        match self {
            CaptureError::Open { path, source } => {
                out.append("failed to open ");
                out.append(path.as_str());
                out.append(": ");
                out.append(source.as_str());
            },
            CaptureError::NotCapture => {
                out.append("device does not support video capture");
            },
            CaptureError::NoStreaming => {
                out.append("device does not support streaming I/O (MMAP)");
            },
            CaptureError::Format { requested, available } => {
                out.append("driver refused pixel format ");
                out.append(requested.to_string().as_str());
                out.append("; it offers: ");
                out.append(available.as_str());
            },
            CaptureError::TooFewBuffers(n) => {
                out.append("driver granted ");
                text::append_decimal(&mut out, *n as u64);
                out.append(" buffers, need at least 2");
            },
            CaptureError::Ioctl { op, source } => {
                out.append(op.name());
                out.append(" failed: ");
                out.append(source.as_str());
            },
            CaptureError::Mmap { index, source } => {
                out.append("mmap of buffer ");
                text::append_decimal(&mut out, *index as u64);
                out.append(" failed: ");
                out.append(source.as_str());
            },
        }
        proof {
            assert(out@ =~= self.message());
        }
        out
    }
}

/// The words of an error end with those of the system, and name what was asked for.
pub proof fn an_error_ends_with_the_words_of_the_system(
    path: String,
    source: String,
    requested: FourCC,
    op: Ioctl,
    index: u32,
)
    ensures
        source@.is_suffix_of((CaptureError::Open { path, source }).message()),
        source@.is_suffix_of((CaptureError::Format { requested, available: source }).message()),
        source@.is_suffix_of((CaptureError::Ioctl { op, source }).message()),
        op.spec_name().is_prefix_of((CaptureError::Ioctl { op, source }).message()),
        source@.is_suffix_of((CaptureError::Mmap { index, source }).message()),
{
    let a = (CaptureError::Open { path, source }).message();
    let b = (CaptureError::Format { requested, available: source }).message();
    let c = (CaptureError::Ioctl { op, source }).message();
    let d = (CaptureError::Mmap { index, source }).message();
    assert(source@ =~= a.subrange(a.len() - source@.len(), a.len() as int));
    assert(source@ =~= b.subrange(b.len() - source@.len(), b.len() as int));
    assert(source@ =~= c.subrange(c.len() - source@.len(), c.len() as int));
    assert(op.spec_name() =~= c.subrange(0, op.spec_name().len() as int));
    assert(source@ =~= d.subrange(d.len() - source@.len(), d.len() as int));
}

} // verus!
