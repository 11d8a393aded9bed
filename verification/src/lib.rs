//! The decisions of low-latency V4L2 webcam capture.
//!
//! * [`capture`]: V4L2 streaming with kernel buffers exported as DMA-BUFs: how a device is
//!   opened, newest-frame-wins delivery, and the CPU cache write-back that keeps a non-snooping
//!   GPU coherent with the driver's writes.
//! * [`dmabuf`]: the Vulkan extensions, the import of a DMA-BUF as a texture with no copy, and
//!   the barriers around each read.
//! * [`plugin`]: the camera that is asked for, and how its frames reach the GPU.
//! * [`mjpeg`] and [`jpeg`]: decoding of compressed streams on a thread, and which frames can be
//!   decoded.
//! * [`select`] and [`request`]: the best mode for a wanted size and rate, preferring raw
//!   (zero-copy).
//! * [`controls`]: device listing and V4L2 controls (brightness, focus, zoom, ...).
//! * [`calibration`]: lens and rolling-shutter calibration with a printed chessboard.
//!
//! Devices, threads, channels and the GPU are the caller's: each function here takes what they
//! answered and says what to do next.
pub mod calibration;
pub mod capture;
pub mod controls;
pub mod dmabuf;
pub mod double;
pub mod duration;
pub mod fourcc;
pub mod jpeg;
pub mod mjpeg;
pub mod plugin;
pub mod request;
pub mod select;
pub mod single;
pub mod text;

pub use double::F64;
pub use duration::Duration;
pub use fourcc::FourCC;
pub use request::{choose_format, CameraFormat, FrameFormat, RequestedFormat};
pub use select::{choose_mode, is_raw, is_supported, Choice, Want};
pub use single::F32;
