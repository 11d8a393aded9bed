//! V4L2 capture: what is asked of a device, what it grants, and what becomes of its frames.
pub mod cache;
pub mod config;
pub mod frame;
pub mod luma;
pub mod modes;
pub mod open;
pub mod stream;

pub use crate::fourcc::{FOURCC_MJPG, FOURCC_NV12, FOURCC_UYVY, FOURCC_YUYV};
pub use cache::{flush_cpu_cache, CacheLines};
pub use config::{CaptureConfig, CaptureError, Ioctl};
pub use frame::{DequeuedFrame, FrameLayout, Newest, RawBuffer};
pub use luma::luma;
pub use modes::{
    list_modes, CaptureMode, Fraction, FrameInterval, OfferedFormat, OfferedSize,
};
pub use open::{Answer, GrantedFormat, OpenStep, Opening, Stage};
pub use stream::{Capture, DequeueFailure, PollStep, SendOutcome};
