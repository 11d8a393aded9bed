//! A camera on a plane: what is asked for, how its frames reach the GPU, and how it is going.
pub mod feed;
pub mod stats;
pub mod upload;
pub mod verify;
pub mod webcam;

pub use feed::{
    capture_config, import_desc, open_feed, open_request, plane_size, FeedError, FeedPlan,
    WebcamParams, FLAG_FULL_RANGE, FLAG_MIRROR, FLAG_RGBA, FLAG_UYVY,
};
pub use stats::{log_due, Figures, FrameWindow, TransferMode, WebcamStats};
pub use upload::{decoded_row, ModeStep, Requeue, UploadStep, WebcamFeed, WebcamGpu};
pub use verify::{compare, readback_size, Comparison};
pub use webcam::{Webcam, WebcamStatus};
