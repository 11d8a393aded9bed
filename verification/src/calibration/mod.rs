//! Lens and rolling-shutter calibration with a printed chessboard.
//!
//! First the board is held at a dozen or so different positions and angles, and the lens is
//! solved from the labelled corners of these views. Then the board is swept sideways, and the
//! line delay is estimated from how the shear of the board changes with its velocity.
pub mod board;
pub mod lens;
pub mod rolling;
pub mod run;

pub use board::{accept, detect, ChessboardSpec, Corner, Detection, Found, GrayFrame};
pub use lens::{
    pose, signature, Bearing, CameraCalibration, Distortion, LensCalibrator, Pose, RollingShutter,
    Signature, Solution, SolveError, ViewVerdict,
};
pub use rolling::{Regression, RollingShutterCalibrator, Sample, SweepStep, SweepVerdict};
pub use run::{
    drop_request, take_request, Calibrate, CalibrationPhase, CalibrationProgress, CalibrationRun,
    RunStep,
};
