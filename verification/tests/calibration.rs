use bevy_v4l2::calibration::board::{Corner, Detection, Found, GrayFrame};
use bevy_v4l2::calibration::lens::ends;
use bevy_v4l2::calibration::{
    accept, detect, drop_request, pose, signature, take_request, Bearing, Calibrate,
    CalibrationPhase, CalibrationRun, CameraCalibration, ChessboardSpec, Distortion,
    LensCalibrator, Regression, RollingShutter, RollingShutterCalibrator, RunStep, Sample, Solution, SolveError, SweepStep, SweepVerdict, ViewVerdict,
};
use bevy_v4l2::{Duration, F32, F64};

fn f(x: f32) -> F32 {
    F32 { bits: x.to_bits() }
}

fn g(x: f64) -> F64 {
    F64 { bits: x.to_bits() }
}

fn corner(u: i32, v: i32) -> Corner {
    Corner {
        grid: (u, v),
        px: [f(100.0 + 10.0 * u as f32), f(50.0 + 10.0 * v as f32)],
    }
}

fn board(columns: i32, rows: i32, sequence: u32) -> Detection {
    let mut corners = vec![];
    for v in 0..rows {
        for u in 0..columns {
            corners.push(corner(u, v));
        }
    }
    Detection {
        corners,
        cell_px: f(10.0),
        width: 640,
        height: 480,
        sequence,
        timestamp: Duration::from_millis(33 * sequence as u64),
    }
}

/// A board turned by so many radians.
fn turned(angle: f32) -> Bearing {
    Bearing { octaves: f(10f32.log2()), angle: f(angle) }
}

fn solution(distortion: Distortion) -> Solution {
    Solution {
        fx: g(1000.0),
        fy: g(1001.0),
        cx: g(640.0),
        cy: g(360.0),
        distortion,
        mean_reproj_error: g(0.2),
    }
}

fn calibration() -> CameraCalibration {
    let zero = g(0.0);
    CameraCalibration {
        width: 1280,
        height: 720,
        fx: g(1000.0),
        fy: g(1000.0),
        cx: g(640.0),
        cy: g(360.0),
        k1: zero,
        k2: zero,
        k3: zero,
        p1: zero,
        p2: zero,
        reproj_error_px: zero,
        views: 0,
        board: ChessboardSpec::default(),
        rolling_shutter: None,
    }
}

#[test]
fn the_default_board_has_nine_by_six_corners() {
    let spec = ChessboardSpec::default();
    assert_eq!((spec.squares_x, spec.squares_y, spec.square_mm), (10, 7, f(20.0)));
    assert_eq!(spec.inner_corners(), (9, 6));
    assert_eq!(spec.inner_count(), 54);
    let none = ChessboardSpec { squares_x: 0, ..spec };
    assert_eq!((none.inner_corners(), none.inner_count()), ((0, 6), 0));
}

#[test]
fn a_grid_extends_to_its_largest_labels() {
    assert_eq!(board(9, 6, 0).grid_extent(), (9, 6));
    assert_eq!(board(0, 0, 0).grid_extent(), (1, 1));
    assert!(board(9, 6, 0).is_complete(&ChessboardSpec::default()));
    assert!(!board(8, 6, 0).is_complete(&ChessboardSpec::default()));
}

#[test]
fn the_centroid_is_the_mean() {
    let c = board(3, 1, 0).centroid();
    assert_eq!((c[0], c[1]), (f(110.0), f(50.0)));
    let c = board(0, 0, 0).centroid();
    assert_eq!((c[0], c[1]), (f(0.0), f(0.0)));
    let d = board(7, 5, 0);
    let sum: f32 = d.corners.iter().map(|c| f32::from_bits(c.px[0].bits)).fold(0.0, |a, b| a + b);
    assert_eq!(d.centroid()[0], f(sum / 35.0));
}

fn accepted(corners: Vec<Corner>, min: usize) -> Option<Detection> {
    let frame = GrayFrame {
        width: 640,
        height: 480,
        data: vec![],
        sequence: 4,
        timestamp: Duration::from_secs(9),
    };
    let found = Found { corners, cell_size: Some(f(12.5)) };
    accept(found, &frame, &ChessboardSpec::default(), min)
}

#[test]
fn a_spurious_grid_is_not_accepted() {
    let d = accepted(board(9, 6, 0).corners, 54).unwrap();
    assert_eq!((d.width, d.height, d.sequence), (640, 480, 4));
    assert_eq!((d.cell_px, d.timestamp), (f(12.5), Duration::from_secs(9)));
    assert!(accepted(board(9, 6, 0).corners, 55).is_none());
    // On its side the board fits as well; a larger grid does not.
    assert!(accepted(board(6, 9, 0).corners, 0).is_some());
    assert!(accepted(board(10, 6, 0).corners, 0).is_none());
    assert!(accepted(board(7, 7, 0).corners, 0).is_none());
    assert!(accepted(vec![corner(i32::MAX, 0)], 0).is_none());
}

/// A picture of the default board, with a margin.
fn picture(cell: u32) -> GrayFrame {
    let (width, height) = (640u32, 480u32);
    let mut data = vec![230u8; (width * height) as usize];
    let (x0, y0) = ((width - 10 * cell) / 2, (height - 7 * cell) / 2);
    for y in 0..7 * cell {
        for x in 0..10 * cell {
            let dark = (x / cell + y / cell) % 2 == 0;
            let at = ((y0 + y) * width + x0 + x) as usize;
            data[at] = if dark { 25 } else { 230 };
        }
    }
    GrayFrame {
        width,
        height,
        data,
        sequence: 11,
        timestamp: Duration::from_secs(3),
    }
}

#[test]
fn the_board_is_found_in_a_picture() {
    let d = detect(&picture(44), &ChessboardSpec::default(), 8).unwrap();
    assert_eq!(d.corners.len(), 54);
    assert!(d.is_complete(&ChessboardSpec::default()));
    assert_eq!((d.sequence, d.width), (11, 640));
    let cell = f32::from_bits(d.cell_px.bits);
    assert!((cell - 44.0).abs() < 2.0, "{cell}");
    let first = d.corners.iter().find(|c| c.grid == (0, 0)).unwrap();
    assert!(f32::from_bits(first.px[0].bits) > 100.0);
    for pair in d.corners.windows(2) {
        let (a, b) = (pair[0].grid, pair[1].grid);
        assert!((a.1, a.0) < (b.1, b.0), "{a:?} {b:?}");
    }
    assert_eq!(d.corners.iter().map(|c| c.grid.0).min(), Some(0));
    assert_eq!(d.corners.iter().map(|c| c.grid.1).min(), Some(0));
    assert!(detect(&picture(44), &ChessboardSpec::default(), 55).is_none());
    let small = ChessboardSpec { squares_x: 5, squares_y: 5, square_mm: f(20.0) };
    assert!(detect(&picture(44), &small, 8).is_none());
}

#[test]
fn a_frame_that_is_cut_short_shows_nothing() {
    let mut cut = picture(44);
    cut.data.pop();
    assert!(detect(&cut, &ChessboardSpec::default(), 0).is_none());
    let blank = GrayFrame { data: vec![128; 640 * 480], ..picture(44) };
    assert!(detect(&blank, &ChessboardSpec::default(), 0).is_none());
}

#[test]
fn a_frame_with_bytes_to_spare_shows_nothing() {
    let mut long = picture(44);
    long.data.push(0);
    assert!(detect(&long, &ChessboardSpec::default(), 0).is_none());
}

#[test]
fn a_tiny_frame_shows_nothing() {
    for (width, height) in [(5u32, 5u32), (5, 10), (9, 10), (10, 10), (10, 40), (40, 5), (12, 12), (40, 40)] {
        let data = vec![7; (width * height) as usize];
        let tiny = GrayFrame { width, height, data, ..picture(44) };
        assert!(detect(&tiny, &ChessboardSpec::default(), 0).is_none());
    }
}

#[test]
fn noise_gives_no_grid_larger_than_the_board() {
    let mut state = 1u32;
    for (width, height) in [(5u32, 9u32), (11, 200), (64, 48), (160, 120), (320, 33)] {
        for levels in [2u32, 5, 256] {
            let data = (0..width * height)
                .map(|_| {
                    state = state.wrapping_mul(1_664_525).wrapping_add(1_013_904_223);
                    ((state >> 16) % levels * (255 / (levels - 1))) as u8
                })
                .collect();
            let frame = GrayFrame { width, height, data, ..picture(44) };
            if let Some(d) = detect(&frame, &ChessboardSpec::default(), 0) {
                let (x, y) = d.grid_extent();
                assert!(x.max(y) <= 9 && x.min(y) <= 6);
            }
        }
    }
}

#[test]
fn views_are_taken_if_they_show_enough_and_are_new() {
    let mut lens = LensCalibrator::new(ChessboardSpec::default());
    assert!(lens.is_empty());
    // Three quarters of 54 corners are 40.5.
    let mut few = board(9, 6, 1);
    few.corners.truncate(40);
    assert_eq!(lens.consider(&few, &turned(0.0)), ViewVerdict::TooFewCorners);
    let mut enough = board(9, 6, 2);
    enough.corners.truncate(41);
    assert_eq!(lens.consider(&enough, &turned(0.0)), ViewVerdict::Accepted);
    assert_eq!(lens.consider(&few, &turned(0.0)), ViewVerdict::TooFewCorners);
    // A radian is two cells, and a cell and a half are asked for.
    assert_eq!(lens.consider(&enough, &turned(0.7499)), ViewVerdict::NotNovel);
    assert_eq!((lens.len(), lens.signatures.len()), (1, 1));
    assert_eq!(lens.consider(&enough, &turned(0.75)), ViewVerdict::Accepted);
    assert_eq!((lens.len(), lens.signatures.len()), (2, 2));
    assert_eq!((lens.views()[0].sequence, lens.views()[0].corners.len()), (2, 41));
    assert_eq!(lens.min_novelty_cells, f(1.5));
    assert_eq!(lens.min_corner_fraction, f(0.75));
}

#[test]
fn the_pose_of_a_view() {
    let mut d = board(9, 6, 0);
    let p = pose(&d);
    assert_eq!(p.cell, f(10.0));
    let c = d.centroid();
    assert_eq!(p.center[0], c[0].over(&f(10.0)));
    assert_eq!(p.along.unwrap(), [f(80.0), f(50.0)]);
    d.cell_px = f(0.5);
    assert_eq!(pose(&d).cell, f(1.0));
    assert!(pose(&board(0, 0, 0)).along.is_none());
    // Of several corners with one label the first counts.
    let mut twice = vec![corner(1, 1), corner(0, 2), corner(0, 2), corner(1, 0)];
    twice[2].px[0] = f(7.0);
    let (a, b) = ends(&twice).unwrap();
    assert_eq!((a.grid, a.px[0], b.grid), ((0, 2), f(100.0), (1, 1)));
}

#[test]
fn a_view_differs_by_place_size_and_angle() {
    let d = board(9, 6, 0);
    let (c, b) = (d.centroid(), turned(0.25));
    let s = signature(&d, &b);
    assert_eq!(s.parts[0], c[0].over(&f(10.0)));
    assert_eq!(s.parts[1], c[1].over(&f(10.0)));
    assert_eq!(s.parts[2], f(2.0 * 10f32.log2()));
    assert_eq!(s.parts[3], f(0.5));
    let mut lens = LensCalibrator::new(ChessboardSpec::default());
    assert_eq!(lens.consider(&d, &b), ViewVerdict::Accepted);
    // Fifteen pixels are a cell and a half.
    for (step, verdict) in [(14.0, ViewVerdict::NotNovel), (16.0, ViewVerdict::Accepted)] {
        let mut moved = board(9, 6, 1);
        for corner in moved.corners.iter_mut() {
            corner.px[1] = corner.px[1].plus(&f(step));
        }
        assert_eq!(lens.consider(&moved, &b), verdict, "{step}");
    }
    // Half the size is two cells.
    let mut lens = LensCalibrator::new(ChessboardSpec::default());
    assert_eq!(lens.consider(&d, &b), ViewVerdict::Accepted);
    let smaller = Bearing { octaves: f(5f32.log2()), angle: b.angle };
    assert_eq!(lens.consider(&d, &smaller), ViewVerdict::Accepted);
    // A distance that is not a number is not far enough.
    let nowhere = Bearing { octaves: f(f32::NAN), angle: b.angle };
    assert_eq!(lens.consider(&d, &nowhere), ViewVerdict::NotNovel);
}

#[test]
fn a_view_is_taken_once() {
    let mut lens = LensCalibrator::new(ChessboardSpec::default());
    let views: Vec<(Detection, Bearing)> =
        (0..40u32).map(|i| (board(9, 6, i), turned(i as f32 * 0.3))).collect();
    let mut taken = vec![];
    for (d, b) in &views {
        if lens.consider(d, b) == ViewVerdict::Accepted {
            taken.push(d.sequence);
        }
    }
    assert_eq!(taken, (0..40).step_by(3).collect::<Vec<u32>>());
    for (d, b) in &views {
        assert_eq!(lens.consider(d, b), ViewVerdict::NotNovel);
    }
    assert_eq!(lens.len(), taken.len());
    for (i, a) in lens.signatures.iter().enumerate() {
        for b in &lens.signatures[..i] {
            let far: f32 = (0..4)
                .map(|k| f32::from_bits(b.parts[k].bits) - f32::from_bits(a.parts[k].bits))
                .map(|gap| gap * gap)
                .sum();
            assert!(far.sqrt() >= 1.5);
        }
    }
    // Where no difference is asked for, every view is new.
    lens.min_novelty_cells = f(0.0);
    assert_eq!(lens.consider(&views[0].0, &views[0].1), ViewVerdict::Accepted);
}

#[test]
fn a_solve_needs_three_views() {
    let mut lens = LensCalibrator::new(ChessboardSpec::default());
    for i in 0..3u32 {
        let e = lens.solve(640, 480, Ok(solution(Distortion::Undistorted))).unwrap_err();
        assert!(matches!(e, SolveError::TooFewViews(n) if n == i as usize));
        assert_eq!(e.to_string(), format!("need at least 3 views, have {i}"));
        assert!(lens.enough_views().is_err());
        lens.consider(&board(9, 6, i), &turned(i as f32));
    }
    assert!(lens.enough_views().is_ok());
    let c = lens.solve(640, 480, Ok(solution(Distortion::Undistorted))).unwrap();
    assert_eq!((c.width, c.height, c.views), (640, 480, 3));
    assert_eq!((c.fx, c.fy, c.cx, c.cy), (g(1000.0), g(1001.0), g(640.0), g(360.0)));
    assert_eq!((c.k1, c.p2, c.reproj_error_px), (g(0.0), g(0.0), g(0.2)));
    assert!(c.rolling_shutter.is_none());
    let distorted = Distortion::BrownConrady5 {
        k1: g(0.1),
        k2: g(0.2),
        k3: g(0.3),
        p1: g(0.4),
        p2: g(0.5),
    };
    let c = lens.solve(640, 480, Ok(solution(distorted))).unwrap();
    assert_eq!((c.k1, c.k2, c.k3, c.p1, c.p2), (g(0.1), g(0.2), g(0.3), g(0.4), g(0.5)));
    let e = lens.solve(640, 480, Err("singular".to_string())).unwrap_err();
    assert_eq!(e.to_string(), "singular");
    let other = Distortion::Other("Fisheye".to_string());
    let e = lens.solve(640, 480, Ok(solution(other))).unwrap_err();
    assert!(matches!(e, SolveError::UnexpectedModel(_)));
    assert_eq!(e.to_string(), "solver returned an unexpected distortion model: Fisheye");
}

#[test]
fn only_consecutive_complete_frames_are_measured() {
    let mut rs = RollingShutterCalibrator::new(calibration(), ChessboardSpec::default());
    let verdict = |step: SweepStep| match step {
        SweepStep::Verdict(v) => v,
        other => panic!("{other:?}"),
    };
    assert_eq!(verdict(rs.feed(&board(9, 5, 1))), SweepVerdict::Incomplete);
    assert_eq!(verdict(rs.feed(&board(9, 6, 2))), SweepVerdict::NoPair);
    match rs.feed(&board(9, 6, 3)) {
        SweepStep::Measure { pairs, elapsed } => {
            assert_eq!((pairs.len(), elapsed), (54, Duration::from_millis(33)));
            assert!(pairs.iter().all(|(a, b)| a.grid == b.grid));
        }
        other => panic!("{other:?}"),
    }
    // A frame is missing; time stands still; an incomplete frame breaks the row.
    assert_eq!(verdict(rs.feed(&board(9, 6, 5))), SweepVerdict::NoPair);
    let mut still = board(9, 6, 6);
    still.timestamp = board(9, 6, 5).timestamp;
    assert_eq!(verdict(rs.feed(&still)), SweepVerdict::NoPair);
    assert_eq!(verdict(rs.feed(&board(9, 5, 7))), SweepVerdict::Incomplete);
    assert_eq!(verdict(rs.feed(&board(9, 6, 8))), SweepVerdict::NoPair);
    // Too few labels in common.
    let mut shifted = board(9, 6, 9);
    for c in &mut shifted.corners {
        c.grid.0 += 8;
    }
    assert_eq!(verdict(rs.feed(&shifted)), SweepVerdict::NoPair);
    assert_eq!(rs.min_speed_span_px_s, g(600.0));
}

#[test]
fn the_frame_counter_may_wrap() {
    let mut rs = RollingShutterCalibrator::new(calibration(), ChessboardSpec::default());
    let mut last = board(9, 6, 0);
    last.sequence = u32::MAX;
    rs.feed(&last);
    assert!(matches!(rs.feed(&board(9, 6, 0)), SweepStep::Verdict(SweepVerdict::NoPair)));
    let mut first = board(9, 6, 0);
    first.timestamp = Duration::from_secs(1);
    rs.feed(&last);
    assert!(matches!(rs.feed(&first), SweepStep::Measure { .. }));
}

fn fit() -> Regression {
    Regression { line_delay_us: g(30.0), readout_ms: g(21.6), spread_us: g(0.5) }
}

fn estimate(samples: usize) -> RollingShutter {
    RollingShutter {
        line_delay_us: g(30.0),
        readout_ms: g(21.6),
        samples,
        spread_us: g(0.5),
    }
}

#[test]
fn an_estimate_needs_samples_and_speed() {
    let mut rs = RollingShutterCalibrator::new(calibration(), ChessboardSpec::default());
    assert_eq!(rs.measured(None), SweepVerdict::NoPair);
    for i in 0..6usize {
        assert_eq!(rs.samples(), i);
        assert_eq!(rs.estimate(g(600.0), Some(fit())), None);
        let s = Sample { velocity_px_s: g(100.0), shear: g(0.01) };
        assert_eq!(
            rs.measured(Some(s)),
            SweepVerdict::Accepted { velocity_px_s: g(100.0), shear: g(0.01) }
        );
    }
    assert_eq!(rs.estimate(g(599.9), Some(fit())), None);
    assert_eq!(rs.estimate(g(600.0), Some(fit())), Some(estimate(6)));
    assert_eq!(rs.estimate(g(600.0), None), None);
}

fn request(views: usize, sweep: usize) -> Calibrate {
    Calibrate {
        views_needed: views,
        sweep_frames_needed: sweep,
        ..Calibrate::default()
    }
}

fn seconds(s: u64) -> Duration {
    Duration::from_secs(s)
}

#[test]
fn a_run_goes_from_views_to_the_result() {
    let (mut run, step) = CalibrationRun::start(request(2, 2), 640, 480, seconds(10));
    assert!(matches!(step, RunStep::Receive));
    assert_eq!(run.min_corners(), 13);
    assert_eq!(run.progress().hint, "show the whole board to the camera");
    assert!(!run.is_finished());
    run.lens_frame(None, seconds(12));
    assert_eq!(run.progress().hint, "board not found");
    run.lens_frame(Some((board(9, 6, 1), turned(0.0))), Duration::from_millis(10_700));
    assert_eq!(run.progress().hint, "hold...");
    run.lens_frame(Some((board(3, 3, 1), turned(0.0))), seconds(12));
    assert_eq!(run.progress().hint, "show more of the board");
    let step = run.lens_frame(Some((board(9, 6, 1), turned(0.0))), seconds(12));
    assert!(matches!(step, RunStep::Receive));
    assert_eq!(run.progress().hint, "view 1 taken; move the board");
    assert!(matches!(run.progress().phase, CalibrationPhase::Lens { accepted: 1, needed: 2 }));
    assert_eq!(run.progress().detection.as_ref().unwrap().corners.len(), 54);
    let step = run.lens_frame(Some((board(9, 6, 1), turned(0.5))), seconds(13));
    assert!(matches!(step, RunStep::Receive));
    assert_eq!(run.progress().hint, "move the board to a new position or angle");
    let step = run.lens_frame(Some((board(9, 6, 1), turned(1.0))), seconds(13));
    assert!(matches!(step, RunStep::Solve));
    assert!(matches!(run.progress().phase, CalibrationPhase::Solving));
    let step = run.solved(Ok(calibration()));
    assert!(matches!(step, RunStep::Receive));
    assert_eq!(run.progress().hint, "sweep the board sideways, keeping it fully in view");
    assert_eq!(run.progress().result, Some(calibration()));
    assert!(matches!(run.sweep_frame(None, g(0.0)), RunStep::Receive));
    assert_eq!(run.progress().hint, "board not found");
    run.sweep_frame(Some(board(9, 5, 1)), g(0.0));
    assert!(run.sweep.as_ref().unwrap().prev.is_none());
    assert_eq!(run.progress().hint, "keep the whole board in view");
    run.sweep_frame(Some(board(9, 6, 2)), g(0.0));
    assert_eq!(run.progress().hint, "keep sweeping");
    assert_eq!(run.sweep.as_ref().unwrap().prev.as_ref().unwrap().sequence, 2);
    for sequence in 3..9u32 {
        let step = run.sweep_frame(Some(board(9, 6, sequence)), g(300.0));
        assert!(matches!(step, RunStep::Measure { .. }));
        let s = Sample { velocity_px_s: g(250.0), shear: g(0.01) };
        assert!(matches!(run.sweep_measured(Some(s), "250", "300", g(300.0)), RunStep::Receive));
    }
    assert_eq!(run.progress().hint, "sweep back and forth: 250 px/s, speed range 300 px/s");
    assert!(matches!(
        run.progress().phase,
        CalibrationPhase::RollingShutter { accepted: 6, needed: 2 }
    ));
    // There are samples enough, but not over the range of speeds: the run has only the lens.
    assert!(matches!(run.sweep_frame(None, g(599.9)), RunStep::Receive));
    assert!(!run.is_finished());
    assert_eq!(run.progress().result, Some(calibration()));
    assert!(matches!(run.sweep_measured(None, "", "", g(600.0)), RunStep::Fit));
    assert!(matches!(run.fitted(Some(fit())), RunStep::Finished));
    assert!(run.is_finished());
    assert_eq!(run.progress().hint, "done");
    let result = run.progress().result.unwrap();
    assert_eq!(result.rolling_shutter, Some(estimate(6)));
    assert_eq!(
        result,
        CameraCalibration { rolling_shutter: Some(estimate(6)), ..calibration() }
    );
}

#[test]
fn doubles_are_ordered_by_their_bits() {
    let values = [
        f64::NEG_INFINITY, -600.0, -1e-310, -0.0, 0.0, 5e-324, 1.0, 599.9999999999999, 600.0,
        600.0000000000001, f64::MAX, f64::INFINITY, f64::NAN, -f64::NAN,
    ];
    for a in values {
        assert_eq!(g(a).is_nan(), a.is_nan());
        for b in values {
            assert_eq!(g(a).less(&g(b)), a < b, "{a} < {b}");
            assert_eq!(g(a).at_most(&g(b)), a <= b, "{a} <= {b}");
        }
    }
    assert_eq!(RollingShutterCalibrator::new(calibration(), ChessboardSpec::default())
        .min_speed_span_px_s, g(600.0));
}

#[test]
fn a_run_without_a_sweep_ends_with_the_lens() {
    let (mut run, _) = CalibrationRun::start(request(1, 0), 640, 480, seconds(0));
    run.lens_frame(Some((board(9, 6, 1), turned(0.0))), seconds(1));
    assert!(matches!(run.solved(Ok(calibration())), RunStep::Finished));
    assert!(matches!(run.progress().phase, CalibrationPhase::Done));
    assert_eq!(run.progress().result, Some(calibration()));
}

#[test]
fn a_failed_solve_ends_the_run() {
    let (mut run, _) = CalibrationRun::start(request(1, 5), 640, 480, seconds(0));
    run.lens_frame(Some((board(9, 6, 1), turned(0.0))), seconds(1));
    let step = run.solved(Err(SolveError::TooFewViews(1)));
    assert!(matches!(step, RunStep::Finished));
    assert!(run.is_finished() && run.progress().result.is_none());
    match &run.progress().phase {
        CalibrationPhase::Failed(words) => {
            assert_eq!(words, "lens solve failed: need at least 3 views, have 1")
        }
        other => panic!("{other:?}"),
    }
}

#[test]
fn the_default_request() {
    let c = Calibrate::default();
    assert_eq!((c.views_needed, c.sweep_frames_needed), (15, 40));
    assert_eq!(c.board, ChessboardSpec::default());
}

fn pixel(c: &Corner) -> (f64, f64) {
    (f32::from_bits(c.px[0].bits) as f64, f32::from_bits(c.px[1].bits) as f64)
}

fn value(x: F64) -> f64 {
    f64::from_bits(x.bits)
}

/// Velocity and shear of the frame that was fed last, seen through a lens without distortion.
fn measured(rs: &RollingShutterCalibrator, pairs: &[(Corner, Corner)], elapsed: Duration) -> Sample {
    let mut dx: Vec<f64> = pairs.iter().map(|(c, p)| pixel(c).0 - pixel(p).0).collect();
    dx.sort_by(|a, b| a.partial_cmp(b).unwrap());
    let n = dx.len();
    let median = if n % 2 == 1 { dx[n / 2] } else { 0.5 * (dx[n / 2 - 1] + dx[n / 2]) };
    let square = f32::from_bits(rs.spec.square_mm.bits) as f64;
    let corners = &rs.prev.as_ref().unwrap().corners;
    let mut a = nalgebra::DMatrix::<f64>::zeros(corners.len(), 3);
    let mut bx = nalgebra::DVector::<f64>::zeros(corners.len());
    let mut by = nalgebra::DVector::<f64>::zeros(corners.len());
    for (i, c) in corners.iter().enumerate() {
        a[(i, 0)] = c.grid.0 as f64 * square;
        a[(i, 1)] = c.grid.1 as f64 * square;
        a[(i, 2)] = 1.0;
        bx[i] = pixel(c).0;
        by[i] = pixel(c).1;
    }
    let svd = a.svd(true, true);
    let shear = svd.solve(&bx, 1e-12).unwrap()[1] / svd.solve(&by, 1e-12).unwrap()[1];
    Sample { velocity_px_s: g(median / (elapsed.nanos as f64 * 1e-9)), shear: g(shear) }
}

/// The range of velocities, and the slope of shear against them.
fn slope(rs: &RollingShutterCalibrator) -> (F64, Regression) {
    let v: Vec<f64> = rs.samples.iter().map(|s| value(s.velocity_px_s)).collect();
    let n = v.len() as f64;
    let mv = v.iter().sum::<f64>() / n;
    let mg = rs.samples.iter().map(|s| value(s.shear)).sum::<f64>() / n;
    let sxx = v.iter().map(|x| (x - mv).powi(2)).sum::<f64>();
    let sxy = rs
        .samples
        .iter()
        .map(|s| (value(s.velocity_px_s) - mv) * (value(s.shear) - mg))
        .sum::<f64>();
    let tau = sxy / sxx;
    let hi = v.iter().copied().fold(f64::NEG_INFINITY, f64::max);
    let lo = v.iter().copied().fold(f64::INFINITY, f64::min);
    let fit = Regression {
        line_delay_us: g(tau * 1e6),
        readout_ms: g(tau * rs.calibration.height as f64 * 1e3),
        spread_us: g(0.0),
    };
    (g(hi - lo), fit)
}

/// A fronto-parallel board swept back and forth under a rolling shutter with a known line
/// delay; velocity varies sinusoidally so the shear-vs-velocity regression is observable.
#[test]
fn line_delay_is_recovered_from_a_sweep() {
    let spec = ChessboardSpec::default();
    let tau = 30e-6; // 30 us per row
    let fps = 30.0;
    let mut rs = RollingShutterCalibrator::new(calibration(), spec);
    let mut accepted = 0;
    for frame in 0..40u32 {
        let t = frame as f64 / fps;
        let x0 = 500.0 + 250.0 * (2.0 * std::f64::consts::PI * 0.5 * t).sin();
        let vx = 250.0
            * 2.0
            * std::f64::consts::PI
            * 0.5
            * (2.0 * std::f64::consts::PI * 0.5 * t).cos();
        let y_mean = 360.0;
        // A small static in-plane rotation, which the regression intercept must absorb.
        let rot = 0.05f64;
        let corners = (0..6)
            .flat_map(|j| (0..9).map(move |i| (i, j)))
            .map(|(i, j)| {
                let bx = i as f64 * 40.0 - 160.0;
                let by = j as f64 * 40.0 - 100.0;
                let x_true = x0 + bx * rot.cos() - by * rot.sin();
                let y = y_mean + bx * rot.sin() + by * rot.cos();
                let x = x_true + vx * tau * (y - y_mean);
                Corner { grid: (i, j), px: [f(x as f32), f(y as f32)] }
            })
            .collect();
        let d = Detection {
            corners,
            cell_px: f(40.0),
            width: 1280,
            height: 720,
            sequence: frame,
            timestamp: Duration {
                nanos: std::time::Duration::from_secs_f64(t).as_nanos(),
            },
        };
        let verdict = match rs.feed(&d) {
            SweepStep::Verdict(verdict) => verdict,
            SweepStep::Measure { pairs, elapsed } => {
                let sample = measured(&rs, &pairs, elapsed);
                rs.measured(Some(sample))
            }
        };
        if matches!(verdict, SweepVerdict::Accepted { .. }) {
            accepted += 1;
        }
    }
    assert!(accepted > 30, "accepted {accepted}");
    let (span, fit) = slope(&rs);
    let est = rs.estimate(span, Some(fit)).expect("estimate");
    assert_eq!(est.samples, accepted);
    assert!((value(est.line_delay_us) - 30.0).abs() < 1.5, "got {est:?}");
}

#[test]
fn a_finished_run_is_restarted_by_asking_again() {
    let ask = |run, newly| take_request(run, newly, request(3, 2), 640, 480, seconds(1));
    // The first request starts a run, and is kept while the run goes on.
    assert!(ask(None, true).is_some() && ask(None, false).is_some());
    assert!(ask(Some(false), true).is_none() && ask(Some(false), false).is_none());
    assert!(!drop_request(false, false));
    // It is dropped with the end of the run, and does not start another one.
    assert!(drop_request(true, false) && ask(Some(true), false).is_none());
    // A new request is kept, and starts a run from the beginning.
    assert!(!drop_request(true, true));
    let (run, step) = ask(Some(true), true).unwrap();
    assert!(matches!(step, RunStep::Receive));
    assert!(matches!(run.progress().phase, CalibrationPhase::Lens { accepted: 0, needed: 3 }));
    assert!(run.progress().detection.is_none() && run.progress().result.is_none());
}
