//! A calibration run: the steps from the first view of the board to the result, and what the
//! operator is told on the way.
use vstd::prelude::*;
use vstd::string::*;

use crate::calibration::board::{self, ChessboardSpec, Corner, Detection};
use crate::calibration::lens::{
    self, Bearing, CameraCalibration, LensCalibrator, SolveError, ViewVerdict,
};
use crate::calibration::rolling::{
    self, Regression, RollingShutterCalibrator, Sample, SweepStep, SweepVerdict,
};
use crate::double::F64;
use crate::duration::Duration;
use crate::text;

verus! {

/// Hold still for a moment between views, so motion blur does not enter the solve: seven tenths
/// of a second, in nanoseconds.
pub const HOLD: u128 = 700_000_000;

/// A request to calibrate a camera.
#[derive(Debug, Clone, Copy, PartialEq, Eq, Structural)]
pub struct Calibrate {
    pub board: ChessboardSpec,
    /// Distinct board views to collect before solving the lens.
    pub views_needed: usize,
    /// Accepted sweep frames to collect for the rolling-shutter estimate. `0` skips that step.
    pub sweep_frames_needed: usize,
}

impl Default for Calibrate {
    fn default() -> (r: Calibrate)
        ensures
            r.board.squares_x == 10,
            r.board.squares_y == 7,
            r.board.square_mm.bits == board::SQUARE_MM,
            r.views_needed == 15,
            r.sweep_frames_needed == 40,
    {
        Calibrate {
            board: ChessboardSpec::default(),
            views_needed: 15,
            sweep_frames_needed: 40,
        }
    }
}

/// What a run is doing.
#[derive(Debug, Clone)]
pub enum CalibrationPhase {
    /// Collecting lens views: `accepted` of `needed`.
    Lens { accepted: usize, needed: usize },
    Solving,
    /// Sweep the board sideways: `accepted` of `needed` moving frames.
    RollingShutter { accepted: usize, needed: usize },
    Done,
    Failed(String),
}

/// Live snapshot for a UI.
#[derive(Debug, Clone)]
pub struct CalibrationProgress {
    pub phase: CalibrationPhase,
    /// Corners found in the latest frame, if any.
    pub detection: Option<Detection>,
    /// One-line hint for the operator.
    pub hint: String,
    /// The lens result once solved; rolling shutter filled in when that step completes.
    pub result: Option<CameraCalibration>,
}

/// What a run does next.
#[derive(Debug)]
pub enum RunStep {
    /// Wait for a frame, and look for the board in it.
    Receive,
    /// Solve the lens from the accepted views.
    Solve,
    /// Measure velocity and shear of the board.
    Measure { pairs: Vec<(Corner, Corner)>, elapsed: Duration },
    /// Fit shear against velocity.
    Fit,
    /// The run is over.
    Finished,
}

/// A running or finished calibration.
#[derive(Debug)]
pub struct CalibrationRun {
    pub request: Calibrate,
    pub width: u32,
    pub height: u32,
    pub lens: LensCalibrator,
    pub sweep: Option<RollingShutterCalibrator>,
    /// The range of velocities of the sweep's samples (px/s), as it was told last.
    pub span: F64,
    /// When the last view was accepted.
    pub last_accept: Duration,
    pub progress: CalibrationProgress,
}

/// Whether a request starts a run, given whether there is a run and it is finished. A finished run
/// gives way to a request that was newly made, a running one does not.
pub open spec fn starts(run: Option<bool>, newly: bool) -> bool {
    match run {
        None => true,
        Some(finished) => finished && newly,
    }
}

/// Whether a request is answered by the run that is there, and dropped: the run is finished, and
/// the request is not one that was newly made.
pub open spec fn answered(finished: bool, newly: bool) -> bool {
    finished && !newly
}

/// What a request for a calibration comes to: a run from the start, or nothing. `run` says whether
/// there is a run and it is finished, `newly` whether the request was newly made.
pub fn take_request(
    run: Option<bool>,
    newly: bool,
    request: Calibrate,
    width: u32,
    height: u32,
    now: Duration,
) -> (r: Option<(CalibrationRun, RunStep)>)
    requires
        request.board.countable(),
    ensures
        r is Some <==> starts(run, newly),
        r matches Some((new, step)) ==> new.begun(request, width, height, now) && step
            == RunStep::Receive,
{
    let begin = match run {
        None => true,
        Some(finished) => finished && newly,
    };
    if begin {
        Some(CalibrationRun::start(request, width, height, now))
    } else {
        None
    }
}

/// Whether the request that a run answers is dropped, and its result handed over.
pub fn drop_request(finished: bool, newly: bool) -> (r: bool)
    ensures
        r == answered(finished, newly),
{
    finished && !newly
}

/// A run is restarted by asking again: once a run is finished its request is dropped, and one that
/// is made after that is not dropped but starts a run. A run is not restarted by the request that
/// it answers, nor while it is running.
pub proof fn a_finished_run_gives_way_to_a_new_request(newly: bool)
    ensures
        answered(true, false),
        starts(Some(true), true),
        !answered(true, true),
        !starts(Some(true), false),
        !starts(Some(false), newly),
        !answered(false, newly),
{
}

/// The corners that are enough to look at a view at all: a quarter of them, but at least eight.
pub open spec fn least_corners(board: ChessboardSpec) -> int {
    let quarter = board.corner_count() / 4;
    if quarter >= 8 {
        quarter
    } else {
        8
    }
}

/// How far a run has got. It never goes back.
pub open spec fn rank(phase: CalibrationPhase) -> int {
    match phase {
        CalibrationPhase::Lens { .. } => 0,
        CalibrationPhase::Solving => 1,
        CalibrationPhase::RollingShutter { .. } => 2,
        CalibrationPhase::Done => 3,
        CalibrationPhase::Failed(_) => 3,
    }
}

/// What the operator is told about a view.
pub open spec fn view_hint(verdict: ViewVerdict, views: nat) -> Seq<char> {
    match verdict {
        ViewVerdict::Accepted => "view "@ + text::decimal(views) + " taken; move the board"@,
        ViewVerdict::NotNovel => "move the board to a new position or angle"@,
        ViewVerdict::TooFewCorners => "show more of the board"@,
    }
}

/// What the operator is told about a frame of the sweep, given its velocity and the range of
/// speeds so far in words.
pub open spec fn sweep_hint(verdict: SweepVerdict, velocity: Seq<char>, span: Seq<char>) -> Seq<
    char,
> {
    match verdict {
        SweepVerdict::Incomplete => "keep the whole board in view"@,
        SweepVerdict::NoPair => "keep sweeping"@,
        SweepVerdict::Accepted { .. } => "sweep back and forth: "@ + velocity
            + " px/s, speed range "@ + span + " px/s"@,
    }
}

impl CalibrationProgress {
    /// The run is over, well or not.
    pub fn is_finished(&self) -> (r: bool)
        ensures
            r == (self.phase is Done || self.phase is Failed),
    {
        match self.phase {
            CalibrationPhase::Done => true,
            CalibrationPhase::Failed(_) => true,
            _ => false,
        }
    }
}

impl CalibrationRun {
    pub open spec fn wf(self) -> bool {
        &&& self.request.board.countable()
        &&& self.lens.wf()
        &&& self.lens.spec == self.request.board
        &&& match self.progress.phase {
            CalibrationPhase::Lens { accepted, needed } => {
                &&& accepted == self.lens.views@.len()
                &&& needed == self.request.views_needed
                &&& self.sweep is None
                &&& self.progress.result is None
            },
            CalibrationPhase::Solving => {
                &&& self.lens.views@.len() >= self.request.views_needed
                &&& self.sweep is None
                &&& self.progress.result is None
            },
            CalibrationPhase::RollingShutter { accepted, needed } => {
                &&& self.sweeping()
                &&& accepted <= self.swept()
                &&& needed == self.request.sweep_frames_needed
                &&& self.progress.result == Some(self.sweep->0.calibration)
            },
            CalibrationPhase::Done => if self.request.sweep_frames_needed == 0 {
                self.sweep is None && self.progress.result is Some
            } else {
                &&& self.sweeping()
                &&& self.covered(self.swept(), self.span)
                &&& exists|fit: Option<Regression>|
                    self.progress.result == Some(#[trigger] self.with_estimate(fit))
            },
            CalibrationPhase::Failed(_) => self.sweep is None && self.progress.result is None,
        }
    }

    /// A sweep was asked for and has begun, with the board of the request and the range of speeds
    /// that an estimate needs.
    pub open spec fn sweeping(self) -> bool {
        &&& self.request.sweep_frames_needed > 0
        &&& self.sweep matches Some(s) && s.wf() && s.spec == self.request.board
            && s.min_speed_span_px_s.bits == rolling::MIN_SPEED_SPAN
    }

    /// The samples of the sweep.
    pub open spec fn swept(self) -> nat {
        match self.sweep {
            Some(s) => s.samples@.len(),
            None => 0,
        }
    }

    /// The phase of a sweep that has got this far.
    pub open spec fn sweep_phase(self) -> CalibrationPhase {
        CalibrationPhase::RollingShutter {
            accepted: self.swept() as usize,
            needed: self.request.sweep_frames_needed,
        }
    }

    /// This many samples over this range of velocities are all that the sweep is for.
    pub open spec fn covered(self, samples: nat, span: F64) -> bool {
        &&& samples >= self.request.sweep_frames_needed
        &&& self.sweep matches Some(s) && s.min_speed_span_px_s.spec_le(span)
    }

    /// The calibration of the lens, with the estimate that comes of a fit.
    pub open spec fn with_estimate(self, fit: Option<Regression>) -> CameraCalibration {
        CameraCalibration {
            rolling_shutter: self.sweep->0.estimated(self.span, fit),
            ..self.sweep->0.calibration
        }
    }

    /// Everything but the progress is the same in both.
    pub open spec fn same_request(self, other: CalibrationRun) -> bool {
        &&& self.request == other.request
        &&& self.width == other.width
        &&& self.height == other.height
    }

    pub fn progress(&self) -> (r: &CalibrationProgress)
        ensures
            *r == self.progress,
    {
        &self.progress
    }

    pub fn is_finished(&self) -> (r: bool)
        ensures
            r == (self.progress.phase is Done || self.progress.phase is Failed),
    {
        self.progress.is_finished()
    }

    /// A run that has just begun: no views, nothing seen, no result.
    pub open spec fn begun(
        self,
        request: Calibrate,
        width: u32,
        height: u32,
        now: Duration,
    ) -> bool {
        &&& self.wf()
        &&& self.request == request
        &&& self.width == width
        &&& self.height == height
        &&& self.last_accept == now
        &&& self.lens.views@.len() == 0
        &&& self.sweep is None
        &&& self.span.bits == 0
        &&& self.progress.phase == (CalibrationPhase::Lens {
            accepted: 0,
            needed: request.views_needed,
        })
        &&& self.progress.detection is None
        &&& self.progress.hint@ == "show the whole board to the camera"@
        &&& self.progress.result is None
    }

    /// Begins a run at `now`.
    pub fn start(request: Calibrate, width: u32, height: u32, now: Duration) -> (r: (
        CalibrationRun,
        RunStep,
    ))
        requires
            request.board.countable(),
        ensures
            r.0.begun(request, width, height, now),
            r.1 == RunStep::Receive,
    {
        let run = CalibrationRun {
            request,
            width,
            height,
            lens: LensCalibrator::new(request.board),
            sweep: None,
            span: F64 { bits: 0 },
            last_accept: now,
            progress: CalibrationProgress {
                phase: CalibrationPhase::Lens { accepted: 0, needed: request.views_needed },
                detection: None,
                hint: "show the whole board to the camera".to_owned(),
                result: None,
            },
        };
        (run, RunStep::Receive)
    }

    /// The corners that a frame must show to be looked at.
    pub fn min_corners(&self) -> (r: usize)
        requires
            self.request.board.countable(),
        ensures
            r == least_corners(self.request.board),
    {
        let quarter: usize = self.request.board.inner_count() / 4;
        if quarter >= 8 {
            quarter
        } else {
            8
        }
    }

    /// A view may be taken: the last one was taken long enough ago.
    pub open spec fn rested(self, now: Duration) -> bool {
        now.nanos > self.last_accept.nanos && now.nanos - self.last_accept.nanos > HOLD
    }

    /// The view is taken.
    pub open spec fn takes(self, seen: Option<(Detection, Bearing)>, now: Duration) -> bool {
        seen matches Some((d, b)) && self.rested(now) && self.lens.verdict(d, b)
            == ViewVerdict::Accepted
    }

    /// What the operator is told about a frame.
    pub open spec fn lens_hint(self, seen: Option<(Detection, Bearing)>, now: Duration) -> Seq<
        char,
    > {
        match seen {
            None => "board not found"@,
            Some((d, b)) => if self.rested(now) {
                view_hint(self.lens.verdict(d, b), self.lens.views@.len() + 1)
            } else {
                "hold..."@
            },
        }
    }

    /// Takes in a frame while views are collected: the board that was seen in it, if any. The
    /// lens is solved as soon as there are enough views.
    pub fn lens_frame(&mut self, seen: Option<(Detection, Bearing)>, now: Duration) -> (r: RunStep)
        requires
            old(self).wf(),
            old(self).progress.phase is Lens,
            old(self).lens.views@.len() < usize::MAX,
        ensures
            final(self).wf(),
            final(self).same_request(*old(self)),
            rank(final(self).progress.phase) >= rank(old(self).progress.phase),
            final(self).sweep == old(self).sweep,
            final(self).span == old(self).span,
            final(self).lens.min_corner_fraction == old(self).lens.min_corner_fraction,
            final(self).lens.min_novelty_cells == old(self).lens.min_novelty_cells,
            old(self).lens.spread_out() ==> final(self).lens.spread_out(),
            final(self).progress.result == old(self).progress.result,
            final(self).progress.hint@ == old(self).lens_hint(seen, now),
            match seen {
                Some((d, _)) => final(self).progress.detection == Some(d),
                None => final(self).progress.detection is None,
            },
            if old(self).takes(seen, now) {
                &&& final(self).lens.views@.len() == old(self).lens.views@.len() + 1
                &&& final(self).lens.views@.drop_last() == old(self).lens.views@
                &&& final(self).lens.views@.last().same((seen->0).0)
                &&& final(self).lens.signatures@.drop_last() == old(self).lens.signatures@
                &&& final(self).lens.signatures@.last().parts@ == lens::signature_parts(
                    (seen->0).0,
                    (seen->0).1,
                )
            } else {
                &&& final(self).lens.views@ == old(self).lens.views@
                &&& final(self).lens.signatures@ == old(self).lens.signatures@
            },
            final(self).last_accept == if old(self).takes(seen, now) {
                now
            } else {
                old(self).last_accept
            },
            if final(self).lens.views@.len() >= old(self).request.views_needed {
                final(self).progress.phase is Solving && r == RunStep::Solve
            } else {
                final(self).progress.phase is Lens && r == RunStep::Receive
            },
    {
        let mut hint = String::new();
        let mut detection: Option<Detection> = None;
        match seen {
            None => {
                hint.append("board not found");
                proof {
                    assert(hint@ =~= "board not found"@);
                }
            },
            Some((d, bearing)) => {
                if now.saturating_sub(self.last_accept).nanos > HOLD {
                    match self.lens.consider(&d, &bearing) {
                        ViewVerdict::Accepted => {
                            self.last_accept = now;
                            hint.append("view ");
                            text::append_decimal(&mut hint, self.lens.len() as u64);
                            hint.append(" taken; move the board");
                            proof {
                                assert(hint@ =~= view_hint(
                                    ViewVerdict::Accepted,
                                    old(self).lens.views@.len() + 1,
                                ));
                            }
                        },
                        ViewVerdict::NotNovel => {
                            hint.append("move the board to a new position or angle");
                            proof {
                                assert(hint@ =~= view_hint(ViewVerdict::NotNovel, 0));
                            }
                        },
                        ViewVerdict::TooFewCorners => {
                            hint.append("show more of the board");
                            proof {
                                assert(hint@ =~= view_hint(ViewVerdict::TooFewCorners, 0));
                            }
                        },
                    }
                } else {
                    hint.append("hold...");
                    proof {
                        assert(hint@ =~= "hold..."@);
                    }
                }
                detection = Some(d);
            },
        }
        let accepted: usize = self.lens.len();
        self.progress.detection = detection;
        self.progress.hint = hint;
        if accepted >= self.request.views_needed {
            self.progress.phase = CalibrationPhase::Solving;
            RunStep::Solve
        } else {
            self.progress.phase = CalibrationPhase::Lens {
                accepted,
                needed: self.request.views_needed,
            };
            RunStep::Receive
        }
    }

    /// Takes in the outcome of the solve: the run fails, is done, or goes on to the sweep.
    pub fn solved(&mut self, outcome: Result<CameraCalibration, SolveError>) -> (r: RunStep)
        requires
            old(self).wf(),
            old(self).progress.phase is Solving,
        ensures
            final(self).wf(),
            final(self).same_request(*old(self)),
            rank(final(self).progress.phase) >= rank(old(self).progress.phase),
            final(self).lens == old(self).lens,
            final(self).span == old(self).span,
            final(self).last_accept == old(self).last_accept,
            final(self).progress.detection == old(self).progress.detection,
            match outcome {
                Err(e) => {
                    &&& final(self).progress.phase matches CalibrationPhase::Failed(words)
                        && words@ == "lens solve failed: "@ + e.message()
                    &&& final(self).progress.result is None
                    &&& final(self).progress.hint == old(self).progress.hint
                    &&& final(self).sweep == old(self).sweep
                    &&& r == RunStep::Finished
                },
                Ok(c) => {
                    &&& final(self).progress.result == Some(c)
                    &&& if old(self).request.sweep_frames_needed == 0 {
                        &&& final(self).progress.phase is Done
                        &&& final(self).progress.hint == old(self).progress.hint
                        &&& final(self).sweep == old(self).sweep
                        &&& r == RunStep::Finished
                    } else {
                        &&& final(self).progress.phase == (CalibrationPhase::RollingShutter {
                            accepted: 0,
                            needed: old(self).request.sweep_frames_needed,
                        })
                        &&& final(self).progress.hint@
                            == "sweep the board sideways, keeping it fully in view"@
                        &&& final(self).sweep matches Some(s) && s.calibration == c && s.spec
                            == old(self).request.board && s.min_speed_span_px_s.bits
                            == rolling::MIN_SPEED_SPAN && s.prev is None && s.samples@.len() == 0
                        &&& r == RunStep::Receive
                    }
                },
            },
    {
        match outcome {
            Err(e) => {
                let mut words = "lens solve failed: ".to_owned();
                words.append(e.to_string().as_str());
                self.progress.phase = CalibrationPhase::Failed(words);
                RunStep::Finished
            },
            Ok(c) => {
                self.progress.result = Some(c);
                if self.request.sweep_frames_needed == 0 {
                    self.progress.phase = CalibrationPhase::Done;
                    return RunStep::Finished;
                }
                self.sweep = Some(RollingShutterCalibrator::new(c, self.request.board));
                self.progress.phase = CalibrationPhase::RollingShutter {
                    accepted: 0,
                    needed: self.request.sweep_frames_needed,
                };
                self.progress.hint = "sweep the board sideways, keeping it fully in view".to_owned();
                RunStep::Receive
            },
        }
    }

    /// What follows a frame of the sweep: the fit, once there are enough frames and they span
    /// enough speed.
    pub open spec fn after_sweep_frame(self, samples: nat, span: F64) -> RunStep {
        if self.covered(samples, span) {
            RunStep::Fit
        } else {
            RunStep::Receive
        }
    }

    fn settle(&mut self, hint: String, span: F64) -> (r: RunStep)
        requires
            old(self).wf(),
            old(self).progress.phase is RollingShutter,
        ensures
            final(self).wf(),
            final(self).same_request(*old(self)),
            rank(final(self).progress.phase) >= rank(old(self).progress.phase),
            final(self).lens == old(self).lens,
            final(self).sweep == old(self).sweep,
            final(self).last_accept == old(self).last_accept,
            final(self).progress.detection == old(self).progress.detection,
            final(self).progress.result == old(self).progress.result,
            final(self).progress.hint == hint,
            final(self).span == span,
            final(self).progress.phase == old(self).sweep_phase(),
            r == old(self).after_sweep_frame(old(self).swept(), span),
    {
        let (accepted, spanned): (usize, bool) = match &self.sweep {
            Some(s) => (s.samples(), s.min_speed_span_px_s.at_most(&span)),
            None => (0, false),
        };
        self.span = span;
        self.progress.hint = hint;
        self.progress.phase = CalibrationPhase::RollingShutter {
            accepted,
            needed: self.request.sweep_frames_needed,
        };
        if accepted >= self.request.sweep_frames_needed && spanned {
            RunStep::Fit
        } else {
            RunStep::Receive
        }
    }

    /// Takes in a frame of the sweep: the board that was seen in it, if any. `span` is the range of
    /// velocities of the samples so far, fastest minus slowest.
    pub fn sweep_frame(&mut self, seen: Option<Detection>, span: F64) -> (r: RunStep)
        requires
            old(self).wf(),
            old(self).progress.phase is RollingShutter,
        ensures
            final(self).wf(),
            final(self).same_request(*old(self)),
            rank(final(self).progress.phase) >= rank(old(self).progress.phase),
            final(self).lens == old(self).lens,
            final(self).last_accept == old(self).last_accept,
            final(self).progress.result == old(self).progress.result,
            final(self).progress.phase is RollingShutter,
            final(self).sweep->0.samples@ == old(self).sweep->0.samples@,
            final(self).sweep->0.same_setup(old(self).sweep->0),
            final(self).span == span,
            r is Fit ==> final(self).covered(final(self).swept(), final(self).span),
            final(self).progress.detection == seen,
            match seen {
                None => {
                    &&& final(self).sweep == old(self).sweep
                    &&& final(self).progress.hint@ == "board not found"@
                    &&& final(self).progress.phase == old(self).sweep_phase()
                    &&& r == old(self).after_sweep_frame(old(self).swept(), span)
                },
                Some(d) => {
                    let s = old(self).sweep->0;
                    let complete = d.corners@.len() == s.spec.corner_count();
                    &&& if complete {
                        final(self).sweep->0.prev matches Some(p) && p.same(d)
                    } else {
                        final(self).sweep->0.prev is None
                    }
                    &&& if s.measurable(d) {
                        &&& r matches RunStep::Measure { pairs, elapsed } && pairs@
                            == rolling::pairs_of(d.corners@, s.prev->0.corners@) && elapsed.nanos
                            == d.timestamp.nanos - s.prev->0.timestamp.nanos
                        &&& final(self).progress.hint == old(self).progress.hint
                        &&& final(self).progress.phase == old(self).progress.phase
                    } else {
                        &&& final(self).progress.hint@ == sweep_hint(
                            if complete {
                                SweepVerdict::NoPair
                            } else {
                                SweepVerdict::Incomplete
                            },
                            Seq::empty(),
                            Seq::empty(),
                        )
                        &&& final(self).progress.phase == old(self).sweep_phase()
                        &&& r == old(self).after_sweep_frame(old(self).swept(), span)
                    }
                },
            },
    {
        let d = match seen {
            None => {
                self.progress.detection = None;
                return self.settle("board not found".to_owned(), span);
            },
            Some(d) => d,
        };
        let mut sweep = match self.sweep.take() {
            Some(s) => s,
            None => return RunStep::Finished,
        };
        let step = sweep.feed(&d);
        self.sweep = Some(sweep);
        self.progress.detection = Some(d);
        match step {
            SweepStep::Measure { pairs, elapsed } => {
                self.span = span;
                RunStep::Measure { pairs, elapsed }
            },
            SweepStep::Verdict(verdict) => {
                let hint = match verdict {
                    SweepVerdict::Incomplete => "keep the whole board in view".to_owned(),
                    _ => "keep sweeping".to_owned(),
                };
                self.settle(hint, span)
            },
        }
    }

    /// Takes in what was measured of a frame of the sweep; nothing where its shear cannot be
    /// told. `span` is the range of velocities of the samples, this one with them; `velocity` and
    /// `range` are its velocity and that range, in words.
    pub fn sweep_measured(
        &mut self,
        sample: Option<Sample>,
        velocity: &str,
        range: &str,
        span: F64,
    ) -> (r: RunStep)
        requires
            old(self).wf(),
            old(self).progress.phase is RollingShutter,
        ensures
            final(self).wf(),
            final(self).same_request(*old(self)),
            rank(final(self).progress.phase) >= rank(old(self).progress.phase),
            final(self).lens == old(self).lens,
            final(self).last_accept == old(self).last_accept,
            final(self).progress.result == old(self).progress.result,
            final(self).progress.detection == old(self).progress.detection,
            final(self).sweep->0.same_setup(old(self).sweep->0),
            final(self).sweep->0.prev == old(self).sweep->0.prev,
            final(self).span == span,
            final(self).sweep->0.samples@ == match sample {
                Some(s) => old(self).sweep->0.samples@.push(s),
                None => old(self).sweep->0.samples@,
            },
            final(self).progress.hint@ == sweep_hint(
                match sample {
                    Some(s) => SweepVerdict::Accepted {
                        velocity_px_s: s.velocity_px_s,
                        shear: s.shear,
                    },
                    None => SweepVerdict::NoPair,
                },
                velocity@,
                range@,
            ),
            final(self).progress.phase == final(self).sweep_phase(),
            r == old(self).after_sweep_frame(final(self).swept(), span),
            r is Fit ==> final(self).covered(final(self).swept(), final(self).span),
    {
        let mut sweep = match self.sweep.take() {
            Some(s) => s,
            None => return RunStep::Finished,
        };
        let verdict = sweep.measured(sample);
        self.sweep = Some(sweep);
        let hint = match verdict {
            SweepVerdict::Accepted { .. } => {
                let mut words = "sweep back and forth: ".to_owned();
                words.append(velocity);
                words.append(" px/s, speed range ");
                words.append(range);
                words.append(" px/s");
                words
            },
            _ => "keep sweeping".to_owned(),
        };
        self.settle(hint, span)
    }

    /// Takes in the fit of shear against velocity, and ends the run. The sweep is covered by then.
    pub fn fitted(&mut self, fit: Option<Regression>) -> (r: RunStep)
        requires
            old(self).wf(),
            old(self).progress.phase is RollingShutter,
            old(self).covered(old(self).swept(), old(self).span),
        ensures
            final(self).wf(),
            final(self).same_request(*old(self)),
            rank(final(self).progress.phase) >= rank(old(self).progress.phase),
            final(self).lens == old(self).lens,
            final(self).sweep == old(self).sweep,
            final(self).span == old(self).span,
            final(self).last_accept == old(self).last_accept,
            final(self).progress.detection == old(self).progress.detection,
            final(self).progress.phase is Done,
            final(self).progress.hint@ == "done"@,
            final(self).progress.result == Some(old(self).with_estimate(fit)),
            r == RunStep::Finished,
    {
        if let Some(sweep) = &self.sweep {
            let mut result = sweep.calibration;
            result.rolling_shutter = sweep.estimate(self.span, fit);
            self.progress.result = Some(result);
        }
        self.progress.phase = CalibrationPhase::Done;
        self.progress.hint = "done".to_owned();
        proof {
            assert(self.progress.result == Some(self.with_estimate(fit)));
        }
        RunStep::Finished
    }
}

/// A run with a sweep is done only once the sweep holds as many samples as were asked for, over a
/// range of speeds of six hundred at least. Its result is the calibration of the lens, with nothing
/// changed but the rolling shutter; too few samples give none.
pub proof fn done_only_after_the_whole_sweep(run: CalibrationRun)
    requires
        run.wf(),
        run.progress.phase is Done,
        run.request.sweep_frames_needed > 0,
    ensures
        run.sweep is Some,
        run.swept() >= run.request.sweep_frames_needed,
        (F64 { bits: rolling::MIN_SPEED_SPAN }).spec_le(run.span),
        run.progress.result matches Some(c) && c == (CameraCalibration {
            rolling_shutter: c.rolling_shutter,
            ..run.sweep->0.calibration
        }),
        run.swept() < rolling::MIN_SAMPLES ==> run.progress.result->0.rolling_shutter is None,
        run.progress.result->0.rolling_shutter matches Some(e) ==> e.samples == run.swept(),
{
    let fit = choose|fit: Option<Regression>|
        run.progress.result == Some(#[trigger] run.with_estimate(fit));
    assert(run.progress.result == Some(run.with_estimate(fit)));
    assert(run.sweep->0.samples.len() == run.swept());
}

/// A run that is left while it sweeps has the calibration of the lens to show, is not done, and has
/// not failed.
pub proof fn a_sweep_that_is_left_keeps_the_lens(run: CalibrationRun)
    requires
        run.wf(),
        run.progress.phase is RollingShutter,
    ensures
        run.progress.result == Some(run.sweep->0.calibration),
        !(run.progress.phase is Done),
        !(run.progress.phase is Failed),
{
}

/// A view is looked at from a quarter of the corners on, rounded down, and from eight on at least.
pub proof fn a_quarter_of_the_corners(board: ChessboardSpec)
    ensures
        least_corners(board) >= 8,
        4 * least_corners(board) > board.corner_count() - 4,
        least_corners(board) > 8 ==> 4 * least_corners(board) <= board.corner_count(),
{
}

/// Between two views seven tenths of a second must pass.
pub proof fn views_are_seven_tenths_apart(run: CalibrationRun, now: Duration)
    ensures
        run.rested(now) <==> now.nanos > run.last_accept.nanos + 700_000_000,
{
}

/// A view is taken where the board was seen, the last view was long enough ago, and the view is one
/// to accept; each on its own is not enough.
pub proof fn when_a_view_is_taken(run: CalibrationRun, d: Detection, b: Bearing, now: Duration)
    ensures
        !run.takes(None, now),
        run.takes(Some((d, b)), now) <==> now.nanos > run.last_accept.nanos + 700_000_000
            && run.lens.verdict(d, b) == ViewVerdict::Accepted,
{
}

/// A sweep ends with a fit as soon as it has as many samples as were asked for and their speeds
/// range as far as they must, and goes on until then.
pub proof fn a_sweep_goes_on_until_it_is_covered(
    run: CalibrationRun,
    sweep: RollingShutterCalibrator,
    samples: nat,
    span: F64,
)
    requires
        run.sweep == Some(sweep),
    ensures
        run.after_sweep_frame(samples, span) is Fit <==> samples
            >= run.request.sweep_frames_needed && sweep.min_speed_span_px_s.spec_le(span),
        run.after_sweep_frame(samples, span) is Fit || run.after_sweep_frame(
            samples,
            span,
        ) is Receive,
{
}

/// A result is that of the lens, but for the rolling shutter, which is what comes of the fit.
pub proof fn a_fit_changes_only_the_rolling_shutter(
    run: CalibrationRun,
    sweep: RollingShutterCalibrator,
    fit: Regression,
)
    requires
        run.sweep == Some(sweep),
        sweep.samples@.len() >= 6,
        sweep.min_speed_span_px_s.spec_le(run.span),
    ensures
        run.with_estimate(None).rolling_shutter is None,
        run.with_estimate(Some(fit)).rolling_shutter is Some,
        ({
            let (c, s) = (run.with_estimate(Some(fit)), sweep.calibration);
            &&& c.width == s.width && c.height == s.height
            &&& c.fx == s.fx && c.fy == s.fy && c.cx == s.cx && c.cy == s.cy
            &&& c.k1 == s.k1 && c.k2 == s.k2 && c.k3 == s.k3 && c.p1 == s.p1 && c.p2 == s.p2
            &&& c.reproj_error_px == s.reproj_error_px && c.views == s.views && c.board == s.board
        }),
{
}

/// The phase of a sweep says how many samples there are, and how many were asked for.
pub proof fn a_sweep_says_how_far_it_has_got(run: CalibrationRun, sweep: RollingShutterCalibrator)
    requires
        run.sweep == Some(sweep),
        sweep.samples@.len() <= usize::MAX,
    ensures
        run.sweep_phase() matches CalibrationPhase::RollingShutter { accepted, needed } && accepted
            == sweep.samples@.len() && needed == run.request.sweep_frames_needed,
{
}

} // verus!
