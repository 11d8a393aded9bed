//! The lens: collecting diverse views of the board, and what is solved from them.
use vstd::arithmetic::power2;
use vstd::prelude::*;
use vstd::string::*;

use crate::calibration::board::{self, ChessboardSpec, Corner, Detection};
use crate::double::F64;
use crate::single::{self, F32};
use crate::text;

verus! {

/// Three quarters, as the bits of a single.
pub const MIN_CORNER_FRACTION: u32 = 0x3f40_0000;

/// One and a half, as the bits of a single.
pub const MIN_NOVELTY_CELLS: u32 = 0x3fc0_0000;

/// One, as the bits of a single.
pub const ONE: u32 = 0x3f80_0000;

/// Two, as the bits of a single: the cells that a view halved in size differs by, and a radian.
pub const TWO: u32 = 0x4000_0000;

/// The views that a solve needs at least.
pub const MIN_VIEWS: usize = 3;

/// Rolling-shutter result.
#[derive(Debug, Clone, Copy, PartialEq, Eq, Structural)]
pub struct RollingShutter {
    /// Time between the exposure of two consecutive rows, microseconds.
    pub line_delay_us: F64,
    /// Time to read the whole frame, milliseconds.
    pub readout_ms: F64,
    /// Frames the estimate is based on.
    pub samples: usize,
    /// RMS of the per-frame line-delay estimates around the mean, microseconds. Small means the
    /// sweeps agreed with each other.
    pub spread_us: F64,
}

/// A pinhole camera with Brown-Conrady distortion, in pixels, for one stream size.
#[derive(Debug, Clone, Copy, PartialEq, Eq, Structural)]
pub struct CameraCalibration {
    pub width: u32,
    pub height: u32,
    pub fx: F64,
    pub fy: F64,
    pub cx: F64,
    pub cy: F64,
    pub k1: F64,
    pub k2: F64,
    pub k3: F64,
    pub p1: F64,
    pub p2: F64,
    /// Mean reprojection error of the solve, pixels.
    pub reproj_error_px: F64,
    /// Views used.
    pub views: usize,
    pub board: ChessboardSpec,
    pub rolling_shutter: Option<RollingShutter>,
}

/// The distortion that a solver ended up with.
#[derive(Debug, Clone)]
pub enum Distortion {
    BrownConrady5 { k1: F64, k2: F64, k3: F64, p1: F64, p2: F64 },
    Undistorted,
    /// Any other model, in words.
    Other(String),
}

/// What a solver ended up with.
#[derive(Debug, Clone)]
pub struct Solution {
    pub fx: F64,
    pub fy: F64,
    pub cx: F64,
    pub cy: F64,
    pub distortion: Distortion,
    pub mean_reproj_error: F64,
}

/// Why there is no calibration.
#[derive(Debug, Clone)]
pub enum SolveError {
    TooFewViews(usize),
    /// The solver's own words.
    Solver(String),
    UnexpectedModel(String),
}

impl SolveError {
    pub open spec fn message(self) -> Seq<char> {
        match self {
            SolveError::TooFewViews(n) => "need at least 3 views, have "@ + text::decimal(n as nat),
            SolveError::Solver(words) => words@,
            SolveError::UnexpectedModel(words) =>
                "solver returned an unexpected distortion model: "@ + words@,
        }
    }

    /// The error in words.
    pub fn to_string(&self) -> (r: String)
        ensures
            r@ == self.message(),
    {
        match self {
            SolveError::TooFewViews(n) => {
                let mut out = "need at least 3 views, have ".to_owned();
                text::append_decimal(&mut out, *n as u64);
                out
            },
            SolveError::Solver(words) => words.clone(),
            SolveError::UnexpectedModel(words) => {
                let mut out = "solver returned an unexpected distortion model: ".to_owned();
                out.append(words.as_str());
                out
            },
        }
    }
}

/// Why a frame was or was not taken as a calibration view.
#[derive(Debug, Clone, Copy, PartialEq, Eq, Structural)]
pub enum ViewVerdict {
    Accepted,
    TooFewCorners,
    /// Too similar to a view already taken; move the board.
    NotNovel,
}

/// What a view looks like in cell units: centroid x, centroid y, scale, orientation.
#[derive(Debug, Clone, Copy)]
pub struct Signature {
    pub parts: [F32; 4],
}

/// The two numbers of a signature that are transcendental.
#[derive(Debug, Clone, Copy, PartialEq, Eq, Structural)]
pub struct Bearing {
    /// The binary logarithm of the size of a cell.
    pub octaves: F32,
    /// The angle of the line between the ends of the board, in radians; zero without ends.
    pub angle: F32,
}

/// What a signature is made of, as far as no logarithm or angle is taken: the size of a cell, at
/// least a pixel; the centroid in cells; and the way from one to the other of the two corners
/// farthest apart along the first axis of the grid.
#[derive(Debug, Clone, Copy)]
pub struct Pose {
    pub cell: F32,
    pub center: [F32; 2],
    pub along: Option<[F32; 2]>,
}

/// Collects diverse board views.
#[derive(Debug)]
pub struct LensCalibrator {
    pub spec: ChessboardSpec,
    /// Accept a view only if it has at least this fraction of the inner corners.
    pub min_corner_fraction: F32,
    /// Accept a view only if it differs this much (in cell widths) from every accepted view:
    /// centroid moved, or size/orientation changed by the equivalent amount.
    pub min_novelty_cells: F32,
    pub views: Vec<Detection>,
    pub signatures: Vec<Signature>,
}

/// The label of `a` comes before that of `b`: by the first coordinate, then by the second.
pub open spec fn label_before(a: Corner, b: Corner) -> bool {
    a.grid.0 < b.grid.0 || (a.grid.0 == b.grid.0 && a.grid.1 < b.grid.1)
}

/// The corner with the first label; the first of several.
pub open spec fn first_corner(corners: Seq<Corner>, i: int) -> bool {
    &&& 0 <= i < corners.len()
    &&& forall|j: int| 0 <= j < corners.len() ==> !label_before(#[trigger] corners[j], corners[i])
    &&& forall|j: int| 0 <= j < i ==> label_before(corners[i], #[trigger] corners[j])
}

/// The corner with the last label; the first of several.
pub open spec fn last_corner(corners: Seq<Corner>, i: int) -> bool {
    &&& 0 <= i < corners.len()
    &&& forall|j: int| 0 <= j < corners.len() ==> !label_before(corners[i], #[trigger] corners[j])
    &&& forall|j: int| 0 <= j < i ==> label_before(#[trigger] corners[j], corners[i])
}

fn comes_before(a: &Corner, b: &Corner) -> (r: bool)
    ensures
        r == label_before(*a, *b),
{
    a.grid.0 < b.grid.0 || (a.grid.0 == b.grid.0 && a.grid.1 < b.grid.1)
}

/// The corners with the first and the last label.
pub fn ends(corners: &Vec<Corner>) -> (r: Option<(Corner, Corner)>)
    ensures
        r is None <==> corners@.len() == 0,
        r matches Some((a, b)) ==> {
            &&& exists|i: int| #[trigger] first_corner(corners@, i) && a == corners@[i]
            &&& exists|i: int| #[trigger] last_corner(corners@, i) && b == corners@[i]
        },
{
    if corners.len() == 0 {
        return None;
    }
    let mut a: usize = 0;
    let mut b: usize = 0;
    let mut i: usize = 1;
    while i < corners.len()
        invariant
            1 <= i <= corners.len(),
            a < i,
            b < i,
            forall|j: int| 0 <= j < i ==> !label_before(#[trigger] corners@[j], corners@[a as int]),
            forall|j: int| 0 <= j < a ==> label_before(corners@[a as int], #[trigger] corners@[j]),
            forall|j: int| 0 <= j < i ==> !label_before(corners@[b as int], #[trigger] corners@[j]),
            forall|j: int| 0 <= j < b ==> label_before(#[trigger] corners@[j], corners@[b as int]),
        decreases corners.len() - i,
    {
        if comes_before(&corners[i], &corners[a]) {
            a = i;
        }
        if comes_before(&corners[b], &corners[i]) {
            b = i;
        }
        i = i + 1;
    }
    proof {
        assert(first_corner(corners@, a as int));
        assert(last_corner(corners@, b as int));
    }
    Some((corners[a], corners[b]))
}

/// What a view's signature is made of.
pub fn pose(d: &Detection) -> (r: Pose)
    ensures
        r.cell == d.cell_px.spec_larger(F32 { bits: ONE }),
        forall|axis: int|
            0 <= axis < 2 ==> #[trigger] r.center[axis] == board::px_sum(
                d.corners@,
                axis,
            ).spec_over(board::corner_weight(d.corners@)).spec_over(r.cell),
        r.along is None <==> d.corners@.len() == 0,
        r.along matches Some(way) ==> exists|i: int, j: int|
            #![trigger first_corner(d.corners@, i), last_corner(d.corners@, j)]
            first_corner(d.corners@, i) && last_corner(d.corners@, j) && forall|axis: int|
                0 <= axis < 2 ==> #[trigger] way[axis] == d.corners@[j].px[axis].spec_minus(
                    d.corners@[i].px[axis],
                ),
{
    let cell = d.cell_px.larger(&F32 { bits: ONE });
    let c = d.centroid();
    let along = match ends(&d.corners) {
        Some((a, b)) => Some([b.px[0].minus(&a.px[0]), b.px[1].minus(&a.px[1])]),
        None => None,
    };
    Pose { cell, center: [c[0].over(&cell), c[1].over(&cell)], along }
}

/// The numbers of a view's signature: where it is and how large, in cells.
pub open spec fn signature_parts(d: Detection, b: Bearing) -> Seq<F32> {
    let cell = d.cell_px.spec_larger(F32 { bits: ONE });
    let weight = board::corner_weight(d.corners@);
    let two = F32 { bits: TWO };
    seq![
        board::px_sum(d.corners@, 0).spec_over(weight).spec_over(cell),
        board::px_sum(d.corners@, 1).spec_over(weight).spec_over(cell),
        two.spec_times(b.octaves),
        b.angle.spec_times(two),
    ]
}

/// A view's signature.
pub fn signature(d: &Detection, bearing: &Bearing) -> (r: Signature)
    ensures
        r.parts@ == signature_parts(*d, *bearing),
{
    let p = pose(d);
    let two = F32 { bits: TWO };
    let r = Signature {
        parts: [p.center[0], p.center[1], two.times(&bearing.octaves), bearing.angle.times(&two)],
    };
    proof {
        assert(p.center[0] == p.center[0] && p.center[1] == p.center[1]);
        assert(r.parts@ =~= signature_parts(*d, *bearing));
    }
    r
}

/// The square of the difference of two signatures in one of their numbers.
pub open spec fn gap(a: Seq<F32>, b: Seq<F32>, i: int) -> F32 {
    let d = a[i].spec_minus(b[i]);
    d.spec_times(d)
}

/// Two signatures are at least `least` apart.
pub open spec fn apart(a: Seq<F32>, b: Seq<F32>, least: F32) -> bool {
    gap(a, b, 0).spec_plus(gap(a, b, 1)).spec_plus(gap(a, b, 2)).spec_plus(
        gap(a, b, 3),
    ).spec_root_reaches(least)
}

/// A signature is at least `least` apart from each of those that were taken.
pub open spec fn novel(taken: Seq<Signature>, parts: Seq<F32>, least: F32) -> bool {
    forall|i: int| 0 <= i < taken.len() ==> apart(#[trigger] taken[i].parts@, parts, least)
}

fn square(a: &F32, b: &F32) -> (r: F32)
    ensures
        r == a.spec_minus(*b).spec_times(a.spec_minus(*b)),
{
    let d = a.minus(b);
    d.times(&d)
}

fn is_novel(taken: &Vec<Signature>, s: &Signature, least: &F32) -> (r: bool)
    ensures
        r == novel(taken@, s.parts@, *least),
{
    let mut i: usize = 0;
    while i < taken.len()
        invariant
            i <= taken.len(),
            forall|j: int| 0 <= j < i ==> apart(#[trigger] taken@[j].parts@, s.parts@, *least),
        decreases taken.len() - i,
    {
        let t = &taken[i];
        let sum = square(&t.parts[0], &s.parts[0]).plus(&square(&t.parts[1], &s.parts[1])).plus(
            &square(&t.parts[2], &s.parts[2]),
        ).plus(&square(&t.parts[3], &s.parts[3]));
        if !sum.root_reaches(least) {
            proof {
                assert(!apart(taken@[i as int].parts@, s.parts@, *least));
            }
            return false;
        }
        i = i + 1;
    }
    true
}

impl LensCalibrator {
    /// A signature for each view.
    pub open spec fn wf(self) -> bool {
        &&& self.views@.len() == self.signatures@.len()
        &&& self.spec.countable()
    }

    /// The view shows fewer corners than are asked for.
    pub open spec fn too_few(self, d: Detection) -> bool {
        F32::of_nat(d.corners@.len()).spec_lt(
            self.min_corner_fraction.spec_times(F32::of_nat(self.spec.corner_count() as nat)),
        )
    }

    /// No two of the accepted views are nearer to each other than is asked for.
    pub open spec fn spread_out(self) -> bool {
        forall|i: int, j: int|
            0 <= i < j < self.signatures@.len() ==> apart(
                #[trigger] self.signatures@[i].parts@,
                #[trigger] self.signatures@[j].parts@,
                self.min_novelty_cells,
            )
    }

    pub open spec fn verdict(self, d: Detection, b: Bearing) -> ViewVerdict {
        if self.too_few(d) {
            ViewVerdict::TooFewCorners
        } else if !novel(self.signatures@, signature_parts(d, b), self.min_novelty_cells) {
            ViewVerdict::NotNovel
        } else {
            ViewVerdict::Accepted
        }
    }

    pub fn new(spec: ChessboardSpec) -> (r: LensCalibrator)
        requires
            spec.countable(),
        ensures
            r.wf(),
            r.spread_out(),
            r.spec == spec,
            r.min_corner_fraction.bits == MIN_CORNER_FRACTION,
            r.min_novelty_cells.bits == MIN_NOVELTY_CELLS,
            r.views@.len() == 0,
    {
        LensCalibrator {
            spec,
            min_corner_fraction: F32 { bits: MIN_CORNER_FRACTION },
            min_novelty_cells: F32 { bits: MIN_NOVELTY_CELLS },
            views: Vec::new(),
            signatures: Vec::new(),
        }
    }

    pub fn views(&self) -> (r: &[Detection])
        ensures
            r@ == self.views@,
    {
        self.views.as_slice()
    }

    pub fn len(&self) -> (r: usize)
        ensures
            r == self.views@.len(),
    {
        self.views.len()
    }

    pub fn is_empty(&self) -> (r: bool)
        ensures
            r == (self.views@.len() == 0),
    {
        self.views.len() == 0
    }

    /// Takes a view if it shows enough of the board and is unlike those that were taken.
    #[verifier::spinoff_prover]
    #[verifier::rlimit(60)]
    pub fn consider(&mut self, d: &Detection, bearing: &Bearing) -> (r: ViewVerdict)
        requires
            old(self).wf(),
        ensures
            final(self).wf(),
            old(self).spread_out() ==> final(self).spread_out(),
            r == old(self).verdict(*d, *bearing),
            final(self).spec == old(self).spec,
            final(self).min_corner_fraction == old(self).min_corner_fraction,
            final(self).min_novelty_cells == old(self).min_novelty_cells,
            r == ViewVerdict::Accepted ==> {
                &&& final(self).views@.len() == old(self).views@.len() + 1
                &&& final(self).views@.drop_last() == old(self).views@
                &&& final(self).views@.last().same(*d)
                &&& final(self).signatures@.drop_last() == old(self).signatures@
                &&& final(self).signatures@.last().parts@ == signature_parts(*d, *bearing)
            },
            r != ViewVerdict::Accepted ==> {
                &&& final(self).views@ == old(self).views@
                &&& final(self).signatures@ == old(self).signatures@
            },
    {
        proof {
            let (a, b) = (
                board::inner(self.spec.squares_x) as int,
                board::inner(self.spec.squares_y) as int,
            );
            assert(a * b >= 0) by (nonlinear_arith)
                requires
                    a >= 0,
                    b >= 0,
            ;
        }
        let needed = self.min_corner_fraction.times(
            &F32::from_u64(self.spec.inner_count() as u64),
        );
        if F32::from_u64(d.corners.len() as u64).less(&needed) {
            return ViewVerdict::TooFewCorners;
        }
        let s = signature(d, bearing);
        if !is_novel(&self.signatures, &s, &self.min_novelty_cells) {
            return ViewVerdict::NotNovel;
        }
        let ghost (before, taken) = (self.views@, self.signatures@);
        self.signatures.push(s);
        self.views.push(d.duplicate());
        proof {
            assert(self.views@.drop_last() =~= before);
            assert(self.signatures@.drop_last() =~= taken);
        }
        ViewVerdict::Accepted
    }

    /// Whether there are enough views to solve.
    pub fn enough_views(&self) -> (r: Result<(), SolveError>)
        ensures
            if self.views@.len() < MIN_VIEWS {
                r == Err::<(), SolveError>(SolveError::TooFewViews(self.views@.len() as usize))
            } else {
                r is Ok
            },
            r is Ok <==> self.views@.len() >= 3,
    {
        if self.views.len() < MIN_VIEWS {
            Err(SolveError::TooFewViews(self.views.len()))
        } else {
            Ok(())
        }
    }

    /// The calibration that a solution of all accepted views is.
    pub open spec fn calibration(
        self,
        width: u32,
        height: u32,
        s: Solution,
        k: (F64, F64, F64, F64, F64),
    ) -> CameraCalibration {
        CameraCalibration {
            width,
            height,
            fx: s.fx,
            fy: s.fy,
            cx: s.cx,
            cy: s.cy,
            k1: k.0,
            k2: k.1,
            k3: k.2,
            p1: k.3,
            p2: k.4,
            reproj_error_px: s.mean_reproj_error,
            views: self.views@.len() as usize,
            board: self.spec,
            rolling_shutter: None,
        }
    }

    /// The outcome of a solve with all accepted views. Needs at least 3, better 10 or more.
    pub fn solve(&self, width: u32, height: u32, solved: Result<Solution, String>) -> (r: Result<
        CameraCalibration,
        SolveError,
    >)
        ensures
            if self.views@.len() < MIN_VIEWS {
                r == Err::<CameraCalibration, SolveError>(
                    SolveError::TooFewViews(self.views@.len() as usize),
                )
            } else {
                match solved {
                    Err(words) => r == Err::<CameraCalibration, SolveError>(
                        SolveError::Solver(words),
                    ),
                    Ok(s) => match s.distortion {
                        Distortion::BrownConrady5 { k1, k2, k3, p1, p2 } => r == Ok::<
                            CameraCalibration,
                            SolveError,
                        >(self.calibration(width, height, s, (k1, k2, k3, p1, p2))),
                        Distortion::Undistorted => {
                            let zero = F64 { bits: 0 };
                            r == Ok::<CameraCalibration, SolveError>(
                                self.calibration(width, height, s, (zero, zero, zero, zero, zero)),
                            )
                        },
                        Distortion::Other(words) => r == Err::<CameraCalibration, SolveError>(
                            SolveError::UnexpectedModel(words),
                        ),
                    },
                }
            },
            r is Ok ==> self.views@.len() >= 3,
            r matches Err(SolveError::TooFewViews(n)) ==> n == self.views@.len() && n < 3,
    {
        if let Err(e) = self.enough_views() {
            return Err(e);
        }
        let s = match solved {
            Ok(s) => s,
            Err(words) => return Err(SolveError::Solver(words)),
        };
        let zero = F64 { bits: 0 };
        let (k1, k2, k3, p1, p2) = match s.distortion {
            Distortion::BrownConrady5 { k1, k2, k3, p1, p2 } => (k1, k2, k3, p1, p2),
            Distortion::Undistorted => (zero, zero, zero, zero, zero),
            Distortion::Other(words) => return Err(SolveError::UnexpectedModel(words)),
        };
        Ok(
            CameraCalibration {
                width,
                height,
                fx: s.fx,
                fy: s.fy,
                cx: s.cx,
                cy: s.cy,
                k1,
                k2,
                k3,
                p1,
                p2,
                reproj_error_px: s.mean_reproj_error,
                views: self.views.len(),
                board: self.spec,
                rolling_shutter: None,
            },
        )
    }
}

/// A difference of nothing, or none at all.
proof fn lemma_no_gap(a: Seq<F32>, i: int)
    ensures
        gap(a, a, i).bits == 0 || gap(a, a, i).nan(),
{
    single::less_itself_is_nothing(a[i]);
    let d = a[i].spec_minus(a[i]);
    single::nothing_comes_of_nothing(d, d);
}

/// A view is no farther than nothing from itself.
pub proof fn a_view_is_not_apart_from_itself(parts: Seq<F32>, least: F32)
    requires
        (F32 { bits: 0 }).spec_lt(least),
    ensures
        !apart(parts, parts, least),
{
    lemma_no_gap(parts, 0);
    lemma_no_gap(parts, 1);
    lemma_no_gap(parts, 2);
    lemma_no_gap(parts, 3);
    let (a, b) = (gap(parts, parts, 0), gap(parts, parts, 1));
    let (c, d) = (gap(parts, parts, 2), gap(parts, parts, 3));
    single::nothing_comes_of_nothing(a, b);
    single::nothing_comes_of_nothing(a.spec_plus(b), c);
    single::nothing_comes_of_nothing(a.spec_plus(b).spec_plus(c), d);
    single::nothing_reaches_nothing(a.spec_plus(b).spec_plus(c).spec_plus(d), least);
}

/// A view that was considered, and taken or found too similar, is found too similar whenever it is
/// considered again: whatever was taken since, as long as a difference is asked for at all.
pub proof fn a_view_is_taken_once(
    first: LensCalibrator,
    later: LensCalibrator,
    d: Detection,
    b: Bearing,
)
    requires
        (F32 { bits: 0 }).spec_lt(first.min_novelty_cells),
        !first.too_few(d),
        later.spec == first.spec,
        later.min_corner_fraction == first.min_corner_fraction,
        later.min_novelty_cells == first.min_novelty_cells,
        first.signatures@.is_prefix_of(later.signatures@),
        first.verdict(d, b) == ViewVerdict::Accepted ==> {
            &&& first.signatures@.len() < later.signatures@.len()
            &&& later.signatures@[first.signatures@.len() as int].parts@ == signature_parts(d, b)
        },
    ensures
        later.verdict(d, b) == ViewVerdict::NotNovel,
{
    let (parts, least) = (signature_parts(d, b), first.min_novelty_cells);
    let k = if first.verdict(d, b) == ViewVerdict::Accepted {
        first.signatures@.len() as int
    } else {
        choose|i: int|
            0 <= i < first.signatures@.len() && !apart(
                #[trigger] first.signatures@[i].parts@,
                parts,
                least,
            )
    };
    a_view_is_not_apart_from_itself(parts, least);
    assert(!apart(later.signatures@[k].parts@, parts, least));
}

/// There is one corner with the first label and one with the last: the ends of a board do not
/// depend on how they are looked for.
pub proof fn ends_are_unique(corners: Seq<Corner>, i: int, j: int)
    ensures
        first_corner(corners, i) && first_corner(corners, j) ==> i == j,
        last_corner(corners, i) && last_corner(corners, j) ==> i == j,
{
    if first_corner(corners, i) && first_corner(corners, j) && i != j {
        assert(label_before(corners[i], corners[j]) || label_before(corners[j], corners[i]));
    }
    if last_corner(corners, i) && last_corner(corners, j) && i != j {
        assert(label_before(corners[i], corners[j]) || label_before(corners[j], corners[i]));
    }
}

/// Four finite numbers.
pub open spec fn finite(parts: Seq<F32>) -> bool {
    parts.len() == 4 && forall|i: int|
        0 <= i < 4 ==> (#[trigger] parts[i]).mag() < single::INFINITY
}

/// How far two numbers are from each other.
pub open spec fn distance(a: F32, b: F32) -> nat {
    if a.value() >= b.value() {
        (a.value() - b.value()) as nat
    } else {
        (b.value() - a.value()) as nat
    }
}

proof fn lemma_gap(a: Seq<F32>, b: Seq<F32>, i: int)
    requires
        finite(a),
        finite(b),
        0 <= i < 4,
    ensures
        gap(a, b, i).bits <= single::INFINITY,
{
    single::the_square_of_a_difference(a[i], b[i]);
}

/// Four numbers added up are no less than any one of them.
#[verifier::spinoff_prover]
#[verifier::rlimit(40)]
proof fn lemma_sum_of_four(p: F32, q: F32, r: F32, s: F32) -> (sum: F32)
    requires
        p.bits <= single::INFINITY,
        q.bits <= single::INFINITY,
        r.bits <= single::INFINITY,
        s.bits <= single::INFINITY,
    ensures
        sum == p.spec_plus(q).spec_plus(r).spec_plus(s),
        sum.bits <= single::INFINITY,
        p.bits <= sum.bits && q.bits <= sum.bits && r.bits <= sum.bits && s.bits <= sum.bits,
        q.bits == 0 && r.bits == 0 && s.bits == 0 ==> sum == p,
        p.bits == 0 && r.bits == 0 && s.bits == 0 ==> sum == q,
        p.bits == 0 && q.bits == 0 && s.bits == 0 ==> sum == r,
        p.bits == 0 && q.bits == 0 && r.bits == 0 ==> sum == s,
{
    let one = p.spec_plus(q);
    single::a_sum_is_no_smaller(p, q);
    let two = one.spec_plus(r);
    single::a_sum_is_no_smaller(one, r);
    single::a_sum_is_no_smaller(two, s);
    two.spec_plus(s)
}

/// The distance that is compared is no less than any one of the four differences.
#[verifier::spinoff_prover]
#[verifier::rlimit(40)]
proof fn lemma_sum_of_gaps(a: Seq<F32>, b: Seq<F32>, i: int)
    requires
        finite(a),
        finite(b),
        0 <= i < 4,
    ensures
        gap(a, b, i).bits <= total(a, b).bits <= single::INFINITY,
        (forall|j: int| 0 <= j < 4 && j != i ==> (#[trigger] gap(a, b, j)).bits == 0) ==> total(a, b)
            == gap(a, b, i),
{
    reveal(total);
    lemma_gap(a, b, 0);
    lemma_gap(a, b, 1);
    lemma_gap(a, b, 2);
    lemma_gap(a, b, 3);
    let (p, q) = (gap(a, b, 0), gap(a, b, 1));
    let (r, s) = (gap(a, b, 2), gap(a, b, 3));
    let sum = lemma_sum_of_four(p, q, r, s);
}

/// A single difference suffices: two views of which one number, be it the centroid's place across
/// or down, the scale or the orientation, differs by what is asked for or more are apart, whatever
/// the other numbers are. What is asked for lies between two to the power -60 and 60: the square of
/// less may be lost.
#[verifier::spinoff_prover]
#[verifier::rlimit(40)]
pub proof fn one_difference_suffices(a: Seq<F32>, b: Seq<F32>, least: F32, i: int)
    requires
        finite(a),
        finite(b),
        0 <= i < 4,
        !least.negative(),
        single::squarable(least.mag()),
        a[i].value() - b[i].value() >= least.value() || b[i].value() - a[i].value()
            >= least.value(),
    ensures
        apart(a, b, least),
{
    lemma_sum_of_gaps(a, b, i);
    let square = lemma_square_reaches(a[i], b[i], least);
    assert(square == gap(a, b, i));
    single::reaching_farther_reaches_nearer(square, total(a, b), least, least);
    lemma_apart_by_total(a, b, least);
}

#[verifier::spinoff_prover]
#[verifier::rlimit(40)]
proof fn lemma_square_reaches(a: F32, b: F32, least: F32) -> (square: F32)
    requires
        a.mag() < single::INFINITY,
        b.mag() < single::INFINITY,
        !least.negative(),
        single::squarable(least.mag()),
        distance(a, b) >= least.value(),
    ensures
        square == a.spec_minus(b).spec_times(a.spec_minus(b)),
        square.bits <= single::INFINITY,
        square.spec_root_reaches(least),
{
    let x = distance(a, b);
    let d = a.spec_minus(b);
    single::the_square_of_a_difference(a, b);
    single::what_fits_is_not_rounded(least.mag());
    single::rounding_keeps_the_order(single::units(least.mag()), x, 1);
    let square = d.spec_times(d);
    if d.mag() < single::INFINITY {
        single::the_root_of_a_square(d.mag(), least);
    }
    square
}

/// Where only one number differs it decides alone: the views are apart exactly if the difference,
/// as a single, is no less than what is asked for.
#[verifier::spinoff_prover]
#[verifier::rlimit(40)]
pub proof fn an_only_difference_decides(a: Seq<F32>, b: Seq<F32>, least: F32, i: int)
    requires
        finite(a),
        finite(b),
        0 <= i < 4,
        forall|j: int| 0 <= j < 4 && j != i ==> #[trigger] a[j] == b[j],
        !least.negative(),
        single::squarable(least.mag()),
    ensures
        apart(a, b, least) <==> least.mag() <= a[i].spec_minus(b[i]).mag(),
{
    let d = a[i].spec_minus(b[i]);
    assert forall|j: int| 0 <= j < 4 && j != i implies (#[trigger] gap(a, b, j)).bits == 0 by {
        assert(a[j] == b[j]);
        lemma_gap(a, b, j);
        single::the_square_of_a_difference(a[j], b[j]);
        single::less_itself_is_nothing(a[j]);
        single::nothing_comes_of_nothing(a[j].spec_minus(b[j]), a[j].spec_minus(b[j]));
    }
    lemma_sum_of_gaps(a, b, i);
    lemma_apart_by_total(a, b, least);
    single::the_square_of_a_difference(a[i], b[i]);
    if d.mag() < single::INFINITY {
        single::the_root_of_a_square(d.mag(), least);
    }
}

/// The sum of the squares of the four differences.
pub open spec fn squared_distance(a: Seq<F32>, b: Seq<F32>) -> nat {
    distance(a[0], b[0]) * distance(a[0], b[0]) + distance(a[1], b[1]) * distance(a[1], b[1])
        + distance(a[2], b[2]) * distance(a[2], b[2]) + distance(a[3], b[3]) * distance(
        a[3],
        b[3],
    )
}

/// A gap, as far as rounding goes: `w` is what a unit squared is counted in.
#[verifier::spinoff_prover]
#[verifier::rlimit(40)]
proof fn lemma_gap_is_close(a: F32, b: F32)
    requires
        a.mag() < single::INFINITY,
        b.mag() < single::INFINITY,
    ensures
        ({
            let x = distance(a, b) as int;
            let w = power2::pow2(149) as int;
            let d = a.spec_minus(b);
            let g = d.spec_times(d).bits as nat;
            &&& g <= single::INFINITY
            &&& g < single::INFINITY ==> 0x20_0000 * (single::units(g) * w) + 0x20_0000 * w
                >= 2048383 * (x * x)
            &&& d.mag() < single::INFINITY ==> 0x20_0000 * (single::units(g) * w) <= 2146689 * (x
                * x) + 0x20_0000 * w
            &&& 128 * single::units(d.mag()) <= 129 * x
        }),
{
    let x = distance(a, b);
    let w = power2::pow2(149);
    power2::lemma_pow2_pos(149);
    single::the_square_of_a_difference(a, b);
    single::rounding_is_close(x, 1);
    let d = a.spec_minus(b);
    let u = single::units(d.mag());
    let g = d.spec_times(d).bits as nat;
    if d.mag() < single::INFINITY {
        single::rounding_is_close(u * u, w);
        assert(16384 * (u * u) >= 16129 * (x * x)) by (nonlinear_arith)
            requires
                128 * u >= 127 * x,
                u >= 0,
                x >= 0,
        ;
        assert(16384 * (u * u) <= 16641 * (x * x)) by (nonlinear_arith)
            requires
                128 * u <= 129 * x,
                u >= 0,
                x >= 0,
        ;
    }
}

#[verifier::spinoff_prover]
#[verifier::rlimit(40)]
proof fn lemma_sum_is_close(a: F32, b: F32)
    requires
        a.bits <= single::INFINITY,
        b.bits <= single::INFINITY,
    ensures
        ({
            let s = a.spec_plus(b).bits as nat;
            let n = single::units(a.bits as nat) + single::units(b.bits as nat);
            &&& s <= single::INFINITY
            &&& a.bits <= s && b.bits <= s
            &&& s < single::INFINITY ==> 128 * single::units(s) >= 127 * n
            &&& a.bits < single::INFINITY && b.bits < single::INFINITY ==> 128 * single::units(s)
                <= 129 * n
        }),
{
    single::a_sum_is_no_smaller(a, b);
    if a.bits < single::INFINITY && b.bits < single::INFINITY {
        single::rounding_is_close(
            single::units(a.bits as nat) + single::units(b.bits as nat),
            1,
        );
    }
}

/// The four gaps added up, as far as rounding goes: `sum` is what is compared, and `all` what the
/// gaps are worth together.
#[verifier::spinoff_prover]
#[verifier::rlimit(40)]
proof fn lemma_total(g0: F32, g1: F32, g2: F32, g3: F32) -> (r: (nat, nat))
    requires
        g0.bits <= single::INFINITY,
        g1.bits <= single::INFINITY,
        g2.bits <= single::INFINITY,
        g3.bits <= single::INFINITY,
    ensures
        ({
            let sum = g0.spec_plus(g1).spec_plus(g2).spec_plus(g3);
            let top = single::units(single::INFINITY as nat);
            &&& r.0 == single::units(g0.bits as nat) + single::units(g1.bits as nat)
                + single::units(g2.bits as nat) + single::units(g3.bits as nat)
            &&& sum.bits <= single::INFINITY
            &&& r.1 == single::units(sum.bits as nat)
            &&& sum.bits < single::INFINITY ==> 0x20_0000 * r.1 >= 2048383 * r.0 && g0.bits
                < single::INFINITY && g1.bits < single::INFINITY && g2.bits < single::INFINITY
                && g3.bits < single::INFINITY
            &&& 16 * r.0 <= top ==> sum.bits < single::INFINITY && 0x20_0000 * r.1 <= 2146689 * r.0
        }),
{
    let s1 = g0.spec_plus(g1);
    lemma_sum_is_close(g0, g1);
    let s2 = s1.spec_plus(g2);
    lemma_sum_is_close(s1, g2);
    let s3 = s2.spec_plus(g3);
    lemma_sum_is_close(s2, g3);
    let top = single::units(single::INFINITY as nat);
    single::what_infinity_is_worth();
    let all = single::units(g0.bits as nat) + single::units(g1.bits as nat) + single::units(
        g2.bits as nat,
    ) + single::units(g3.bits as nat);
    if 16 * all <= top {
        assert(g0.bits < single::INFINITY && g1.bits < single::INFINITY);
        assert(g2.bits < single::INFINITY && g3.bits < single::INFINITY);
        assert(s1.bits < single::INFINITY);
        assert(s2.bits < single::INFINITY);
        assert(s3.bits < single::INFINITY);
    }
    (all, single::units(s3.bits as nat))
}

/// Enough of a sum reaches what is asked for.
proof fn lemma_enough(sum: int, gaps: int, all: int, l: int, under: int, w: int)
    requires
        w > 0,
        0x20_0000 * sum >= 2048383 * gaps,
        0x20_0000 * (gaps * w) + 0x80_0000 * w >= 2048383 * all,
        16 * all >= 17 * (l * l),
        l * l >= 0x1000_0000 * w,
        0 <= under < l,
    ensures
        (under + l) * (under + l) < 4 * sum * w,
{
    let ll = l * l;
    assert(0x20_0000 * (sum * w) >= 2048383 * (gaps * w)) by (nonlinear_arith)
        requires
            0x20_0000 * sum >= 2048383 * gaps,
            w > 0,
    ;
    assert(sum * w >= ll);
    assert((under + l) * (under + l) < 4 * sum * w) by (nonlinear_arith)
        requires
            0 <= under < l,
            sum * w >= l * l,
    ;
}

/// Too little of a sum does not.
proof fn lemma_too_little(sum: int, gaps: int, all: int, l: int, under: int, w: int)
    requires
        w > 0,
        0x20_0000 * sum <= 2146689 * gaps,
        0x20_0000 * (gaps * w) <= 2146689 * all + 0x80_0000 * w,
        16 * all <= 15 * (l * l),
        l * l >= 0x1000_0000 * w,
        l >= 0,
        128 * (under + l) >= 255 * l,
    ensures
        4 * sum * w <= (under + l) * (under + l),
{
    let ll = l * l;
    let twice = under + l;
    assert(0x20_0000 * (sum * w) <= 2146689 * (gaps * w)) by (nonlinear_arith)
        requires
            0x20_0000 * sum <= 2146689 * gaps,
            w > 0,
    ;
    assert(16384 * (twice * twice) >= 65025 * ll) by (nonlinear_arith)
        requires
            128 * twice >= 255 * l,
            l >= 0,
            ll == l * l,
    ;
    assert(4 * sum * w == 4 * (sum * w)) by (nonlinear_arith);
}

/// Four gaps, each as close as rounding leaves it, are together.
proof fn lemma_four(u0: int, u1: int, u2: int, u3: int, w: int)
    ensures
        (u0 + u1 + u2 + u3) * w == u0 * w + u1 * w + u2 * w + u3 * w,
{
    assert((u0 + u1 + u2 + u3) * w == u0 * w + u1 * w + u2 * w + u3 * w) by (nonlinear_arith);
}

/// What is compared: the four gaps added up.
#[verifier::opaque]
pub open spec fn total(a: Seq<F32>, b: Seq<F32>) -> F32 {
    gap(a, b, 0).spec_plus(gap(a, b, 1)).spec_plus(gap(a, b, 2)).spec_plus(gap(a, b, 3))
}

#[verifier::spinoff_prover]
#[verifier::rlimit(40)]
proof fn lemma_apart_by_total(a: Seq<F32>, b: Seq<F32>, least: F32)
    ensures
        apart(a, b, least) == total(a, b).spec_root_reaches(least),
{
    reveal(total);
}

/// What is compared, and the gaps added up without rounding, from below.
#[verifier::spinoff_prover]
#[verifier::rlimit(40)]
proof fn lemma_from_below(a: Seq<F32>, b: Seq<F32>) -> (gaps: nat)
    requires
        finite(a),
        finite(b),
    ensures
        total(a, b).bits <= single::INFINITY,
        total(a, b).bits < single::INFINITY ==> {
            let w = power2::pow2(149) as int;
            &&& 0x20_0000 * single::units(total(a, b).bits as nat) >= 2048383 * gaps
            &&& 0x20_0000 * (gaps * w) + 0x80_0000 * w >= 2048383 * squared_distance(a, b)
        },
{
    reveal(total);
    let w = power2::pow2(149) as int;
    lemma_gap_is_close(a[0], b[0]);
    lemma_gap_is_close(a[1], b[1]);
    lemma_gap_is_close(a[2], b[2]);
    lemma_gap_is_close(a[3], b[3]);
    let (g0, g1) = (gap(a, b, 0), gap(a, b, 1));
    let (g2, g3) = (gap(a, b, 2), gap(a, b, 3));
    let (gaps, sum) = lemma_total(g0, g1, g2, g3);
    lemma_four(
        single::units(g0.bits as nat) as int,
        single::units(g1.bits as nat) as int,
        single::units(g2.bits as nat) as int,
        single::units(g3.bits as nat) as int,
        w,
    );
    gaps
}

/// The same from above, where the differences are less than what is asked for.
#[verifier::spinoff_prover]
#[verifier::rlimit(40)]
proof fn lemma_from_above(a: Seq<F32>, b: Seq<F32>, l: int) -> (gaps: nat)
    requires
        finite(a),
        finite(b),
        0 < l,
        256 * l <= single::units(single::INFINITY as nat),
        256 * (l * l) <= single::units(single::INFINITY as nat) * power2::pow2(149),
        l * l >= 0x1000_0000 * power2::pow2(149),
        16 * squared_distance(a, b) <= 15 * (l * l),
    ensures
        ({
            let w = power2::pow2(149) as int;
            &&& total(a, b).bits < single::INFINITY
            &&& 0x20_0000 * single::units(total(a, b).bits as nat) <= 2146689 * gaps
            &&& 0x20_0000 * (gaps * w) <= 2146689 * squared_distance(a, b) + 0x80_0000 * w
        }),
{
    reveal(total);
    let w = power2::pow2(149) as int;
    let all = squared_distance(a, b) as int;
    lemma_parts_of_a_sum(a, b);
    let (u0, u1) = (lemma_small_gap(a[0], b[0], l, all), lemma_small_gap(a[1], b[1], l, all));
    let (u2, u3) = (lemma_small_gap(a[2], b[2], l, all), lemma_small_gap(a[3], b[3], l, all));
    let (g0, g1) = (gap(a, b, 0), gap(a, b, 1));
    let (g2, g3) = (gap(a, b, 2), gap(a, b, 3));
    let (gaps, sum) = lemma_total(g0, g1, g2, g3);
    lemma_four(u0 as int, u1 as int, u2 as int, u3 as int, w);
    gaps
}

proof fn lemma_parts_of_a_sum(a: Seq<F32>, b: Seq<F32>)
    ensures
        distance(a[0], b[0]) * distance(a[0], b[0]) <= squared_distance(a, b),
        distance(a[1], b[1]) * distance(a[1], b[1]) <= squared_distance(a, b),
        distance(a[2], b[2]) * distance(a[2], b[2]) <= squared_distance(a, b),
        distance(a[3], b[3]) * distance(a[3], b[3]) <= squared_distance(a, b),
{
}

/// Enough of a sum reaches what is asked for, be it infinite or not.
proof fn lemma_sum_reaches(sum: F32, gaps: nat, all: int, least: F32)
    requires
        !least.negative(),
        single::squarable(least.mag()),
        16 * all >= 17 * (least.value() * least.value()),
        sum.bits <= single::INFINITY,
        sum.bits < single::INFINITY ==> 0x20_0000 * single::units(sum.bits as nat) >= 2048383
            * gaps && 0x20_0000 * (gaps * power2::pow2(149)) + 0x80_0000 * power2::pow2(149)
            >= 2048383 * all,
    ensures
        sum.spec_root_reaches(least),
{
    power2::lemma_pow2_pos(149);
    lemma_squarable_bounds(least);
    if sum.bits < single::INFINITY {
        lemma_enough(
            single::units(sum.bits as nat) as int,
            gaps as int,
            all,
            least.value(),
            single::units((least.mag() - 1) as nat) as int,
            power2::pow2(149) as int,
        );
    }
}

proof fn lemma_sum_falls_short(sum: F32, gaps: nat, all: int, least: F32)
    requires
        !least.negative(),
        single::squarable(least.mag()),
        16 * all <= 15 * (least.value() * least.value()),
        sum.bits < single::INFINITY,
        0x20_0000 * single::units(sum.bits as nat) <= 2146689 * gaps,
        0x20_0000 * (gaps * power2::pow2(149)) <= 2146689 * all + 0x80_0000 * power2::pow2(149),
    ensures
        !sum.spec_root_reaches(least),
{
    power2::lemma_pow2_pos(149);
    lemma_squarable_bounds(least);
    lemma_too_little(
        single::units(sum.bits as nat) as int,
        gaps as int,
        all,
        least.value(),
        single::units((least.mag() - 1) as nat) as int,
        power2::pow2(149) as int,
    );
}

/// How far apart two views are is the distance of their four numbers, as in space: the root of the
/// sum of the squares of the differences, within the little that is lost in rounding. Where that
/// sum is a sixteenth more than the square of what is asked for they are apart.
#[verifier::spinoff_prover]
#[verifier::rlimit(40)]
pub proof fn far_views_are_apart(a: Seq<F32>, b: Seq<F32>, least: F32)
    requires
        finite(a),
        finite(b),
        !least.negative(),
        single::squarable(least.mag()),
        16 * squared_distance(a, b) >= 17 * (least.value() * least.value()),
    ensures
        apart(a, b, least),
{
    let gaps = lemma_from_below(a, b);
    lemma_sum_reaches(total(a, b), gaps, squared_distance(a, b) as int, least);
    lemma_apart_by_total(a, b, least);
}

/// Where that sum is a sixteenth less than the square of what is asked for they are not apart.
#[verifier::spinoff_prover]
#[verifier::rlimit(40)]
pub proof fn near_views_are_not_apart(a: Seq<F32>, b: Seq<F32>, least: F32)
    requires
        finite(a),
        finite(b),
        !least.negative(),
        single::squarable(least.mag()),
        16 * squared_distance(a, b) <= 15 * (least.value() * least.value()),
    ensures
        !apart(a, b, least),
{
    lemma_squarable_bounds(least);
    let gaps = lemma_from_above(a, b, least.value());
    lemma_sum_falls_short(total(a, b), gaps, squared_distance(a, b) as int, least);
    lemma_apart_by_total(a, b, least);
}

/// The gap of a difference that is less than what is asked for.
proof fn lemma_small_gap(a: F32, b: F32, l: int, all: int) -> (u: nat)
    requires
        a.mag() < single::INFINITY,
        b.mag() < single::INFINITY,
        0 < l,
        256 * l <= single::units(single::INFINITY as nat),
        256 * (l * l) <= single::units(single::INFINITY as nat) * power2::pow2(149),
        l * l >= 0x1000_0000 * power2::pow2(149),
        distance(a, b) * distance(a, b) <= all,
        16 * all <= 15 * (l * l),
    ensures
        ({
            let x = distance(a, b) as int;
            let w = power2::pow2(149) as int;
            let g = a.spec_minus(b).spec_times(a.spec_minus(b));
            &&& g.bits <= single::INFINITY
            &&& u == single::units(g.bits as nat)
            &&& 0x20_0000 * (u * w) <= 2146689 * (x * x) + 0x20_0000 * w
            &&& 128 * u <= single::units(single::INFINITY as nat)
        }),
{
    let w = power2::pow2(149) as int;
    power2::lemma_pow2_pos(149);
    lemma_no_overflow(a, b, l, all);
    lemma_gap_is_close(a, b);
    let g = a.spec_minus(b).spec_times(a.spec_minus(b));
    let u = single::units(g.bits as nat);
    lemma_far_below(u as int, l * l, w, single::units(single::INFINITY as nat) as int);
    u
}

/// What is asked for, if it is squarable, is far more than a unit and far from the largest number.
proof fn lemma_squarable_bounds(least: F32)
    requires
        !least.negative(),
        single::squarable(least.mag()),
    ensures
        ({
            let l = least.value();
            let w = power2::pow2(149) as int;
            let top = single::units(single::INFINITY as nat) as int;
            let under = single::units((least.mag() - 1) as nat) as int;
            &&& l > 0
            &&& 0 <= under < l
            &&& 128 * (under + l) >= 255 * l
            &&& l * l >= 0x1000_0000 * w
            &&& 256 * (l * l) <= top * w
            &&& 256 * l <= top
        }),
{
    let m = least.mag();
    let l = single::units(m);
    let w = power2::pow2(149);
    let top = single::units(single::INFINITY as nat);
    power2::lemma2_to64();
    power2::lemma2_to64_rest();
    power2::lemma_pow2_pos(149);
    single::lemma_units_increase((m - 1) as nat, m);
    single::sizes_of_squarable_numbers(m);
    let (p, q) = (power2::pow2(89), power2::pow2(209));
    power2::lemma_pow2_adds(89, 89);
    power2::lemma_pow2_adds(149, 29);
    assert(l * l >= p * p) by (nonlinear_arith)
        requires
            l >= p,
            p >= 0,
    ;
    assert(l * l <= q * q) by (nonlinear_arith)
        requires
            0 <= l <= q,
    ;
    power2::lemma_pow2_adds(209, 209);
    power2::lemma_pow2_adds(277, 149);
    power2::lemma_pow2_adds(8, 418);
    power2::lemma_pow2_adds(68, 209);
    power2::lemma_pow2_adds(60, 8);
    let e = power2::pow2(68);
    assert(e >= 256);
    assert(256 * q <= e * q) by (nonlinear_arith)
        requires
            e >= 256,
            q >= 0,
    ;
}

/// A difference that is less than what is asked for is not lost to infinity.
proof fn lemma_no_overflow(a: F32, b: F32, l: int, all: int)
    requires
        a.mag() < single::INFINITY,
        b.mag() < single::INFINITY,
        0 < l,
        256 * l <= single::units(single::INFINITY as nat),
        distance(a, b) * distance(a, b) <= all,
        16 * all <= 15 * (l * l),
    ensures
        a.spec_minus(b).mag() < single::INFINITY,
{
    lemma_gap_is_close(a, b);
    single::the_square_of_a_difference(a, b);
    let x = distance(a, b) as int;
    assert(x <= l) by (nonlinear_arith)
        requires
            16 * (x * x) <= 15 * (l * l),
            x >= 0,
            l > 0,
    ;
}

proof fn lemma_far_below(u: int, ll: int, w: int, top: int)
    requires
        u * w <= 2 * ll,
        256 * ll <= top * w,
        w > 0,
    ensures
        128 * u <= top,
{
    assert(128 * u <= top) by (nonlinear_arith)
        requires
            128 * (u * w) <= top * w,
            w > 0,
    ;
}

/// What a calibrator asks for unless it is told otherwise: three quarters of the corners, and one
/// and a half cells between views. A signature counts a radian, and a halving, as two cells.
#[verifier::spinoff_prover]
#[verifier::rlimit(40)]
pub proof fn what_is_asked_for_by_default()
    ensures
        4 * (F32 { bits: MIN_CORNER_FRACTION }).value() == 3 * power2::pow2(149),
        2 * (F32 { bits: MIN_NOVELTY_CELLS }).value() == 3 * power2::pow2(149),
        (F32 { bits: ONE }) == F32::of_nat(1),
        (F32 { bits: TWO }) == F32::of_nat(2),
{
    power2::lemma2_to64();
    single::lemma_units_of(125, 0xc0_0000);
    single::lemma_units_of(126, 0xc0_0000);
    power2::lemma_pow2_adds(24, 125);
    power2::lemma_pow2_adds(23, 126);
    single::a_pattern_is_its_value(0x80_0000, 1, 23, 126);
    single::a_pattern_is_its_value(0x80_0000, 2, 22, 127);
}

/// A view shows too few corners if they are less than the fraction of all that is asked for.
#[verifier::spinoff_prover]
#[verifier::rlimit(40)]
pub proof fn too_few_is_less_than_the_fraction(
    lens: LensCalibrator,
    d: Detection,
    places: nat,
    exponent: nat,
)
    requires
        lens.spec.countable(),
        lens.min_corner_fraction.bits < 0x7f80_0000,
        lens.min_corner_fraction.value() == places * power2::pow2(exponent),
        exponent <= 149,
        places * lens.spec.corner_count() < 0x100_0000,
        lens.spec.corner_count() < 0x100_0000,
        d.corners@.len() < 0x100_0000,
    ensures
        lens.too_few(d) <==> d.corners@.len() * power2::pow2(149)
            < lens.min_corner_fraction.value() * lens.spec.corner_count(),
{
    let f = lens.min_corner_fraction;
    let (x, y) = (board::inner(lens.spec.squares_x) as int, board::inner(lens.spec.squares_y) as int);
    assert(x * y >= 0) by (nonlinear_arith)
        requires
            x >= 0,
            y >= 0,
    ;
    let count = lens.spec.corner_count() as nat;
    single::whole_numbers_are_held(d.corners@.len());
    single::whole_numbers_are_held(count);
    single::a_fraction_of_a_whole_number(f, places, exponent, count);
}

/// A view is judged by its corners first; of those with enough of them, one is too similar if it is
/// not far enough from some view that was taken, and taken otherwise.
pub proof fn a_view_is_judged(lens: LensCalibrator, d: Detection, b: Bearing)
    ensures
        lens.verdict(d, b) == ViewVerdict::TooFewCorners <==> lens.too_few(d),
        lens.verdict(d, b) == ViewVerdict::NotNovel <==> !lens.too_few(d) && exists|i: int|
            0 <= i < lens.signatures@.len() && !apart(
                #[trigger] lens.signatures@[i].parts@,
                signature_parts(d, b),
                lens.min_novelty_cells,
            ),
        lens.signatures@.len() == 0 && !lens.too_few(d) ==> lens.verdict(d, b)
            == ViewVerdict::Accepted,
{
}

/// Where a view is, in cells: its centroid over the size of a cell, which counts as a pixel where it
/// is less or unknown. Its size and its angle count twice.
#[verifier::spinoff_prover]
#[verifier::rlimit(40)]
pub proof fn a_signature_is_in_cells(
    d: Detection,
    b: Bearing,
    axis: int,
    numbers: Seq<nat>,
    cell: nat,
    cells: nat,
)
    requires
        0 <= axis < 2,
        0 < d.corners@.len() == numbers.len() <= u64::MAX,
        forall|i: int|
            0 <= i < numbers.len() ==> (#[trigger] d.corners@[i]).px[axis] == F32::of_nat(
                numbers[i],
            ),
        1 <= cell < 0x100_0000,
        cell * cells < 0x100_0000,
        board::added_up(numbers) == numbers.len() * (cell * cells),
        numbers.len() * (cell * cells) < 0x100_0000,
        d.cell_px == F32::of_nat(cell) || (cell == 1 && (d.cell_px.nan() || d.cell_px.value()
            < power2::pow2(149))),
        b.octaves.mag() < 0x7f00_0000,
        b.angle.mag() < 0x7f00_0000,
    ensures
        signature_parts(d, b)[axis] == F32::of_nat(cells),
        signature_parts(d, b)[2].value() == 2 * b.octaves.value(),
        signature_parts(d, b)[3].value() == 2 * b.angle.value(),
{
    let parts = signature_parts(d, b);
    let weight = board::corner_weight(d.corners@);
    lemma_cell(d.cell_px, cell);
    assert(parts[axis] == board::px_sum(d.corners@, axis).spec_over(weight).spec_over(
        d.cell_px.spec_larger(F32 { bits: ONE }),
    ));
    assert(parts[axis] == F32::of_nat(cells)) by {
        board::the_centroid_is_the_mean(d.corners@, axis, numbers, cell * cells);
        single::a_multiple_is_divided(cell, cells);
    }
    assert(parts[2] == F32::of_nat(2).spec_times(b.octaves) && parts[3] == b.angle.spec_times(
        F32::of_nat(2),
    )) by {
        what_is_asked_for_by_default();
    }
    single::twice_is_twice(b.octaves);
    single::twice_is_twice(b.angle);
}

/// A cell is as large as it is, and a pixel where it is less or unknown.
#[verifier::spinoff_prover]
#[verifier::rlimit(40)]
proof fn lemma_cell(size: F32, cell: nat)
    requires
        1 <= cell < 0x100_0000,
        size == F32::of_nat(cell) || (cell == 1 && (size.nan() || size.value() < power2::pow2(149))),
    ensures
        size.spec_larger(F32 { bits: ONE }) == F32::of_nat(cell),
{
    let w = power2::pow2(149);
    what_is_asked_for_by_default();
    single::whole_numbers_are_held(1);
    single::whole_numbers_are_held(cell);
    assert(cell * w >= 1 * w) by (nonlinear_arith)
        requires
            cell >= 1,
            w >= 0,
    ;
}

/// The ends of a board are the corners farthest apart along the first axis of its grid: no label lies
/// outside theirs there, and of those on the same line none does along the other axis.
pub proof fn the_ends_are_outermost(corners: Seq<Corner>, a: int, b: int, j: int)
    requires
        first_corner(corners, a),
        last_corner(corners, b),
        0 <= j < corners.len(),
    ensures
        corners[a].grid.0 <= corners[j].grid.0 <= corners[b].grid.0,
        corners[j].grid.0 == corners[a].grid.0 ==> corners[a].grid.1 <= corners[j].grid.1,
        corners[j].grid.0 == corners[b].grid.0 ==> corners[j].grid.1 <= corners[b].grid.1,
        corners[j].grid == corners[a].grid ==> a <= j,
        corners[j].grid == corners[b].grid ==> b <= j,
{
    assert(!label_before(corners[j], corners[a]));
    assert(!label_before(corners[b], corners[j]));
}

/// A calibration is the solution, number by number, for the size of the stream and the board, and
/// says how many views it is based on; the rolling shutter is not part of it.
pub proof fn a_calibration_is_the_solution(
    lens: LensCalibrator,
    width: u32,
    height: u32,
    s: Solution,
    k: (F64, F64, F64, F64, F64),
)
    requires
        lens.views@.len() <= usize::MAX,
    ensures
        ({
            let c = lens.calibration(width, height, s, k);
            &&& c.width == width && c.height == height
            &&& c.fx == s.fx && c.fy == s.fy && c.cx == s.cx && c.cy == s.cy
            &&& c.k1 == k.0 && c.k2 == k.1 && c.k3 == k.2 && c.p1 == k.3 && c.p2 == k.4
            &&& c.reproj_error_px == s.mean_reproj_error
            &&& c.views == lens.views@.len()
            &&& c.board == lens.spec
            &&& c.rolling_shutter is None
        }),
{
}

} // verus!
