//! The chessboard, and its corners in a frame.
use vstd::arithmetic::{mul, power2};
use vstd::prelude::*;

use crate::duration::Duration;
use crate::single::{self, F32};

verus! {

/// Twenty millimetres, as the bits of a single.
pub const SQUARE_MM: u32 = 0x41a0_0000;

/// The printed target: `squares_x` by `squares_y` squares, each `square_mm` wide. The detector
/// labels the *inner* corners.
#[derive(Debug, Clone, Copy, PartialEq, Eq, Structural)]
pub struct ChessboardSpec {
    pub squares_x: u32,
    pub squares_y: u32,
    pub square_mm: F32,
}

impl Default for ChessboardSpec {
    /// 10 by 7 squares of 20 mm: 9 by 6 inner corners.
    fn default() -> (r: ChessboardSpec)
        ensures
            r.squares_x == 10,
            r.squares_y == 7,
            r.square_mm.bits == SQUARE_MM,
    {
        ChessboardSpec { squares_x: 10, squares_y: 7, square_mm: F32 { bits: SQUARE_MM } }
    }
}

/// One less, but not below zero.
pub open spec fn inner(squares: u32) -> u32 {
    if squares >= 1 {
        (squares - 1) as u32
    } else {
        0
    }
}

fn one_less(squares: u32) -> (r: u32)
    ensures
        r == inner(squares),
{
    if squares >= 1 {
        squares - 1
    } else {
        0
    }
}

impl ChessboardSpec {
    /// How many inner corners there are.
    pub open spec fn corner_count(self) -> int {
        inner(self.squares_x) * inner(self.squares_y)
    }

    /// The inner corners can be counted.
    pub open spec fn countable(self) -> bool {
        self.corner_count() <= u32::MAX
    }

    pub fn inner_corners(&self) -> (r: (u32, u32))
        ensures
            r.0 == inner(self.squares_x),
            r.1 == inner(self.squares_y),
    {
        (one_less(self.squares_x), one_less(self.squares_y))
    }

    pub fn inner_count(&self) -> (r: usize)
        requires
            self.countable(),
        ensures
            r == self.corner_count(),
    {
        let (a, b): (u32, u32) = self.inner_corners();
        proof {
            assert(a * b >= 0) by (nonlinear_arith);
        }
        (a * b) as usize
    }
}

/// One labelled inner corner.
#[derive(Debug, Clone, Copy)]
pub struct Corner {
    /// Grid label, rebased so the smallest detected label is (0, 0). Consistent within a frame;
    /// the board's orientation is not recovered, which calibration does not need.
    pub grid: (i32, i32),
    /// Pixel position.
    pub px: [F32; 2],
}

/// Corners found in one frame.
#[derive(Debug, Clone)]
pub struct Detection {
    pub corners: Vec<Corner>,
    /// Median cell size in pixels.
    pub cell_px: F32,
    pub width: u32,
    pub height: u32,
    pub sequence: u32,
    pub timestamp: Duration,
}

/// A luma frame.
#[derive(Debug, Clone)]
pub struct GrayFrame {
    pub width: u32,
    pub height: u32,
    pub data: Vec<u8>,
    pub sequence: u32,
    pub timestamp: Duration,
}

/// What the detector found: labelled corners, and the size of a cell in pixels.
#[derive(Debug, Clone)]
pub struct Found {
    pub corners: Vec<Corner>,
    pub cell_size: Option<F32>,
}

/// The largest label of a coordinate, at least zero.
pub open spec fn top(corners: Seq<Corner>, axis: bool) -> int
    decreases corners.len(),
{
    if corners.len() == 0 {
        0
    } else {
        let label = if axis {
            corners.last().grid.1 as int
        } else {
            corners.last().grid.0 as int
        };
        let before = top(corners.drop_last(), axis);
        if label > before {
            label
        } else {
            before
        }
    }
}

fn top_labels(corners: &Vec<Corner>) -> (r: (i32, i32))
    ensures
        r.0 == top(corners@, false),
        r.1 == top(corners@, true),
        0 <= r.0,
        0 <= r.1,
{
    let mut u: i32 = 0;
    let mut v: i32 = 0;
    let mut i: usize = 0;
    while i < corners.len()
        invariant
            i <= corners.len(),
            0 <= u,
            0 <= v,
            u == top(corners@.take(i as int), false),
            v == top(corners@.take(i as int), true),
        decreases corners.len() - i,
    {
        proof {
            assert(corners@.take(i + 1).drop_last() =~= corners@.take(i as int));
        }
        let c = corners[i];
        if c.grid.0 > u {
            u = c.grid.0;
        }
        if c.grid.1 > v {
            v = c.grid.1;
        }
        i = i + 1;
    }
    proof {
        assert(corners@.take(corners.len() as int) =~= corners@);
    }
    (u, v)
}

/// The sum of one coordinate of the corners, added up in order.
pub open spec fn px_sum(corners: Seq<Corner>, axis: int) -> F32
    decreases corners.len(),
{
    if corners.len() == 0 {
        F32 { bits: 0 }
    } else {
        px_sum(corners.drop_last(), axis).spec_plus(corners.last().px[axis])
    }
}

/// The number of corners as a single, at least one.
pub open spec fn corner_weight(corners: Seq<Corner>) -> F32 {
    F32::of_nat(
        if corners.len() >= 1 {
            corners.len()
        } else {
            1
        },
    )
}

impl Detection {
    /// What two detections have in common when one is a copy of the other.
    pub open spec fn same(self, other: Detection) -> bool {
        &&& self.corners@ == other.corners@
        &&& self.cell_px == other.cell_px
        &&& self.width == other.width
        &&& self.height == other.height
        &&& self.sequence == other.sequence
        &&& self.timestamp == other.timestamp
    }

    /// A copy of the detection.
    pub fn duplicate(&self) -> (r: Detection)
        ensures
            r.same(*self),
    {
        let mut corners: Vec<Corner> = Vec::new();
        let mut i: usize = 0;
        while i < self.corners.len()
            invariant
                i <= self.corners.len(),
                corners@ == self.corners@.take(i as int),
            decreases self.corners.len() - i,
        {
            corners.push(self.corners[i]);
            i = i + 1;
            proof {
                assert(corners@ =~= self.corners@.take(i as int));
            }
        }
        proof {
            assert(self.corners@.take(self.corners.len() as int) =~= self.corners@);
        }
        Detection {
            corners,
            cell_px: self.cell_px,
            width: self.width,
            height: self.height,
            sequence: self.sequence,
            timestamp: self.timestamp,
        }
    }

    /// How many columns and rows of corners there are, by their labels.
    pub fn grid_extent(&self) -> (r: (i32, i32))
        requires
            top(self.corners@, false) < i32::MAX,
            top(self.corners@, true) < i32::MAX,
        ensures
            r.0 == top(self.corners@, false) + 1,
            r.1 == top(self.corners@, true) + 1,
    {
        let (u, v): (i32, i32) = top_labels(&self.corners);
        (u + 1, v + 1)
    }

    /// Every inner corner of `spec` was found.
    pub fn is_complete(&self, spec: &ChessboardSpec) -> (r: bool)
        requires
            spec.countable(),
        ensures
            r == (self.corners@.len() == spec.corner_count()),
    {
        self.corners.len() == spec.inner_count()
    }

    /// The mean position of the corners.
    pub fn centroid(&self) -> (r: [F32; 2])
        ensures
            r[0] == px_sum(self.corners@, 0).spec_over(corner_weight(self.corners@)),
            r[1] == px_sum(self.corners@, 1).spec_over(corner_weight(self.corners@)),
    {
        let mut x = F32 { bits: 0 };
        let mut y = F32 { bits: 0 };
        let mut i: usize = 0;
        while i < self.corners.len()
            invariant
                i <= self.corners.len(),
                x == px_sum(self.corners@.take(i as int), 0),
                y == px_sum(self.corners@.take(i as int), 1),
            decreases self.corners.len() - i,
        {
            proof {
                assert(self.corners@.take(i + 1).drop_last() =~= self.corners@.take(i as int));
            }
            let c = self.corners[i];
            x = x.plus(&c.px[0]);
            y = y.plus(&c.px[1]);
            i = i + 1;
        }
        proof {
            assert(self.corners@.take(self.corners.len() as int) =~= self.corners@);
        }
        let len: usize = self.corners.len();
        let n = F32::from_u64(
            if len >= 1 {
                len as u64
            } else {
                1
            },
        );
        [x.over(&n), y.over(&n)]
    }
}

/// A number as 32 bits with a sign.
pub open spec fn as_signed(n: u32) -> int {
    if n > i32::MAX {
        n - 0x1_0000_0000
    } else {
        n as int
    }
}

/// The labels fit the board, held upright or on its side: neither extent is more than the longer
/// side, nor are both more than the shorter one.
pub open spec fn fits(corners: Seq<Corner>, spec: ChessboardSpec) -> bool {
    let (ex, ey) = (top(corners, false) + 1, top(corners, true) + 1);
    let (ix, iy) = (inner(spec.squares_x), inner(spec.squares_y));
    let (big, small) = if ix >= iy {
        (ix, iy)
    } else {
        (iy, ix)
    };
    let (long, short) = if ex >= ey {
        (ex, ey)
    } else {
        (ey, ex)
    };
    long <= as_signed(big) && short <= as_signed(small)
}

/// Whether `label + 1` is at most `side`, as 32 bits with a sign.
fn within(label: i32, side: u32) -> (r: bool)
    requires
        label >= 0,
    ensures
        r == (label + 1 <= as_signed(side)),
{
    side <= 0x7fff_ffff && (label as u32) < side
}

/// What the detector found: the corners, and the size of a cell.
pub open spec fn parts(found: Option<Found>) -> Option<(Seq<Corner>, Option<F32>)> {
    match found {
        Some(f) => Some((f.corners@, f.cell_size)),
        None => None,
    }
}

/// The detection that a frame yields, given what was found in it: nothing where nothing was found,
/// where fewer than `min_corners` corners are labelled, or where the labelled grid is larger than
/// the board can be.
pub open spec fn judged(
    found: Option<(Seq<Corner>, Option<F32>)>,
    frame: GrayFrame,
    spec: ChessboardSpec,
    min_corners: usize,
    r: Option<Detection>,
) -> bool {
    match found {
        None => r is None,
        Some((corners, cell_size)) => {
            &&& r is Some <==> corners.len() >= min_corners && fits(corners, spec)
            &&& r matches Some(d) ==> {
                &&& d.corners@ == corners
                &&& d.cell_px == match cell_size {
                    Some(size) => size,
                    None => F32 { bits: 0 },
                }
                &&& d.width == frame.width
                &&& d.height == frame.height
                &&& d.sequence == frame.sequence
                &&& d.timestamp == frame.timestamp
            }
        },
    }
}

/// The detection that a frame yields, given what the detector found in it: nothing where fewer
/// than `min_corners` corners are labelled or the labelled grid is larger than the board can be
/// (a spurious detection).
pub fn accept(
    found: Found,
    frame: &GrayFrame,
    spec: &ChessboardSpec,
    min_corners: usize,
) -> (r: Option<Detection>)
    ensures
        judged(parts(Some(found)), *frame, *spec, min_corners, r),
{
    if found.corners.len() < min_corners {
        return None;
    }
    let (u, v): (i32, i32) = top_labels(&found.corners);
    let (ix, iy): (u32, u32) = spec.inner_corners();
    let (big, small): (u32, u32) = if ix >= iy {
        (ix, iy)
    } else {
        (iy, ix)
    };
    let (long, short): (i32, i32) = if u >= v {
        (u, v)
    } else {
        (v, u)
    };
    if !within(long, big) || !within(short, small) {
        return None;
    }
    let cell_px = match found.cell_size {
        Some(size) => size,
        None => F32 { bits: 0 },
    };
    Some(
        Detection {
            corners: found.corners,
            cell_px,
            width: frame.width,
            height: frame.height,
            sequence: frame.sequence,
            timestamp: frame.timestamp,
        },
    )
}

/// The radius of the ring of pixels that the detector reads around each pixel.
pub const RING: u32 = 5;

/// The frames that the detector takes: at least the ring's radius each way, and as wide as a ring
/// wherever a row has a ring above and below it.
pub open spec fn large_enough(width: u32, height: u32) -> bool {
    &&& RING <= width
    &&& RING <= height
    &&& 2 * RING <= width || height <= 2 * RING
}

/// The fewest corners that the detector labels.
pub const LEAST_LABELLED: usize = 8;

/// One label comes before another, row by row.
pub open spec fn row_by_row(a: Corner, b: Corner) -> bool {
    a.grid.1 < b.grid.1 || (a.grid.1 == b.grid.1 && a.grid.0 < b.grid.0)
}

/// The corners stand in the order of their labels, each label once, and the smallest column and
/// the smallest row are 0.
pub open spec fn labelled(corners: Seq<Corner>) -> bool {
    &&& forall|i: int, j: int|
        0 <= i < j < corners.len() ==> row_by_row(#[trigger] corners[i], #[trigger] corners[j])
    &&& forall|i: int|
        0 <= i < corners.len() ==> (#[trigger] corners[i]).grid.0 >= 0 && corners[i].grid.1 >= 0
    &&& exists|i: int| 0 <= i < corners.len() && (#[trigger] corners[i]).grid.0 == 0
    &&& exists|i: int| 0 <= i < corners.len() && (#[trigger] corners[i]).grid.1 == 0
}

/// What `detect_chessboard` of `calib_targets` may find in an image of these bytes, with its
/// default parameters. Different calls may find different things in the same image.
pub uninterp spec fn may_find(
    width: u32,
    height: u32,
    data: Seq<u8>,
    found: Option<(Seq<Corner>, Option<F32>)>,
) -> bool;

/// Calls `detect_chessboard` of `calib_targets` with its default parameters on these bytes as an
/// `image::GrayImage`. Bytes that are not one for each pixel show nothing: the image refuses too
/// few, and the detector too many. What it finds has at least [`LEAST_LABELLED`] corners, which
/// are [`labelled`] as the grid's last step leaves them, and a cell size. Which corners it finds,
/// and where, is only said to be something that it may find in this very image: that rests on
/// functions such as `f32::sin` and `f32::atan2`, whose precision differs between platforms, and
/// on votes that are counted in the order of a hash map that each process seeds. Frames that are
/// not [`large_enough`] are left out: the detector panics on them.
#[verifier::external_body]
fn detect_chessboard(width: u32, height: u32, data: Vec<u8>) -> (r: Option<Found>)
    requires
        data@.len() == width * height ==> large_enough(width, height),
    ensures
        may_find(width, height, data@, parts(r)),
        data@.len() != width * height ==> r is None,
        r matches Some(found) ==> {
            &&& found.cell_size is Some
            &&& found.corners@.len() >= LEAST_LABELLED
            &&& labelled(found.corners@)
        },
{
    let image = image::GrayImage::from_raw(width, height, data)?;
    let config = calib_targets::detect::default_chess_config();
    let params = calib_targets::chessboard::ChessboardParams::default();
    let found = calib_targets::detect::detect_chessboard(&image, &config, &params).ok()?;
    let corners = found.corners.iter().map(|c| Corner {
        grid: (c.grid.u, c.grid.v),
        px: [F32 { bits: c.position.x.to_bits() }, F32 { bits: c.position.y.to_bits() }],
    });
    let cell_size = found.cell_size.map(|size| F32 { bits: size.to_bits() });
    Some(Found { corners: corners.collect(), cell_size })
}

/// Find the chessboard's inner corners in a luma frame. Returns `None` when the frame does not
/// hold a byte for each pixel, when fewer than `min_corners` corners are labelled or when the
/// labelled grid is larger than the board can be (a spurious detection). The corners stand row by
/// row under their labels. Whether the detector finds a board is the detector's to say; what it
/// found is judged by [`accept`].
pub fn detect(frame: &GrayFrame, spec: &ChessboardSpec, min_corners: usize) -> (r: Option<
    Detection,
>)
    requires
        frame.data@.len() == frame.width * frame.height ==> large_enough(frame.width, frame.height),
    ensures
        exists|found: Option<(Seq<Corner>, Option<F32>)>| #[trigger]
            may_find(frame.width, frame.height, frame.data@, found) && judged(
                found,
                *frame,
                *spec,
                min_corners,
                r,
            ),
        frame.data@.len() != frame.width * frame.height ==> r is None,
        r matches Some(d) ==> {
            &&& d.corners@.len() >= LEAST_LABELLED
            &&& labelled(d.corners@)
        },
{
    let data = frame.data.clone();
    proof {
        assert(data@ =~= frame.data@);
    }
    let outcome = detect_chessboard(frame.width, frame.height, data);
    let ghost found = parts(outcome);
    proof {
        assert(may_find(frame.width, frame.height, frame.data@, found));
    }
    match outcome {
        Some(found) => accept(found, frame, spec, min_corners),
        None => None,
    }
}

/// An accepted detection has no more columns and rows than the board has corners on its longer
/// side.
pub proof fn an_accepted_grid_is_no_larger_than_the_board(
    corners: Seq<Corner>,
    spec: ChessboardSpec,
    i: int,
)
    requires
        fits(corners, spec),
        0 <= i < corners.len(),
    ensures
        corners[i].grid.0 < inner(spec.squares_x) || corners[i].grid.0 < inner(spec.squares_y),
        corners[i].grid.1 < inner(spec.squares_x) || corners[i].grid.1 < inner(spec.squares_y),
{
    lemma_top(corners, false, i);
    lemma_top(corners, true, i);
}

proof fn lemma_top(corners: Seq<Corner>, axis: bool, i: int)
    requires
        0 <= i < corners.len(),
    ensures
        (if axis {
            corners[i].grid.1
        } else {
            corners[i].grid.0
        }) <= top(corners, axis),
    decreases corners.len(),
{
    if i < corners.len() - 1 {
        lemma_top(corners.drop_last(), axis, i);
    }
}

proof fn lemma_top_within(corners: Seq<Corner>, axis: bool, side: int)
    requires
        side >= 1,
        forall|i: int|
            0 <= i < corners.len() ==> (if axis {
                (#[trigger] corners[i]).grid.1
            } else {
                corners[i].grid.0
            }) < side,
    ensures
        0 <= top(corners, axis) < side,
    decreases corners.len(),
{
    if corners.len() > 0 {
        let before = corners.drop_last();
        assert forall|i: int| 0 <= i < before.len() implies (if axis {
            (#[trigger] before[i]).grid.1
        } else {
            before[i].grid.0
        }) < side by {
            assert(before[i] == corners[i]);
        }
        lemma_top_within(before, axis, side);
        assert(corners[corners.len() - 1] == corners.last());
    }
}

/// Every grid that the board can show is accepted: if enough corners are labelled, and all labels
/// lie within the board's inner corners, held upright or on its side, the frame yields them, with
/// the frame's own size, number and time, however few of the columns and rows are seen.
pub proof fn every_part_of_the_board_is_accepted(
    corners: Seq<Corner>,
    cell_size: Option<F32>,
    frame: GrayFrame,
    spec: ChessboardSpec,
    min_corners: usize,
    r: Option<Detection>,
    a: int,
    b: int,
)
    requires
        judged(Some((corners, cell_size)), frame, spec, min_corners, r),
        corners.len() >= min_corners,
        1 <= a <= i32::MAX,
        1 <= b <= i32::MAX,
        (a == spec.squares_x - 1 && b == spec.squares_y - 1) || (a == spec.squares_y - 1 && b
            == spec.squares_x - 1),
        forall|i: int|
            0 <= i < corners.len() ==> (#[trigger] corners[i]).grid.0 < a && corners[i].grid.1 < b,
    ensures
        r matches Some(d) && d.corners@ == corners && d.width == frame.width && d.height
            == frame.height && d.sequence == frame.sequence && d.timestamp == frame.timestamp
            && d.cell_px == (match cell_size {
            Some(size) => size,
            None => F32 { bits: 0 },
        }),
{
    lemma_top_within(corners, false, a);
    lemma_top_within(corners, true, b);
}

/// What is accepted is enough, and a grid that the board can show: there is a way to hold the board
/// in which every label lies within its inner corners.
pub proof fn only_parts_of_the_board_are_accepted(
    corners: Seq<Corner>,
    cell_size: Option<F32>,
    frame: GrayFrame,
    spec: ChessboardSpec,
    min_corners: usize,
    r: Option<Detection>,
)
    requires
        judged(Some((corners, cell_size)), frame, spec, min_corners, r),
        r is Some,
    ensures
        corners.len() >= min_corners,
        spec.squares_x >= 2,
        spec.squares_y >= 2,
        (forall|i: int|
            0 <= i < corners.len() ==> (#[trigger] corners[i]).grid.0 < spec.squares_x - 1
                && corners[i].grid.1 < spec.squares_y - 1) || (forall|i: int|
            0 <= i < corners.len() ==> (#[trigger] corners[i]).grid.0 < spec.squares_y - 1
                && corners[i].grid.1 < spec.squares_x - 1),
{
    lemma_top_at_least_zero(corners, false);
    lemma_top_at_least_zero(corners, true);
    assert forall|i: int| 0 <= i < corners.len() implies (#[trigger] corners[i]).grid.0 <= top(
        corners,
        false,
    ) && corners[i].grid.1 <= top(corners, true) by {
        lemma_top(corners, false, i);
        lemma_top(corners, true, i);
    }
}

proof fn lemma_top_at_least_zero(corners: Seq<Corner>, axis: bool)
    ensures
        top(corners, axis) >= 0,
    decreases corners.len(),
{
    if corners.len() > 0 {
        lemma_top_at_least_zero(corners.drop_last(), axis);
    }
}

/// Fewer corners of a grid that was accepted are accepted too, as long as they are enough.
pub proof fn a_part_of_what_is_accepted_is_accepted(
    all: Seq<Corner>,
    some: Seq<Corner>,
    spec: ChessboardSpec,
)
    requires
        fits(all, spec),
        forall|i: int| 0 <= i < some.len() ==> all.contains(#[trigger] some[i]),
    ensures
        fits(some, spec),
{
    lemma_top_at_least_zero(all, false);
    lemma_top_at_least_zero(all, true);
    assert forall|i: int| 0 <= i < some.len() implies (#[trigger] some[i]).grid.0 <= top(all, false)
        && some[i].grid.1 <= top(all, true) by {
        let k = choose|k: int| 0 <= k < all.len() && all[k] == some[i];
        assert(all.contains(some[i]));
        lemma_top(all, false, k);
        lemma_top(all, true, k);
    }
    lemma_top_within(some, false, top(all, false) + 1);
    lemma_top_within(some, true, top(all, true) + 1);
}

/// How many columns and rows a detection has: more than each label, and no more than the largest.
pub proof fn the_extent_is_the_largest_label(corners: Seq<Corner>, axis: bool)
    requires
        corners.len() > 0,
        forall|i: int|
            0 <= i < corners.len() ==> (#[trigger] corners[i]).grid.0 >= 0 && corners[i].grid.1
                >= 0,
    ensures
        forall|i: int|
            0 <= i < corners.len() ==> (if axis {
                (#[trigger] corners[i]).grid.1
            } else {
                corners[i].grid.0
            }) <= top(corners, axis),
        exists|i: int|
            0 <= i < corners.len() && (if axis {
                (#[trigger] corners[i]).grid.1
            } else {
                corners[i].grid.0
            }) == top(corners, axis),
    decreases corners.len(),
{
    assert forall|i: int| 0 <= i < corners.len() implies (if axis {
        (#[trigger] corners[i]).grid.1
    } else {
        corners[i].grid.0
    }) <= top(corners, axis) by {
        lemma_top(corners, axis, i);
    }
    let before = corners.drop_last();
    let n = corners.len() - 1;
    assert(corners[n] == corners.last());
    if before.len() > 0 {
        assert forall|i: int| 0 <= i < before.len() implies (#[trigger] before[i]).grid.0 >= 0
            && before[i].grid.1 >= 0 by {
            assert(before[i] == corners[i]);
        }
        the_extent_is_the_largest_label(before, axis);
        let k = choose|k: int|
            0 <= k < before.len() && (if axis {
                (#[trigger] before[k]).grid.1
            } else {
                before[k].grid.0
            }) == top(before, axis);
        assert(corners[k] == before[k]);
    }
}

/// A row of numbers, added up.
pub open spec fn added_up(numbers: Seq<nat>) -> nat
    decreases numbers.len(),
{
    if numbers.len() == 0 {
        0
    } else {
        added_up(numbers.drop_last()) + numbers.last()
    }
}

/// The coordinates of the corners are added up: whole pixels come to their sum.
pub proof fn coordinates_add_up(corners: Seq<Corner>, axis: int, numbers: Seq<nat>)
    requires
        corners.len() == numbers.len(),
        forall|i: int|
            0 <= i < corners.len() ==> (#[trigger] corners[i]).px[axis] == F32::of_nat(numbers[i]),
        added_up(numbers) < 0x100_0000,
    ensures
        px_sum(corners, axis) == F32::of_nat(added_up(numbers)),
    decreases corners.len(),
{
    if corners.len() == 0 {
        single::lemma_of_zero();
    } else {
        let (rest, fewer) = (corners.drop_last(), numbers.drop_last());
        assert forall|i: int| 0 <= i < rest.len() implies (#[trigger] rest[i]).px[axis]
            == F32::of_nat(fewer[i]) by {
            assert(rest[i] == corners[i]);
        }
        coordinates_add_up(rest, axis, fewer);
        assert(corners[corners.len() - 1].px[axis] == F32::of_nat(numbers.last()));
        single::whole_numbers_add_up(added_up(fewer), numbers.last());
    }
}

/// The centroid is the mean of the corners: as many times as many pixels as there are corners is
/// that many. Without corners it is the origin.
pub proof fn the_centroid_is_the_mean(
    corners: Seq<Corner>,
    axis: int,
    numbers: Seq<nat>,
    mean: nat,
)
    requires
        corners.len() == numbers.len(),
        corners.len() <= u64::MAX,
        forall|i: int|
            0 <= i < corners.len() ==> (#[trigger] corners[i]).px[axis] == F32::of_nat(numbers[i]),
        added_up(numbers) == corners.len() * mean,
        corners.len() * mean < 0x100_0000,
        corners.len() == 0 ==> mean == 0,
    ensures
        px_sum(corners, axis).spec_over(corner_weight(corners)) == F32::of_nat(mean),
{
    coordinates_add_up(corners, axis, numbers);
    if corners.len() > 0 {
        single::a_multiple_is_divided(corners.len(), mean);
    } else {
        single::a_multiple_is_divided(1, 0);
    }
}

/// A board of so many squares has one corner less each way, and none where it has no squares.
pub proof fn corners_are_between_squares(spec: ChessboardSpec)
    ensures
        spec.squares_x > 0 && spec.squares_y > 0 ==> spec.corner_count() == (spec.squares_x - 1) * (
        spec.squares_y - 1),
        spec.squares_x <= 1 || spec.squares_y <= 1 ==> spec.corner_count() == 0,
{
    mul::lemma_mul_basics(inner(spec.squares_x) as int);
    mul::lemma_mul_basics(inner(spec.squares_y) as int);
}

/// The squares of a board are twenty millimetres wide unless it is told otherwise.
pub proof fn squares_are_twenty_millimetres_wide()
    ensures
        (F32 { bits: SQUARE_MM }) == F32::of_nat(20),
{
    power2::lemma2_to64();
    single::a_pattern_is_its_value(0xa0_0000, 20, 19, 130);
}

} // verus!
