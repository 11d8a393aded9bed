//! The rolling shutter: which frames of a sweep are measured, and what becomes of the
//! measurements.
//!
//! A rolling shutter exposes each row later than the one above, so a board that moves sideways
//! is sheared. Over a sweep with varying speed the shear of a frame grows linearly with its
//! velocity, and the slope is the line delay. Velocity and shear are measured on two consecutive
//! frames that both show the whole board.
use vstd::prelude::*;

use crate::calibration::board::{ChessboardSpec, Corner, Detection};
use crate::calibration::lens::{CameraCalibration, RollingShutter};
use crate::double::F64;
use crate::duration::Duration;

verus! {

/// Six hundred, as the bits of a double.
pub const MIN_SPEED_SPAN: u64 = 0x4082_c000_0000_0000;

/// The corners that two frames must have in common.
pub const MIN_PAIRS: usize = 8;

/// The samples that an estimate needs at least.
pub const MIN_SAMPLES: usize = 6;

/// The horizontal velocity of the board (px/s) and its shear (px per row) in one frame.
#[derive(Debug, Clone, Copy, PartialEq, Eq, Structural)]
pub struct Sample {
    pub velocity_px_s: F64,
    pub shear: F64,
}

/// What the regression of shear against velocity yields, as in [`RollingShutter`].
#[derive(Debug, Clone, Copy, PartialEq, Eq, Structural)]
pub struct Regression {
    pub line_delay_us: F64,
    pub readout_ms: F64,
    pub spread_us: F64,
}

/// Feedback for one frame.
#[derive(Debug, Clone, Copy, PartialEq, Eq, Structural)]
pub enum SweepVerdict {
    /// Board must be fully visible in this and the previous frame.
    Incomplete,
    /// Previous frame missing or not consecutive; this one becomes the reference.
    NoPair,
    /// Accepted with this horizontal velocity (px/s) and shear (px per row).
    Accepted { velocity_px_s: F64, shear: F64 },
}

/// What is to be done about a frame.
#[derive(Debug)]
pub enum SweepStep {
    Verdict(SweepVerdict),
    /// Measure the frame: each corner and where it was in the previous frame, and the time
    /// between the two.
    Measure { pairs: Vec<(Corner, Corner)>, elapsed: Duration },
}

/// Estimates the rolling-shutter line delay from a board swept back and forth across the view.
#[derive(Debug)]
pub struct RollingShutterCalibrator {
    pub calibration: CameraCalibration,
    pub spec: ChessboardSpec,
    /// Velocity range (fastest minus slowest horizontal velocity, px/s) the samples must span
    /// before an estimate is reported.
    pub min_speed_span_px_s: F64,
    pub prev: Option<Detection>,
    /// One for each accepted frame.
    pub samples: Vec<Sample>,
}

pub open spec fn same_label(a: Corner, b: Corner) -> bool {
    a.grid.0 == b.grid.0 && a.grid.1 == b.grid.1
}

/// The first of the corners with the label of `c`.
pub open spec fn partner(corners: Seq<Corner>, c: Corner) -> Option<Corner>
    decreases corners.len(),
{
    if corners.len() == 0 {
        None
    } else {
        match partner(corners.drop_last(), c) {
            Some(p) => Some(p),
            None => if same_label(corners.last(), c) {
                Some(corners.last())
            } else {
                None
            },
        }
    }
}

/// Each corner that the previous frame has too, with its place there.
pub open spec fn pairs_of(now: Seq<Corner>, before: Seq<Corner>) -> Seq<(Corner, Corner)>
    decreases now.len(),
{
    if now.len() == 0 {
        Seq::empty()
    } else {
        let rest = pairs_of(now.drop_last(), before);
        match partner(before, now.last()) {
            Some(p) => rest.push((now.last(), p)),
            None => rest,
        }
    }
}

fn find_partner(corners: &Vec<Corner>, c: &Corner) -> (r: Option<Corner>)
    ensures
        r == partner(corners@, *c),
{
    let mut i: usize = 0;
    while i < corners.len()
        invariant
            i <= corners.len(),
            partner(corners@.take(i as int), *c) is None,
        decreases corners.len() - i,
    {
        proof {
            assert(corners@.take(i + 1).drop_last() =~= corners@.take(i as int));
        }
        if corners[i].grid.0 == c.grid.0 && corners[i].grid.1 == c.grid.1 {
            proof {
                lemma_partner_stays(corners@, *c, i + 1);
            }
            return Some(corners[i]);
        }
        i = i + 1;
    }
    proof {
        assert(corners@.take(corners.len() as int) =~= corners@);
    }
    None
}

proof fn lemma_partner_stays(corners: Seq<Corner>, c: Corner, n: int)
    requires
        0 <= n <= corners.len(),
        partner(corners.take(n), c) is Some,
    ensures
        partner(corners, c) == partner(corners.take(n), c),
    decreases corners.len(),
{
    if n == corners.len() {
        assert(corners.take(n) =~= corners);
    } else {
        assert(corners.drop_last().take(n) =~= corners.take(n));
        lemma_partner_stays(corners.drop_last(), c, n);
    }
}

fn find_pairs(now: &Vec<Corner>, before: &Vec<Corner>) -> (r: Vec<(Corner, Corner)>)
    ensures
        r@ == pairs_of(now@, before@),
{
    let mut pairs: Vec<(Corner, Corner)> = Vec::new();
    let mut i: usize = 0;
    proof {
        assert(pairs_of(now@.take(0), before@) =~= Seq::empty());
    }
    while i < now.len()
        invariant
            i <= now.len(),
            pairs@ == pairs_of(now@.take(i as int), before@),
        decreases now.len() - i,
    {
        proof {
            assert(now@.take(i + 1).drop_last() =~= now@.take(i as int));
        }
        if let Some(p) = find_partner(before, &now[i]) {
            pairs.push((now[i], p));
        }
        i = i + 1;
    }
    proof {
        assert(now@.take(now.len() as int) =~= now@);
    }
    pairs
}

/// The frame follows the previous one directly: by its number, which may wrap, and in time.
pub open spec fn follows(d: Detection, prev: Detection) -> bool {
    &&& (d.sequence - prev.sequence) % 0x1_0000_0000 == 1
    &&& d.timestamp.nanos > prev.timestamp.nanos
}

impl RollingShutterCalibrator {
    pub open spec fn wf(self) -> bool {
        self.spec.countable()
    }

    /// Everything but the reference frame and the samples is the same in both.
    pub open spec fn same_setup(self, other: RollingShutterCalibrator) -> bool {
        &&& self.calibration == other.calibration
        &&& self.spec == other.spec
        &&& self.min_speed_span_px_s == other.min_speed_span_px_s
    }

    /// The corners of a frame that can be measured: it is complete, and so was the one directly
    /// before it, with which it shares enough corners.
    pub open spec fn measurable(self, d: Detection) -> bool {
        &&& d.corners@.len() == self.spec.corner_count()
        &&& self.prev matches Some(prev) && follows(d, prev) && pairs_of(
            d.corners@,
            prev.corners@,
        ).len() >= MIN_PAIRS
    }

    pub fn new(calibration: CameraCalibration, spec: ChessboardSpec) -> (r:
        RollingShutterCalibrator)
        requires
            spec.countable(),
        ensures
            r.wf(),
            r.calibration == calibration,
            r.spec == spec,
            r.min_speed_span_px_s.bits == MIN_SPEED_SPAN,
            r.prev is None,
            r.samples@.len() == 0,
    {
        RollingShutterCalibrator {
            calibration,
            spec,
            min_speed_span_px_s: F64 { bits: MIN_SPEED_SPAN },
            prev: None,
            samples: Vec::new(),
        }
    }

    pub fn samples(&self) -> (r: usize)
        ensures
            r == self.samples@.len(),
    {
        self.samples.len()
    }

    /// Takes in a frame. A complete one becomes the reference for the next.
    pub fn feed(&mut self, d: &Detection) -> (r: SweepStep)
        requires
            old(self).wf(),
        ensures
            final(self).wf(),
            final(self).same_setup(*old(self)),
            final(self).samples@ == old(self).samples@,
            if d.corners@.len() == old(self).spec.corner_count() {
                final(self).prev matches Some(p) && p.same(*d)
            } else {
                final(self).prev is None
            },
            if d.corners@.len() != old(self).spec.corner_count() {
                r == SweepStep::Verdict(SweepVerdict::Incomplete)
            } else if !old(self).measurable(*d) {
                r == SweepStep::Verdict(SweepVerdict::NoPair)
            } else {
                r matches SweepStep::Measure { pairs, elapsed } && pairs@ == pairs_of(
                    d.corners@,
                    old(self).prev->0.corners@,
                ) && elapsed.nanos == d.timestamp.nanos - old(self).prev->0.timestamp.nanos
            },
    {
        if !d.is_complete(&self.spec) {
            self.prev = None;
            return SweepStep::Verdict(SweepVerdict::Incomplete);
        }
        let prev = match self.prev.take() {
            Some(prev) => prev,
            None => {
                self.prev = Some(d.duplicate());
                return SweepStep::Verdict(SweepVerdict::NoPair);
            },
        };
        self.prev = Some(d.duplicate());
        let next: u32 = if prev.sequence == 0xffff_ffff {
            0
        } else {
            prev.sequence + 1
        };
        if d.sequence != next || d.timestamp.nanos <= prev.timestamp.nanos {
            return SweepStep::Verdict(SweepVerdict::NoPair);
        }
        let pairs = find_pairs(&d.corners, &prev.corners);
        if pairs.len() < MIN_PAIRS {
            return SweepStep::Verdict(SweepVerdict::NoPair);
        }
        SweepStep::Measure { pairs, elapsed: d.timestamp.saturating_sub(prev.timestamp) }
    }

    /// Takes in what was measured of a frame; nothing where its shear cannot be told.
    pub fn measured(&mut self, sample: Option<Sample>) -> (r: SweepVerdict)
        requires
            old(self).wf(),
        ensures
            final(self).wf(),
            final(self).same_setup(*old(self)),
            final(self).prev == old(self).prev,
            match sample {
                Some(s) => {
                    &&& final(self).samples@ == old(self).samples@.push(s)
                    &&& r == (SweepVerdict::Accepted {
                        velocity_px_s: s.velocity_px_s,
                        shear: s.shear,
                    })
                },
                None => {
                    &&& final(self).samples@ == old(self).samples@
                    &&& r == SweepVerdict::NoPair
                },
            },
    {
        match sample {
            Some(s) => {
                self.samples.push(s);
                SweepVerdict::Accepted { velocity_px_s: s.velocity_px_s, shear: s.shear }
            },
            None => SweepVerdict::NoPair,
        }
    }

    /// What comes of the regression of shear against velocity over the samples, whose velocities
    /// range over `span`: nothing until there are enough samples and they span enough speed. An
    /// estimate is based on all samples.
    pub open spec fn estimated(self, span: F64, fit: Option<Regression>) -> Option<
        RollingShutter,
    > {
        match fit {
            Some(f) if self.samples@.len() >= MIN_SAMPLES && !span.spec_lt(
                self.min_speed_span_px_s,
            ) => Some(
                RollingShutter {
                    line_delay_us: f.line_delay_us,
                    readout_ms: f.readout_ms,
                    samples: self.samples@.len() as usize,
                    spread_us: f.spread_us,
                },
            ),
            _ => None,
        }
    }

    /// The estimate, given the regression of shear against velocity over the samples and the range
    /// of their velocities, fastest minus slowest.
    pub fn estimate(&self, span: F64, fit: Option<Regression>) -> (r: Option<RollingShutter>)
        ensures
            r == self.estimated(span, fit),
            r matches Some(e) ==> e.samples == self.samples@.len(),
    {
        if self.samples.len() < MIN_SAMPLES || span.less(&self.min_speed_span_px_s) {
            return None;
        }
        match fit {
            Some(f) => Some(
                RollingShutter {
                    line_delay_us: f.line_delay_us,
                    readout_ms: f.readout_ms,
                    samples: self.samples.len(),
                    spread_us: f.spread_us,
                },
            ),
            None => None,
        }
    }
}

/// Every pair is of one label, and of corners of the two frames.
pub proof fn pairs_share_their_label(now: Seq<Corner>, before: Seq<Corner>, i: int)
    requires
        0 <= i < pairs_of(now, before).len(),
    ensures
        same_label(pairs_of(now, before)[i].0, pairs_of(now, before)[i].1),
        now.contains(pairs_of(now, before)[i].0),
        before.contains(pairs_of(now, before)[i].1),
    decreases now.len(),
{
    let rest = pairs_of(now.drop_last(), before);
    match partner(before, now.last()) {
        Some(p) => {
            lemma_partner_is_there(before, now.last());
            if i < rest.len() {
                pairs_share_their_label(now.drop_last(), before, i);
                let k = choose|k: int|
                    0 <= k < now.drop_last().len() && now.drop_last()[k] == rest[i].0;
                assert(now[k] == rest[i].0);
            } else {
                assert(now[now.len() - 1] == now.last());
            }
        },
        None => {
            pairs_share_their_label(now.drop_last(), before, i);
            let k = choose|k: int|
                0 <= k < now.drop_last().len() && now.drop_last()[k] == rest[i].0;
            assert(now[k] == rest[i].0);
        },
    }
}

proof fn lemma_partner_is_there(corners: Seq<Corner>, c: Corner)
    requires
        partner(corners, c) is Some,
    ensures
        same_label(partner(corners, c)->0, c),
        corners.contains(partner(corners, c)->0),
    decreases corners.len(),
{
    if partner(corners.drop_last(), c) is Some {
        lemma_partner_is_there(corners.drop_last(), c);
        let p = partner(corners.drop_last(), c)->0;
        let k = choose|k: int| 0 <= k < corners.drop_last().len() && corners.drop_last()[k] == p;
        assert(corners[k] == p);
    } else {
        assert(corners[corners.len() - 1] == corners.last());
    }
}

/// A frame follows another directly if its number is the next one, the first after the last, and it
/// was taken later.
pub proof fn a_frame_follows_the_one_before(d: Detection, prev: Detection)
    ensures
        follows(d, prev) <==> d.timestamp.nanos > prev.timestamp.nanos && (d.sequence
            == prev.sequence + 1 || (d.sequence == 0 && prev.sequence == 0xffff_ffff)),
{
}

/// Of several corners with one label the first is meant.
pub proof fn the_first_with_the_label(corners: Seq<Corner>, c: Corner, i: int)
    requires
        forall|j: int|
            0 <= j < i && j < corners.len() ==> (#[trigger] corners[j]).grid != c.grid,
        0 <= i <= corners.len(),
        i < corners.len() ==> corners[i].grid == c.grid,
    ensures
        partner(corners, c) == if i < corners.len() {
            Some(corners[i])
        } else {
            None
        },
    decreases corners.len(),
{
    if corners.len() > 0 {
        let rest = corners.drop_last();
        if i < corners.len() {
            if i < rest.len() {
                the_first_with_the_label(rest, c, i);
            } else {
                the_first_with_the_label(rest, c, rest.len() as int);
            }
        } else {
            the_first_with_the_label(rest, c, rest.len() as int);
            assert(corners[corners.len() - 1].grid != c.grid);
        }
    }
}

/// Every corner that the previous frame has too is paired, with its place there; none is left out,
/// and none is added.
pub proof fn every_common_corner_is_paired(now: Seq<Corner>, before: Seq<Corner>, c: Corner, p: Corner)
    ensures
        pairs_of(now, before).contains((c, p)) <==> now.contains(c) && partner(before, c) == Some(p),
        pairs_of(now, before).len() <= now.len(),
        (forall|i: int| 0 <= i < now.len() ==> partner(before, #[trigger] now[i]) is Some)
            ==> pairs_of(now, before).len() == now.len(),
    decreases now.len(),
{
    if now.len() > 0 {
        let rest = now.drop_last();
        let (all, fewer) = (pairs_of(now, before), pairs_of(rest, before));
        every_common_corner_is_paired(rest, before, c, p);
        assert(now =~= rest.push(now.last()));
        if rest.contains(c) {
            let k = choose|k: int| 0 <= k < rest.len() && rest[k] == c;
            assert(now[k] == c);
        }
        if fewer.contains((c, p)) {
            let k = choose|k: int| 0 <= k < fewer.len() && fewer[k] == (c, p);
            assert(all[k] == (c, p));
        }
        if all.contains((c, p)) {
            let k = choose|k: int| 0 <= k < all.len() && all[k] == (c, p);
            if k < fewer.len() {
                assert(fewer[k] == (c, p));
            } else {
                assert(now[now.len() - 1] == c);
            }
        }
        if c == now.last() && partner(before, c) == Some(p) {
            assert(all[all.len() - 1] == (c, p));
        }
        assert(now[now.len() - 1] == now.last());
        if forall|i: int| 0 <= i < now.len() ==> partner(before, #[trigger] now[i]) is Some {
            assert forall|i: int| 0 <= i < rest.len() implies partner(
                before,
                #[trigger] rest[i],
            ) is Some by {
                assert(rest[i] == now[i]);
            }
        }
    }
}

/// A frame is measured where it and the one directly before it show the whole board and have eight
/// corners in common; an estimate needs six samples and the range of speeds that was asked for, and
/// says what the fit says.
pub proof fn what_a_sweep_needs(
    sweep: RollingShutterCalibrator,
    d: Detection,
    span: F64,
    fit: Regression,
)
    ensures
        sweep.prev is None ==> !sweep.measurable(d),
        sweep.prev matches Some(prev) ==> (sweep.measurable(d) <==> d.corners@.len()
            == sweep.spec.corner_count() && follows(d, prev) && pairs_of(
            d.corners@,
            prev.corners@,
        ).len() >= 8),
        sweep.estimated(span, None) is None,
        sweep.estimated(span, Some(fit)) is Some <==> sweep.samples@.len() >= 6 && !span.spec_lt(
            sweep.min_speed_span_px_s,
        ),
        sweep.estimated(span, Some(fit)) matches Some(e) ==> e.line_delay_us == fit.line_delay_us
            && e.readout_ms == fit.readout_ms && e.spread_us == fit.spread_us,
{
}

/// The range of speeds that is asked for unless told otherwise is six hundred: the places of the
/// double and its exponent.
pub proof fn the_speeds_range_over_six_hundred()
    ensures
        MIN_SPEED_SPAN / 0x10_0000_0000_0000 == 1023 + 9,
        0x10_0000_0000_0000 + MIN_SPEED_SPAN % 0x10_0000_0000_0000 == 600 * 0x800_0000_0000,
{
}

} // verus!
