//! Picking a capture mode.
use vstd::prelude::*;

use crate::capture::modes::CaptureMode;
use crate::fourcc::{FourCC, FOURCC_MJPG, FOURCC_UYVY, FOURCC_YUYV};
use crate::single::{self, F32};

verus! {

/// Below this a feed reads as a slideshow: 24 frames per second.
pub const SMOOTH_FPS: u32 = 0x41c0_0000;

/// What the caller wants. Any field may be left unspecified.
#[derive(Debug, Clone, Copy)]
pub struct Want {
    pub width: Option<u32>,
    pub height: Option<u32>,
    pub fps: Option<F32>,
    /// Restrict to one pixel format.
    pub fourcc: Option<FourCC>,
}

/// A chosen mode and the rate to request.
#[derive(Debug, Clone, Copy, PartialEq, Eq, Structural)]
pub struct Choice {
    pub fourcc: FourCC,
    pub width: u32,
    pub height: u32,
    pub fps: F32,
    /// Raw pixels the GPU can read without a decoder (the zero-copy path).
    pub raw: bool,
}

impl Default for Want {
    fn default() -> (r: Want)
        ensures
            r.width is None,
            r.height is None,
            r.fps is None,
            r.fourcc is None,
    {
        Want { width: None, height: None, fps: None, fourcc: None }
    }
}

pub open spec fn raw(fourcc: FourCC) -> bool {
    fourcc.code == FOURCC_YUYV || fourcc.code == FOURCC_UYVY
}

pub open spec fn supported(fourcc: FourCC) -> bool {
    raw(fourcc) || fourcc.code == FOURCC_MJPG
}

/// The fastest of the rates, zero where there is none above it.
pub open spec fn fastest(rates: Seq<F32>) -> F32
    decreases rates.len(),
{
    if rates.len() == 0 {
        F32 { bits: 0 }
    } else {
        fastest(rates.drop_last()).spec_larger(rates.last())
    }
}

/// The fastest of the rates that are no faster than `limit`; not a number where none is.
pub open spec fn fastest_within(rates: Seq<F32>, limit: F32) -> F32
    decreases rates.len(),
{
    if rates.len() == 0 {
        F32 { bits: single::QUIET }
    } else if rates.last().spec_le(limit) {
        fastest_within(rates.drop_last(), limit).spec_larger(rates.last())
    } else {
        fastest_within(rates.drop_last(), limit)
    }
}

/// How fast a mode is: its fastest rate, by the bits, which grow with a rate.
pub open spec fn pace(m: CaptureMode) -> nat {
    fastest(m.fps@).mag()
}

pub open spec fn area(m: CaptureMode) -> nat {
    m.width as nat * m.height as nat
}

/// The rate that a mode must reach.
pub open spec fn target(want: Want) -> F32 {
    match want.fps {
        Some(f) => f,
        None => F32 { bits: SMOOTH_FPS },
    }
}

pub open spec fn reaches(m: CaptureMode, want: Want) -> bool {
    target(want).spec_le(fastest(m.fps@))
}

/// A format that can be displayed and is not ruled out, with at least one rate.
pub open spec fn usable(m: CaptureMode, want: Want) -> bool {
    &&& supported(m.fourcc)
    &&& want.fourcc matches Some(f) ==> f == m.fourcc
    &&& m.fps@.len() > 0
}

pub open spec fn size_wanted(want: Want) -> bool {
    want.width is Some || want.height is Some
}

pub open spec fn size_fits(m: CaptureMode, want: Want) -> bool {
    &&& want.width matches Some(w) ==> w == m.width
    &&& want.height matches Some(h) ==> h == m.height
}

/// Some usable mode reaches the wanted rate.
pub open spec fn any_reaches(modes: Seq<CaptureMode>, want: Want) -> bool {
    exists|i: int| 0 <= i < modes.len() && usable(modes[i], want) && reaches(modes[i], want)
}

/// The modes among which the choice is made. With a size: those of that size. Without: those that
/// reach the wanted rate, or all where none does.
pub open spec fn candidate(modes: Seq<CaptureMode>, want: Want, m: CaptureMode) -> bool {
    usable(m, want) && if size_wanted(want) {
        size_fits(m, want)
    } else {
        any_reaches(modes, want) ==> reaches(m, want)
    }
}

pub open spec fn one_if(b: bool) -> nat {
    if b {
        1
    } else {
        0
    }
}

/// What makes one candidate better than another, most important first.
pub open spec fn rank(modes: Seq<CaptureMode>, want: Want, m: CaptureMode) -> (nat, nat, nat) {
    let rate = pace(m);
    let is_raw = one_if(raw(m.fourcc));
    if size_wanted(want) {
        if reaches(m, want) {
            (1, is_raw, rate)
        } else {
            (0, rate, is_raw)
        }
    } else if any_reaches(modes, want) {
        (area(m), is_raw, rate)
    } else {
        (area(m), rate, is_raw)
    }
}

/// The first triple comes before the second one, place by place.
pub open spec fn ranks_below(a: (nat, nat, nat), b: (nat, nat, nat)) -> bool {
    a.0 < b.0 || (a.0 == b.0 && (a.1 < b.1 || (a.1 == b.1 && a.2 < b.2)))
}

/// The mode at `i` is the best candidate, and the last one of several equally good ones.
pub open spec fn picked(modes: Seq<CaptureMode>, want: Want, i: int) -> bool {
    &&& 0 <= i < modes.len()
    &&& candidate(modes, want, modes[i])
    &&& forall|j: int|
        0 <= j < modes.len() && candidate(modes, want, #[trigger] modes[j]) ==> if j <= i {
            !ranks_below(rank(modes, want, modes[i]), rank(modes, want, modes[j]))
        } else {
            ranks_below(rank(modes, want, modes[j]), rank(modes, want, modes[i]))
        }
}

/// The rate to ask a mode for: its fastest one not above the request, its fastest one where nothing
/// is requested or the request lies below all of them.
pub open spec fn rate_for(rates: Seq<F32>, want: Want) -> F32 {
    match want.fps {
        Some(f) => {
            let within = fastest_within(rates, f);
            if within.nan() {
                fastest(rates)
            } else {
                within
            }
        },
        None => fastest(rates),
    }
}

pub open spec fn choice_of(m: CaptureMode, want: Want) -> Choice {
    Choice {
        fourcc: m.fourcc,
        width: m.width,
        height: m.height,
        fps: rate_for(m.fps@, want),
        raw: raw(m.fourcc),
    }
}

pub fn is_raw(fourcc: FourCC) -> (r: bool)
    ensures
        r == raw(fourcc),
{
    fourcc.code == FOURCC_YUYV || fourcc.code == FOURCC_UYVY
}

pub fn is_supported(fourcc: FourCC) -> (r: bool)
    ensures
        r == supported(fourcc),
{
    is_raw(fourcc) || fourcc.code == FOURCC_MJPG
}

pub(crate) fn fastest_rate(rates: &Vec<F32>) -> (r: F32)
    ensures
        r == fastest(rates@),
{
    let mut best: F32 = F32 { bits: 0 };
    let mut i: usize = 0;
    proof {
        assert(rates@.take(0) =~= Seq::empty());
    }
    while i < rates.len()
        invariant
            i <= rates.len(),
            best == fastest(rates@.take(i as int)),
        decreases rates.len() - i,
    {
        proof {
            assert(rates@.take(i + 1).drop_last() =~= rates@.take(i as int));
        }
        best = best.larger(&rates[i]);
        i = i + 1;
    }
    proof {
        assert(rates@.take(rates.len() as int) =~= rates@);
    }
    best
}

fn fastest_rate_within(rates: &Vec<F32>, limit: &F32) -> (r: F32)
    ensures
        r == fastest_within(rates@, *limit),
{
    let mut best: F32 = F32 { bits: single::QUIET };
    let mut i: usize = 0;
    proof {
        assert(rates@.take(0) =~= Seq::empty());
    }
    while i < rates.len()
        invariant
            i <= rates.len(),
            best == fastest_within(rates@.take(i as int), *limit),
        decreases rates.len() - i,
    {
        proof {
            assert(rates@.take(i + 1).drop_last() =~= rates@.take(i as int));
        }
        if rates[i].at_most(limit) {
            best = best.larger(&rates[i]);
        }
        i = i + 1;
    }
    proof {
        assert(rates@.take(rates.len() as int) =~= rates@);
    }
    best
}

pub(crate) fn mode_usable(m: &CaptureMode, want: &Want) -> (r: bool)
    ensures
        r == usable(*m, *want),
{
    let format_fits = match want.fourcc {
        Some(f) => f == m.fourcc,
        None => true,
    };
    is_supported(m.fourcc) && format_fits && m.fps.len() > 0
}

fn mode_reaches(m: &CaptureMode, want: &Want) -> (r: bool)
    ensures
        r == reaches(*m, *want),
{
    let target = match want.fps {
        Some(f) => f,
        None => F32 { bits: SMOOTH_FPS },
    };
    target.at_most(&fastest_rate(&m.fps))
}

pub(crate) fn mode_size_fits(m: &CaptureMode, want: &Want) -> (r: bool)
    ensures
        r == size_fits(*m, *want),
{
    let width_fits = match want.width {
        Some(w) => w == m.width,
        None => true,
    };
    let height_fits = match want.height {
        Some(h) => h == m.height,
        None => true,
    };
    width_fits && height_fits
}

fn some_mode_reaches(modes: &[CaptureMode], want: &Want) -> (r: bool)
    ensures
        r == any_reaches(modes@, *want),
{
    let mut i: usize = 0;
    while i < modes.len()
        invariant
            i <= modes.len(),
            forall|j: int|
                0 <= j < i ==> !(usable(#[trigger] modes[j], *want) && reaches(modes[j], *want)),
        decreases modes.len() - i,
    {
        if mode_usable(&modes[i], want) && mode_reaches(&modes[i], want) {
            return true;
        }
        i = i + 1;
    }
    false
}

/// The pace of a mode, its area, and one where it is raw.
pub(crate) fn mode_figures(m: &CaptureMode) -> (r: (u64, u64, u64))
    ensures
        r.0 == pace(*m),
        r.1 == area(*m),
        r.2 == one_if(raw(m.fourcc)),
{
    let rate: u64 = fastest_rate(&m.fps).magnitude() as u64;
    let is_raw: u64 = if is_raw(m.fourcc) {
        1
    } else {
        0
    };
    proof {
        assert(m.width * m.height <= 0xffff_ffff * 0xffff_ffff) by (nonlinear_arith)
            requires
                m.width <= 0xffff_ffff,
                m.height <= 0xffff_ffff,
        ;
    }
    (rate, (m.width as u64) * (m.height as u64), is_raw)
}

/// The rank of a mode, given whether some mode reaches the wanted rate.
fn mode_rank(m: &CaptureMode, want: &Want, smooth: bool, Ghost(modes): Ghost<Seq<CaptureMode>>) -> (r: (
    u64,
    u64,
    u64,
))
    requires
        !size_wanted(*want) ==> smooth == any_reaches(modes, *want),
    ensures
        r.0 == rank(modes, *want, *m).0,
        r.1 == rank(modes, *want, *m).1,
        r.2 == rank(modes, *want, *m).2,
{
    let (rate, area, is_raw): (u64, u64, u64) = mode_figures(m);
    if want.width.is_some() || want.height.is_some() {
        if mode_reaches(m, want) {
            (1, is_raw, rate)
        } else {
            (0, rate, is_raw)
        }
    } else if smooth {
        (area, is_raw, rate)
    } else {
        (area, rate, is_raw)
    }
}

/// Choose the mode that best matches `want`.
///
/// Rules, in order:
/// 1. Only formats that can be displayed (raw 4:2:2 or MJPEG).
/// 2. At the requested size, prefer a raw mode that reaches the requested rate, then MJPEG that
///    reaches it, then whichever is fastest (raw wins ties). Raw is preferred because it needs
///    no decoder and can be read by the GPU in place.
/// 3. With no size given: the largest mode that reaches the requested rate (or [`SMOOTH_FPS`]),
///    raw preferred at equal size; failing that, the fastest mode at the largest size.
///
/// The returned rate is the highest offered rate not above the requested one, or the mode's
/// fastest when nothing is requested or the request is unreachable.
pub fn choose_mode(modes: &[CaptureMode], want: Want) -> (r: Option<Choice>)
    ensures
        match r {
            None => forall|i: int|
                0 <= i < modes.len() ==> !candidate(modes@, want, #[trigger] modes[i]),
            Some(c) => exists|i: int|
                #[trigger] picked(modes@, want, i) && c == choice_of(modes[i], want),
        },
{
    let sized = want.width.is_some() || want.height.is_some();
    let smooth = !sized && some_mode_reaches(modes, &want);
    let mut best: Option<usize> = None;
    let mut top: (u64, u64, u64) = (0, 0, 0);
    let mut i: usize = 0;
    while i < modes.len()
        invariant
            i <= modes.len(),
            sized == size_wanted(want),
            !sized ==> smooth == any_reaches(modes@, want),
            match best {
                None => forall|j: int|
                    0 <= j < i ==> !candidate(modes@, want, #[trigger] modes[j]),
                Some(b) => {
                    &&& b < i
                    &&& candidate(modes@, want, modes[b as int])
                    &&& rank(modes@, want, modes[b as int]) == (
                        top.0 as nat,
                        top.1 as nat,
                        top.2 as nat,
                    )
                    &&& forall|j: int|
                        0 <= j < i && candidate(modes@, want, #[trigger] modes[j]) ==> if j <= b {
                            !ranks_below(
                                rank(modes@, want, modes[b as int]),
                                rank(modes@, want, modes[j]),
                            )
                        } else {
                            ranks_below(
                                rank(modes@, want, modes[j]),
                                rank(modes@, want, modes[b as int]),
                            )
                        }
                },
            },
        decreases modes.len() - i,
    {
        let m = &modes[i];
        let fits = if sized {
            mode_size_fits(m, &want)
        } else {
            !smooth || mode_reaches(m, &want)
        };
        if mode_usable(m, &want) && fits {
            let k: (u64, u64, u64) = mode_rank(m, &want, smooth, Ghost(modes@));
            let worse = k.0 < top.0 || (k.0 == top.0 && (k.1 < top.1 || (k.1 == top.1 && k.2
                < top.2)));
            if best.is_none() || !worse {
                best = Some(i);
                top = k;
            }
        }
        i = i + 1;
    }
    match best {
        None => None,
        Some(b) => {
            let m = &modes[b];
            let fps = match want.fps {
                Some(f) => {
                    let within = fastest_rate_within(&m.fps, &f);
                    if within.is_nan() {
                        fastest_rate(&m.fps)
                    } else {
                        within
                    }
                },
                None => fastest_rate(&m.fps),
            };
            proof {
                assert(picked(modes@, want, b as int));
            }
            Some(
                Choice {
                    fourcc: m.fourcc,
                    width: m.width,
                    height: m.height,
                    fps,
                    raw: is_raw(m.fourcc),
                },
            )
        },
    }
}


/// At most one mode is picked, so a choice follows from the modes and the wish alone.
pub proof fn pick_is_unique(modes: Seq<CaptureMode>, want: Want, i: int, j: int)
    requires
        picked(modes, want, i),
        picked(modes, want, j),
    ensures
        i == j,
{
    assert(candidate(modes, want, modes[i]));
    assert(candidate(modes, want, modes[j]));
}

/// Some mode is picked whenever there is a candidate.
pub proof fn pick_exists(modes: Seq<CaptureMode>, want: Want, k: int)
    requires
        0 <= k < modes.len(),
        candidate(modes, want, modes[k]),
    ensures
        exists|i: int| picked(modes, want, i),
{
    let i = lemma_best_before(modes, want, modes.len() as int, k);
    assert(picked(modes, want, i));
}

/// The best candidate before `n`.
proof fn lemma_best_before(modes: Seq<CaptureMode>, want: Want, n: int, k: int) -> (i: int)
    requires
        0 <= k < n <= modes.len(),
        candidate(modes, want, modes[k]),
    ensures
        0 <= i < n,
        candidate(modes, want, modes[i]),
        forall|j: int|
            0 <= j < n && candidate(modes, want, #[trigger] modes[j]) ==> if j <= i {
                !ranks_below(rank(modes, want, modes[i]), rank(modes, want, modes[j]))
            } else {
                ranks_below(rank(modes, want, modes[j]), rank(modes, want, modes[i]))
            },
    decreases n,
{
    if forall|j: int| 0 <= j < n - 1 ==> !candidate(modes, want, #[trigger] modes[j]) {
        n - 1
    } else {
        let j = choose|j: int| 0 <= j < n - 1 && candidate(modes, want, #[trigger] modes[j]);
        let i = lemma_best_before(modes, want, n - 1, j);
        if candidate(modes, want, modes[n - 1]) && !ranks_below(
            rank(modes, want, modes[n - 1]),
            rank(modes, want, modes[i]),
        ) {
            n - 1
        } else {
            i
        }
    }
}

/// Only formats that can be displayed are chosen, and only as they are asked for: of the wanted
/// format and the wanted size, where these are given.
pub proof fn choice_honours_the_request(modes: Seq<CaptureMode>, want: Want, i: int)
    requires
        picked(modes, want, i),
    ensures
        supported(modes[i].fourcc),
        want.fourcc matches Some(f) ==> modes[i].fourcc == f,
        want.width matches Some(w) ==> modes[i].width == w,
        want.height matches Some(h) ==> modes[i].height == h,
{
}

/// At a requested size: a raw mode that reaches the rate wins over everything else, then any mode
/// that reaches it, then the fastest one, and among equally fast ones a raw one.
pub proof fn raw_first_at_a_size(modes: Seq<CaptureMode>, want: Want, i: int, j: int)
    requires
        picked(modes, want, i),
        size_wanted(want),
        0 <= j < modes.len(),
        candidate(modes, want, modes[j]),
    ensures
        reaches(modes[j], want) && raw(modes[j].fourcc) ==> reaches(modes[i], want) && raw(
            modes[i].fourcc,
        ),
        reaches(modes[j], want) ==> reaches(modes[i], want),
        !reaches(modes[i], want) ==> {
            let (a, b) = (fastest(modes[i].fps@), fastest(modes[j].fps@));
            b.spec_lt(a) || (b == a && (raw(modes[j].fourcc) ==> raw(modes[i].fourcc)))
        },
{
    assert(candidate(modes, want, modes[j]));
    pace_is_the_order_of_rates(modes[j], modes[i]);
}

/// Without a size: where some mode reaches the wanted rate, the chosen one reaches it and none
/// that does is larger; of those of its size it is raw if one of them is.
pub proof fn largest_smooth_mode(modes: Seq<CaptureMode>, want: Want, i: int, j: int)
    requires
        picked(modes, want, i),
        !size_wanted(want),
        0 <= j < modes.len(),
        usable(modes[j], want),
        reaches(modes[j], want),
    ensures
        reaches(modes[i], want),
        area(modes[j]) <= area(modes[i]),
        area(modes[j]) == area(modes[i]) && raw(modes[j].fourcc) ==> raw(modes[i].fourcc),
{
    assert(any_reaches(modes, want));
    assert(candidate(modes, want, modes[j]));
}

/// Without a size, where no mode reaches the wanted rate: none is larger than the chosen one, none
/// of its size is faster, and of those equally fast it is raw if one of them is.
pub proof fn fastest_at_the_largest_size_when_none_is_smooth(
    modes: Seq<CaptureMode>,
    want: Want,
    i: int,
    j: int,
)
    requires
        picked(modes, want, i),
        !size_wanted(want),
        !any_reaches(modes, want),
        0 <= j < modes.len(),
        usable(modes[j], want),
    ensures
        ({
            let (a, b) = (fastest(modes[i].fps@), fastest(modes[j].fps@));
            &&& area(modes[j]) <= area(modes[i])
            &&& area(modes[j]) == area(modes[i]) ==> b.spec_le(a)
            &&& area(modes[j]) == area(modes[i]) && b == a && raw(modes[j].fourcc) ==> raw(
                modes[i].fourcc,
            )
        }),
{
    assert(candidate(modes, want, modes[j]));
    pace_is_the_order_of_rates(modes[j], modes[i]);
}

/// One mode has a higher pace than another exactly where its fastest rate is the faster one, and
/// the same pace exactly where both are the same.
pub proof fn pace_is_the_order_of_rates(a: CaptureMode, b: CaptureMode)
    ensures
        pace(a) < pace(b) <==> fastest(a.fps@).spec_lt(fastest(b.fps@)),
        pace(a) <= pace(b) <==> fastest(a.fps@).spec_le(fastest(b.fps@)),
        pace(a) == pace(b) <==> fastest(a.fps@) == fastest(b.fps@),
{
    fastest_is_a_bound(a.fps@);
    fastest_is_a_bound(b.fps@);
    single::lemma_units_order(pace(a), pace(b));
    single::lemma_units_order(pace(b), pace(a));
}

/// No offered rate is faster than the fastest, which is one of them or zero, and not negative.
pub proof fn fastest_is_a_bound(rates: Seq<F32>)
    ensures
        !fastest(rates).nan(),
        !fastest(rates).negative(),
        rates.contains(fastest(rates)) || fastest(rates) == (F32 { bits: 0 }),
        forall|i: int| 0 <= i < rates.len() && !rates[i].nan() ==> rates[i].spec_le(fastest(rates)),
    decreases rates.len(),
{
    if rates.len() > 0 {
        let before = rates.drop_last();
        fastest_is_a_bound(before);
        if before.contains(fastest(before)) {
            let k = choose|k: int| 0 <= k < before.len() && before[k] == fastest(before);
            assert(rates[k] == fastest(before));
        }
        assert(rates[rates.len() - 1] == rates.last());
        assert forall|i: int| 0 <= i < rates.len() && !rates[i].nan() implies rates[i].spec_le(
            fastest(rates),
        ) by {
            if i < before.len() {
                assert(before[i] == rates[i]);
                assert(before[i].spec_le(fastest(before)));
            }
        }
    }
}

/// The fastest rate within a limit is one of them, within the limit, and no slower than any other
/// such; it is not a number exactly where there is none.
pub proof fn fastest_within_is_a_bound(rates: Seq<F32>, limit: F32)
    ensures
        fastest_within(rates, limit).nan() <==> forall|i: int|
            0 <= i < rates.len() ==> !(#[trigger] rates[i]).spec_le(limit),
        !fastest_within(rates, limit).nan() ==> {
            &&& rates.contains(fastest_within(rates, limit))
            &&& fastest_within(rates, limit).spec_le(limit)
            &&& forall|i: int|
                0 <= i < rates.len() && (#[trigger] rates[i]).spec_le(limit) ==> rates[i].spec_le(
                    fastest_within(rates, limit),
                )
        },
    decreases rates.len(),
{
    if rates.len() > 0 {
        let before = rates.drop_last();
        let (old, new) = (fastest_within(before, limit), fastest_within(rates, limit));
        fastest_within_is_a_bound(before, limit);
        assert(rates[rates.len() - 1] == rates.last());
        if before.contains(old) {
            let k = choose|k: int| 0 <= k < before.len() && before[k] == old;
            assert(rates[k] == old);
        }
        if new.nan() {
            assert forall|i: int| 0 <= i < rates.len() implies !(#[trigger] rates[i]).spec_le(
                limit,
            ) by {
                if i < before.len() {
                    assert(before[i] == rates[i]);
                }
            }
        } else {
            assert forall|i: int|
                0 <= i < rates.len() && (#[trigger] rates[i]).spec_le(
                    limit,
                ) implies rates[i].spec_le(new) by {
                if i < before.len() {
                    assert(before[i] == rates[i]);
                }
            }
            if rates.last().spec_le(limit) {
                assert(rates[rates.len() - 1].spec_le(limit));
            } else {
                assert(!old.nan());
                assert(exists|i: int|
                    0 <= i < before.len() && (#[trigger] before[i]).spec_le(limit));
                let k = choose|k: int| 0 <= k < before.len() && (#[trigger] before[k]).spec_le(limit);
                assert(rates[k].spec_le(limit));
            }
        }
    }
}

/// The rate that is asked for is the highest offered one not above the request; where there is
/// none, or nothing is requested, it is the fastest one.
pub proof fn highest_rate_within_the_request(rates: Seq<F32>, want: Want, i: int)
    requires
        0 <= i < rates.len(),
    ensures
        want.fps matches Some(f) ==> {
            rates[i].spec_le(f) ==> {
                &&& rates.contains(rate_for(rates, want))
                &&& rate_for(rates, want).spec_le(f)
                &&& rates[i].spec_le(rate_for(rates, want))
            }
        },
        want.fps matches Some(f) ==> {
            (forall|j: int| 0 <= j < rates.len() ==> !(#[trigger] rates[j]).spec_le(f))
                ==> rate_for(rates, want) == fastest(rates)
        },
        want.fps is None ==> rate_for(rates, want) == fastest(rates),
{
    if let Some(f) = want.fps {
        fastest_within_is_a_bound(rates, f);
    }
}

/// Above zero a rate is reached by the fastest of some rates exactly where one of them reaches it.
proof fn lemma_reached(rates: Seq<F32>, f: F32)
    requires
        (F32 { bits: 0 }).spec_lt(f),
    ensures
        f.spec_le(fastest(rates)) <==> exists|k: int|
            0 <= k < rates.len() && f.spec_le(#[trigger] rates[k]),
{
    fastest_is_a_bound(rates);
    if f.spec_le(fastest(rates)) {
        assert(rates.contains(fastest(rates)));
        let k = choose|k: int| 0 <= k < rates.len() && rates[k] == fastest(rates);
        assert(f.spec_le(rates[k]));
    }
}

/// Without a size, the rate that is asked for decides, or 24 where none is: if any displayable mode
/// of an allowed format offers that rate or a faster one, the chosen mode does too, and no mode
/// that does is larger; nor is one of its size raw where the chosen one is not, nor faster where both are raw or neither is.
pub proof fn the_largest_mode_that_offers_the_rate(
    modes: Seq<CaptureMode>,
    want: Want,
    c: Choice,
    i: int,
    f: F32,
    j: int,
    k: int,
)
    requires
        picked(modes, want, i),
        c == choice_of(modes[i], want),
        want.width is None,
        want.height is None,
        want.fps == Some(f) || (want.fps is None && f.bits == 0x41c0_0000),
        (F32 { bits: 0 }).spec_lt(f),
        0 <= j < modes.len(),
        modes[j].fourcc.code == FOURCC_YUYV || modes[j].fourcc.code == FOURCC_UYVY
            || modes[j].fourcc.code == FOURCC_MJPG,
        want.fourcc matches Some(format) ==> modes[j].fourcc == format,
        0 <= k < modes[j].fps@.len(),
        f.spec_le(modes[j].fps@[k]),
    ensures
        exists|n: int| 0 <= n < modes[i].fps@.len() && f.spec_le(#[trigger] modes[i].fps@[n]),
        modes[j].width * modes[j].height <= c.width * c.height,
        modes[j].width * modes[j].height == c.width * c.height && (modes[j].fourcc.code
            == FOURCC_YUYV || modes[j].fourcc.code == FOURCC_UYVY) ==> c.raw,
        modes[j].width * modes[j].height == c.width * c.height && c.raw == (modes[j].fourcc.code
            == FOURCC_YUYV || modes[j].fourcc.code == FOURCC_UYVY) ==> exists|n: int|
            0 <= n < modes[i].fps@.len() && modes[j].fps@[k].spec_le(#[trigger] modes[i].fps@[n]),
{
    lemma_reached(modes[j].fps@, f);
    lemma_reached(modes[i].fps@, f);
    assert(usable(modes[j], want) && reaches(modes[j], want));
    assert(any_reaches(modes, want));
    assert(candidate(modes, want, modes[j]));
    pace_is_the_order_of_rates(modes[j], modes[i]);
    fastest_is_a_bound(modes[j].fps@);
    lemma_reached(modes[i].fps@, modes[j].fps@[k]);
}

/// Without a size, where no displayable mode of an allowed format offers the rate that is asked for,
/// or 24: no such mode is larger than the chosen one, none of its size is faster, and none of its size and rates is raw
/// where the chosen one is not.
pub proof fn the_largest_mode_where_none_offers_the_rate(
    modes: Seq<CaptureMode>,
    want: Want,
    c: Choice,
    i: int,
    f: F32,
    j: int,
    k: int,
)
    requires
        picked(modes, want, i),
        c == choice_of(modes[i], want),
        want.width is None,
        want.height is None,
        want.fps == Some(f) || (want.fps is None && f.bits == 0x41c0_0000),
        (F32 { bits: 0 }).spec_lt(f),
        forall|m: int, n: int|
            0 <= m < modes.len() && 0 <= n < modes[m].fps@.len() ==> !f.spec_le(
                #[trigger] modes[m].fps@[n],
            ),
        0 <= j < modes.len(),
        modes[j].fourcc.code == FOURCC_YUYV || modes[j].fourcc.code == FOURCC_UYVY
            || modes[j].fourcc.code == FOURCC_MJPG,
        want.fourcc matches Some(format) ==> modes[j].fourcc == format,
        0 <= k < modes[j].fps@.len(),
        (F32 { bits: 0 }).spec_lt(modes[j].fps@[k]),
    ensures
        modes[j].width * modes[j].height <= c.width * c.height,
        modes[j].width * modes[j].height == c.width * c.height ==> exists|n: int|
            0 <= n < modes[i].fps@.len() && modes[j].fps@[k].spec_le(#[trigger] modes[i].fps@[n]),
        modes[j].width * modes[j].height == c.width * c.height && modes[j].fps@ == modes[i].fps@
            && (modes[j].fourcc.code == FOURCC_YUYV || modes[j].fourcc.code == FOURCC_UYVY)
            ==> c.raw,
{
    assert forall|m: int| 0 <= m < modes.len() implies !reaches(#[trigger] modes[m], want) by {
        lemma_reached(modes[m].fps@, f);
    }
    assert(candidate(modes, want, modes[j]));
    pace_is_the_order_of_rates(modes[j], modes[i]);
    fastest_is_a_bound(modes[j].fps@);
    lemma_reached(modes[i].fps@, modes[j].fps@[k]);
}

/// At a size: the chosen mode is of that size. If a displayable mode of that size and an allowed
/// format offers the rate that is asked for, or 24, the chosen one does, and is raw if that one is.
/// Where the chosen one does not offer it, no such mode has a faster rate than it has.
pub proof fn the_best_mode_of_the_size(
    modes: Seq<CaptureMode>,
    want: Want,
    c: Choice,
    i: int,
    f: F32,
    j: int,
    k: int,
)
    requires
        picked(modes, want, i),
        c == choice_of(modes[i], want),
        want.width is Some || want.height is Some,
        want.fps == Some(f) || (want.fps is None && f.bits == 0x41c0_0000),
        (F32 { bits: 0 }).spec_lt(f),
        0 <= j < modes.len(),
        modes[j].fourcc.code == FOURCC_YUYV || modes[j].fourcc.code == FOURCC_UYVY
            || modes[j].fourcc.code == FOURCC_MJPG,
        want.fourcc matches Some(format) ==> modes[j].fourcc == format,
        want.width matches Some(w) ==> modes[j].width == w,
        want.height matches Some(h) ==> modes[j].height == h,
        0 <= k < modes[j].fps@.len(),
        (F32 { bits: 0 }).spec_lt(modes[j].fps@[k]),
    ensures
        want.width matches Some(w) ==> c.width == w,
        want.height matches Some(h) ==> c.height == h,
        f.spec_le(modes[j].fps@[k]) ==> {
            &&& exists|n: int| 0 <= n < modes[i].fps@.len() && f.spec_le(#[trigger] modes[i].fps@[n])
            &&& modes[j].fourcc.code == FOURCC_YUYV || modes[j].fourcc.code == FOURCC_UYVY
                ==> c.raw
        },
        (forall|n: int| 0 <= n < modes[i].fps@.len() ==> !f.spec_le(#[trigger] modes[i].fps@[n]))
            ==> {
            &&& exists|n: int|
                0 <= n < modes[i].fps@.len() && modes[j].fps@[k].spec_le(
                    #[trigger] modes[i].fps@[n],
                )
            &&& modes[j].fps@ == modes[i].fps@ && (modes[j].fourcc.code == FOURCC_YUYV
                || modes[j].fourcc.code == FOURCC_UYVY) ==> c.raw
        },
        c.raw == (modes[j].fourcc.code == FOURCC_YUYV || modes[j].fourcc.code == FOURCC_UYVY)
            && f.spec_le(modes[j].fps@[k]) ==> exists|n: int|
            0 <= n < modes[i].fps@.len() && modes[j].fps@[k].spec_le(#[trigger] modes[i].fps@[n]),
{
    lemma_reached(modes[j].fps@, f);
    lemma_reached(modes[i].fps@, f);
    assert(usable(modes[j], want));
    assert(candidate(modes, want, modes[j]));
    pace_is_the_order_of_rates(modes[j], modes[i]);
    fastest_is_a_bound(modes[j].fps@);
    lemma_reached(modes[i].fps@, modes[j].fps@[k]);
}

/// A choice names one of the modes, displayable, of the format and the size that are asked for, and
/// raw where its format is. Of several modes that differ in nothing it is the last one.
pub proof fn a_choice_is_one_of_the_modes(
    modes: Seq<CaptureMode>,
    want: Want,
    c: Choice,
    i: int,
    j: int,
)
    requires
        picked(modes, want, i),
        c == choice_of(modes[i], want),
    ensures
        0 <= i < modes.len(),
        c.fourcc == modes[i].fourcc,
        c.width == modes[i].width,
        c.height == modes[i].height,
        c.raw == (c.fourcc.code == FOURCC_YUYV || c.fourcc.code == FOURCC_UYVY),
        c.raw || c.fourcc.code == FOURCC_MJPG,
        want.fourcc matches Some(format) ==> c.fourcc == format,
        want.width matches Some(w) ==> c.width == w,
        want.height matches Some(h) ==> c.height == h,
        modes[i].fps@.len() > 0,
        i < j < modes.len() ==> !(modes[j].fourcc == modes[i].fourcc && modes[j].width
            == modes[i].width && modes[j].height == modes[i].height && modes[j].fps@
            == modes[i].fps@),
{
}

/// The rate of a choice: of the offered ones that are no faster than the request the fastest, and
/// the fastest of all where nothing is requested or every one is faster.
pub proof fn the_rate_of_a_choice(
    modes: Seq<CaptureMode>,
    want: Want,
    c: Choice,
    i: int,
    k: int,
)
    requires
        picked(modes, want, i),
        c == choice_of(modes[i], want),
        0 <= k < modes[i].fps@.len(),
        (F32 { bits: 0 }).spec_lt(modes[i].fps@[k]),
    ensures
        modes[i].fps@.contains(c.fps),
        want.fps is None ==> modes[i].fps@[k].spec_le(c.fps),
        want.fps matches Some(f) ==> (modes[i].fps@[k].spec_le(f) ==> c.fps.spec_le(f)
            && modes[i].fps@[k].spec_le(c.fps)),
        want.fps matches Some(f) ==> (f.spec_lt(c.fps) ==> f.spec_lt(modes[i].fps@[k])
            && modes[i].fps@[k].spec_le(c.fps)),
{
    let rates = modes[i].fps@;
    fastest_is_a_bound(rates);
    assert(rates[k].spec_le(fastest(rates)));
    highest_rate_within_the_request(rates, want, k);
    if let Some(f) = want.fps {
        fastest_within_is_a_bound(rates, f);
    }
}

/// Where a displayable mode of an allowed format and of the size that is asked for offers any rate,
/// one is chosen.
pub proof fn something_is_chosen_where_something_fits(modes: Seq<CaptureMode>, want: Want, j: int)
    requires
        0 <= j < modes.len(),
        modes[j].fourcc.code == FOURCC_YUYV || modes[j].fourcc.code == FOURCC_UYVY
            || modes[j].fourcc.code == FOURCC_MJPG,
        want.fourcc matches Some(format) ==> modes[j].fourcc == format,
        want.width matches Some(w) ==> modes[j].width == w,
        want.height matches Some(h) ==> modes[j].height == h,
        modes[j].fps@.len() > 0,
    ensures
        exists|i: int| 0 <= i < modes.len() && candidate(modes, want, #[trigger] modes[i]),
        exists|i: int| picked(modes, want, i),
{
    if !size_wanted(want) && any_reaches(modes, want) {
        let i = choose|i: int|
            0 <= i < modes.len() && usable(modes[i], want) && reaches(modes[i], want);
        assert(candidate(modes, want, modes[i]));
        pick_exists(modes, want, i);
    } else {
        assert(candidate(modes, want, modes[j]));
        pick_exists(modes, want, j);
    }
}

} // verus!
