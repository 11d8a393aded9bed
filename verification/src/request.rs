//! Format requests: which of a device's modes to use.
use vstd::prelude::*;

use crate::capture::modes::CaptureMode;
use crate::fourcc::{FourCC, FOURCC_MJPG, FOURCC_UYVY, FOURCC_YUYV};
use crate::select::{self, choose_mode, Choice, Want};
use crate::single::{self, F32};
use crate::text;

verus! {

/// A pixel format to ask for.
#[derive(Debug, Clone, Copy, PartialEq, Eq, Structural)]
pub enum FrameFormat {
    Any,
    Yuyv,
    Uyvy,
    Mjpeg,
}

/// A size, a pixel format and a rate in frames per second.
#[derive(Debug, Clone, Copy, PartialEq, Eq, Structural)]
pub struct CameraFormat {
    pub width: u32,
    pub height: u32,
    pub format: FrameFormat,
    pub fps: u32,
}

/// Which of a device's modes to use.
#[derive(Debug, Clone, Copy, PartialEq, Eq, Structural)]
pub enum RequestedFormat {
    /// Only a mode of this size and format that offers this very rate.
    Exact(CameraFormat),
    /// The mode of this size, and format unless any will do, that serves the rate best.
    Closest(CameraFormat),
    /// The largest mode that still runs smoothly.
    HighestResolution,
    /// The fastest mode, the largest of several.
    HighestFrameRate,
}

impl Default for RequestedFormat {
    fn default() -> (r: RequestedFormat)
        ensures
            r == RequestedFormat::HighestResolution,
    {
        RequestedFormat::HighestResolution
    }
}

impl FrameFormat {
    /// The code to restrict a choice to.
    pub open spec fn spec_fourcc(self) -> Option<FourCC> {
        match self {
            FrameFormat::Any => None,
            FrameFormat::Yuyv => Some(FourCC { code: FOURCC_YUYV }),
            FrameFormat::Uyvy => Some(FourCC { code: FOURCC_UYVY }),
            FrameFormat::Mjpeg => Some(FourCC { code: FOURCC_MJPG }),
        }
    }

    pub fn fourcc(&self) -> (r: Option<FourCC>)
        ensures
            r == self.spec_fourcc(),
    {
        match self {
            FrameFormat::Any => None,
            FrameFormat::Yuyv => Some(FourCC { code: FOURCC_YUYV }),
            FrameFormat::Uyvy => Some(FourCC { code: FOURCC_UYVY }),
            FrameFormat::Mjpeg => Some(FourCC { code: FOURCC_MJPG }),
        }
    }

    /// The format that a word stands for, in upper or lower case; any format where it is unknown.
    pub open spec fn named(word: Seq<char>) -> FrameFormat {
        if text::same_text(word, "yuyv"@) {
            FrameFormat::Yuyv
        } else if text::same_text(word, "uyvy"@) {
            FrameFormat::Uyvy
        } else if text::same_text(word, "mjpeg"@) || text::same_text(word, "mjpg"@) {
            FrameFormat::Mjpeg
        } else {
            FrameFormat::Any
        }
    }

    pub fn from_name(word: &str) -> (r: FrameFormat)
        ensures
            r == FrameFormat::named(word@),
    {
        if text::equal_ignoring_case(word, "yuyv") {
            FrameFormat::Yuyv
        } else if text::equal_ignoring_case(word, "uyvy") {
            FrameFormat::Uyvy
        } else if text::equal_ignoring_case(word, "mjpeg") || text::equal_ignoring_case(
            word,
            "mjpg",
        ) {
            FrameFormat::Mjpeg
        } else {
            FrameFormat::Any
        }
    }
}

impl CameraFormat {
    pub fn new(width: u32, height: u32, format: FrameFormat, fps: u32) -> (r: CameraFormat)
        ensures
            r == (CameraFormat { width, height, format, fps }),
    {
        CameraFormat { width, height, format, fps }
    }

    /// The wish for this size, format and rate.
    pub open spec fn as_want(self) -> Want {
        Want {
            width: Some(self.width),
            height: Some(self.height),
            fps: Some(F32::of_nat(self.fps as nat)),
            fourcc: self.format.spec_fourcc(),
        }
    }

    /// A mode of this size and format that offers this very rate.
    pub open spec fn exactly(self, m: CaptureMode) -> bool {
        &&& select::usable(m, self.as_want())
        &&& select::size_fits(m, self.as_want())
        &&& m.fps@.contains(F32::of_nat(self.fps as nat))
    }

    /// The mode at `i` is an exact match: a raw one if there is one, and the last of several.
    pub open spec fn picked_exactly(self, modes: Seq<CaptureMode>, i: int) -> bool {
        &&& 0 <= i < modes.len()
        &&& self.exactly(modes[i])
        &&& forall|j: int|
            0 <= j < modes.len() && self.exactly(#[trigger] modes[j]) ==> if select::raw(
                modes[i].fourcc,
            ) {
                j <= i || !select::raw(modes[j].fourcc)
            } else {
                j <= i && !select::raw(modes[j].fourcc)
            }
    }
}

impl RequestedFormat {
    /// The wish that a request comes down to.
    pub open spec fn as_want(self) -> Want {
        match self {
            RequestedFormat::Exact(f) => f.as_want(),
            RequestedFormat::Closest(f) => f.as_want(),
            RequestedFormat::HighestResolution => Want {
                width: None,
                height: None,
                fps: None,
                fourcc: None,
            },
            RequestedFormat::HighestFrameRate => Want {
                width: None,
                height: None,
                fps: None,
                fourcc: None,
            },
        }
    }
}

fn offers(rates: &Vec<F32>, rate: F32) -> (r: bool)
    ensures
        r == rates@.contains(rate),
{
    let mut i: usize = 0;
    while i < rates.len()
        invariant
            i <= rates.len(),
            forall|j: int| 0 <= j < i ==> rates[j] != rate,
        decreases rates.len() - i,
    {
        if rates[i] == rate {
            return true;
        }
        i = i + 1;
    }
    false
}

fn want_of(f: &CameraFormat) -> (r: Want)
    ensures
        r == f.as_want(),
{
    Want {
        width: Some(f.width),
        height: Some(f.height),
        fps: Some(F32::from_u64(f.fps as u64)),
        fourcc: f.format.fourcc(),
    }
}

fn choose_exact(modes: &[CaptureMode], f: CameraFormat) -> (r: Option<Choice>)
    ensures
        match r {
            None => forall|i: int| 0 <= i < modes.len() ==> !f.exactly(#[trigger] modes[i]),
            Some(c) => exists|i: int|
                #[trigger] f.picked_exactly(modes@, i) && c == (Choice {
                    fourcc: modes[i].fourcc,
                    width: f.width,
                    height: f.height,
                    fps: F32::of_nat(f.fps as nat),
                    raw: select::raw(modes[i].fourcc),
                }),
        },
{
    let want = want_of(&f);
    let rate = F32::from_u64(f.fps as u64);
    let mut best: Option<usize> = None;
    let mut best_raw: bool = false;
    let mut i: usize = 0;
    while i < modes.len()
        invariant
            i <= modes.len(),
            want == f.as_want(),
            rate == F32::of_nat(f.fps as nat),
            match best {
                None => forall|j: int| 0 <= j < i ==> !f.exactly(#[trigger] modes[j]),
                Some(b) => {
                    &&& b < i
                    &&& best_raw == select::raw(modes[b as int].fourcc)
                    &&& f.exactly(modes[b as int])
                    &&& forall|j: int|
                        0 <= j < i && f.exactly(#[trigger] modes[j]) ==> if best_raw {
                            j <= b || !select::raw(modes[j].fourcc)
                        } else {
                            j <= b && !select::raw(modes[j].fourcc)
                        }
                },
            },
        decreases modes.len() - i,
    {
        let m = &modes[i];
        if select::mode_usable(m, &want) && select::mode_size_fits(m, &want) && offers(
            &m.fps,
            rate,
        ) {
            let raw = select::is_raw(m.fourcc);
            if best.is_none() || raw || !best_raw {
                best = Some(i);
                best_raw = raw;
            }
        }
        i = i + 1;
    }
    match best {
        None => None,
        Some(b) => {
            proof {
                assert(f.picked_exactly(modes@, b as int));
            }
            Some(
                Choice {
                    fourcc: modes[b].fourcc,
                    width: f.width,
                    height: f.height,
                    fps: rate,
                    raw: best_raw,
                },
            )
        },
    }
}

/// What makes one mode faster than another: its rate, then its size, then that it is raw.
pub open spec fn speed(m: CaptureMode) -> (nat, nat, nat) {
    (
        select::pace(m),
        select::area(m),
        select::one_if(select::raw(m.fourcc)),
    )
}

/// The mode at `i` is the fastest usable one, and the last one of several equally good ones.
pub open spec fn picked_fastest(modes: Seq<CaptureMode>, want: Want, i: int) -> bool {
    &&& 0 <= i < modes.len()
    &&& select::usable(modes[i], want)
    &&& forall|j: int|
        0 <= j < modes.len() && select::usable(#[trigger] modes[j], want) ==> if j <= i {
            !select::ranks_below(speed(modes[i]), speed(modes[j]))
        } else {
            select::ranks_below(speed(modes[j]), speed(modes[i]))
        }
}

fn choose_fastest(modes: &[CaptureMode], want: Want) -> (r: Option<Choice>)
    requires
        want.fps is None,
    ensures
        match r {
            None => forall|i: int|
                0 <= i < modes.len() ==> !select::usable(#[trigger] modes[i], want),
            Some(c) => exists|i: int| #[trigger]
                picked_fastest(modes@, want, i) && c == select::choice_of(modes[i], want),
        },
{
    let mut best: Option<usize> = None;
    let mut top: (u64, u64, u64) = (0, 0, 0);
    let mut i: usize = 0;
    while i < modes.len()
        invariant
            i <= modes.len(),
            match best {
                None => forall|j: int|
                    0 <= j < i ==> !select::usable(#[trigger] modes[j], want),
                Some(b) => {
                    &&& b < i
                    &&& select::usable(modes[b as int], want)
                    &&& speed(modes[b as int]) == (top.0 as nat, top.1 as nat, top.2 as nat)
                    &&& forall|j: int|
                        0 <= j < i && select::usable(#[trigger] modes[j], want) ==> if j <= b {
                            !select::ranks_below(speed(modes[b as int]), speed(modes[j]))
                        } else {
                            select::ranks_below(speed(modes[j]), speed(modes[b as int]))
                        }
                },
            },
        decreases modes.len() - i,
    {
        let m = &modes[i];
        if select::mode_usable(m, &want) {
            let k: (u64, u64, u64) = select::mode_figures(m);
            let worse = k.0 < top.0 || (k.0 == top.0 && (k.1 < top.1 || (k.1 == top.1 && k.2
                < top.2)));
            if best.is_none() || !worse {
                best = Some(i);
                top = k;
            }
        }
        i = i + 1;
    }
    match best {
        None => None,
        Some(b) => {
            let m = &modes[b];
            proof {
                assert(picked_fastest(modes@, want, b as int));
            }
            Some(
                Choice {
                    fourcc: m.fourcc,
                    width: m.width,
                    height: m.height,
                    fps: select::fastest_rate(&m.fps),
                    raw: select::is_raw(m.fourcc),
                },
            )
        },
    }
}

/// Something that a device offers matches the request.
pub open spec fn matched(modes: Seq<CaptureMode>, request: RequestedFormat) -> bool {
    match request {
        RequestedFormat::Exact(f) => exists|i: int|
            0 <= i < modes.len() && f.exactly(#[trigger] modes[i]),
        RequestedFormat::HighestFrameRate => exists|i: int|
            0 <= i < modes.len() && select::usable(#[trigger] modes[i], request.as_want()),
        _ => exists|i: int|
            0 <= i < modes.len() && select::candidate(modes, request.as_want(), #[trigger] modes[i]),
    }
}

/// `choice` is what a request comes down to on a device with these modes.
pub open spec fn chosen(
    modes: Seq<CaptureMode>,
    request: RequestedFormat,
    choice: Choice,
) -> bool {
    match request {
        RequestedFormat::Exact(f) => exists|i: int| #[trigger]
            f.picked_exactly(modes, i) && choice == (Choice {
                fourcc: modes[i].fourcc,
                width: f.width,
                height: f.height,
                fps: F32::of_nat(f.fps as nat),
                raw: select::raw(modes[i].fourcc),
            }),
        RequestedFormat::HighestFrameRate => exists|i: int| #[trigger]
            picked_fastest(modes, request.as_want(), i) && choice == select::choice_of(
                modes[i],
                request.as_want(),
            ),
        _ => exists|i: int| #[trigger]
            select::picked(modes, request.as_want(), i) && choice == select::choice_of(
                modes[i],
                request.as_want(),
            ),
    }
}

/// The mode that a request comes down to on a device with these modes.
pub fn choose_format(modes: &[CaptureMode], request: RequestedFormat) -> (r: Option<Choice>)
    ensures
        r is Some <==> matched(modes@, request),
        r matches Some(choice) ==> chosen(modes@, request, choice),
{
    match request {
        RequestedFormat::Exact(f) => choose_exact(modes, f),
        RequestedFormat::Closest(f) => choose_mode(modes, want_of(&f)),
        RequestedFormat::HighestResolution => choose_mode(
            modes,
            Want { width: None, height: None, fps: None, fourcc: None },
        ),
        RequestedFormat::HighestFrameRate => choose_fastest(
            modes,
            Want { width: None, height: None, fps: None, fourcc: None },
        ),
    }
}

/// Asked for the highest rate, no mode that can be shown is faster than the chosen one, none as
/// fast is larger, and the rate asked of it is its fastest.
pub proof fn highest_frame_rate_is_the_fastest(modes: Seq<CaptureMode>, i: int, j: int)
    requires
        picked_fastest(modes, RequestedFormat::HighestFrameRate.as_want(), i),
        0 <= j < modes.len(),
        select::usable(modes[j], RequestedFormat::HighestFrameRate.as_want()),
    ensures
        select::fastest(modes[j].fps@).spec_le(select::fastest(modes[i].fps@)),
        select::fastest(modes[j].fps@) == select::fastest(modes[i].fps@) ==> select::area(modes[j])
            <= select::area(modes[i]),
        select::choice_of(modes[i], RequestedFormat::HighestFrameRate.as_want()).fps
            == select::fastest(modes[i].fps@),
{
    select::pace_is_the_order_of_rates(modes[j], modes[i]);
}

/// An exact request is met by a mode of its size that offers its very rate, in its format or, where
/// any will do, in one that can be displayed; a raw mode where there is one.
pub proof fn an_exact_request_is_met_exactly(
    modes: Seq<CaptureMode>,
    f: CameraFormat,
    c: Choice,
    j: int,
)
    requires
        chosen(modes, RequestedFormat::Exact(f), c),
    ensures
        c.width == f.width,
        c.height == f.height,
        c.fps == F32::of_nat(f.fps as nat),
        exists|i: int|
            0 <= i < modes.len() && (#[trigger] modes[i]).width == f.width && modes[i].height
                == f.height && modes[i].fourcc == c.fourcc && modes[i].fps@.contains(c.fps),
        c.raw == (c.fourcc.code == FOURCC_YUYV || c.fourcc.code == FOURCC_UYVY),
        c.raw || c.fourcc.code == FOURCC_MJPG,
        f.format is Yuyv ==> c.fourcc.code == FOURCC_YUYV,
        f.format is Uyvy ==> c.fourcc.code == FOURCC_UYVY,
        f.format is Mjpeg ==> c.fourcc.code == FOURCC_MJPG,
        0 <= j < modes.len() && modes[j].width == f.width && modes[j].height == f.height
            && modes[j].fps@.contains(F32::of_nat(f.fps as nat)) && (f.format is Any
            || f.format is Yuyv) && modes[j].fourcc.code == FOURCC_YUYV ==> c.raw,
        0 <= j < modes.len() && modes[j].width == f.width && modes[j].height == f.height
            && modes[j].fps@.contains(F32::of_nat(f.fps as nat)) && (f.format is Any
            || f.format is Uyvy) && modes[j].fourcc.code == FOURCC_UYVY ==> c.raw,
{
    let i = choose|i: int| #[trigger]
        f.picked_exactly(modes, i) && c == (Choice {
            fourcc: modes[i].fourcc,
            width: f.width,
            height: f.height,
            fps: F32::of_nat(f.fps as nat),
            raw: select::raw(modes[i].fourcc),
        });
    assert(f.exactly(modes[i]));
    if 0 <= j < modes.len() {
        let m = modes[j];
        if m.fps@.contains(F32::of_nat(f.fps as nat)) {
            assert(m.fps@.len() > 0);
        }
        assert(f.exactly(m) ==> !select::raw(m.fourcc) || select::raw(modes[i].fourcc));
    }
}

/// An exact request is met where a mode of its size and format offers its very rate, and only there.
pub proof fn an_exact_request_is_met_where_it_can_be(modes: Seq<CaptureMode>, f: CameraFormat)
    ensures
        matched(modes, RequestedFormat::Exact(f)) <==> exists|j: int| {
            &&& 0 <= j < modes.len()
            &&& (#[trigger] modes[j]).width == f.width
            &&& modes[j].height == f.height
            &&& modes[j].fps@.contains(F32::of_nat(f.fps as nat))
            &&& match f.format {
                FrameFormat::Any => modes[j].fourcc.code == FOURCC_YUYV || modes[j].fourcc.code
                    == FOURCC_UYVY || modes[j].fourcc.code == FOURCC_MJPG,
                FrameFormat::Yuyv => modes[j].fourcc.code == FOURCC_YUYV,
                FrameFormat::Uyvy => modes[j].fourcc.code == FOURCC_UYVY,
                FrameFormat::Mjpeg => modes[j].fourcc.code == FOURCC_MJPG,
            }
        },
{
    if exists|j: int| {
        &&& 0 <= j < modes.len()
        &&& (#[trigger] modes[j]).width == f.width
        &&& modes[j].height == f.height
        &&& modes[j].fps@.contains(F32::of_nat(f.fps as nat))
        &&& match f.format {
            FrameFormat::Any => modes[j].fourcc.code == FOURCC_YUYV || modes[j].fourcc.code
                == FOURCC_UYVY || modes[j].fourcc.code == FOURCC_MJPG,
            FrameFormat::Yuyv => modes[j].fourcc.code == FOURCC_YUYV,
            FrameFormat::Uyvy => modes[j].fourcc.code == FOURCC_UYVY,
            FrameFormat::Mjpeg => modes[j].fourcc.code == FOURCC_MJPG,
        }
    } {
        let j = choose|j: int| {
            &&& 0 <= j < modes.len()
            &&& (#[trigger] modes[j]).width == f.width
            &&& modes[j].height == f.height
            &&& modes[j].fps@.contains(F32::of_nat(f.fps as nat))
            &&& match f.format {
                FrameFormat::Any => modes[j].fourcc.code == FOURCC_YUYV || modes[j].fourcc.code
                    == FOURCC_UYVY || modes[j].fourcc.code == FOURCC_MJPG,
                FrameFormat::Yuyv => modes[j].fourcc.code == FOURCC_YUYV,
                FrameFormat::Uyvy => modes[j].fourcc.code == FOURCC_UYVY,
                FrameFormat::Mjpeg => modes[j].fourcc.code == FOURCC_MJPG,
            }
        };
        assert(f.exactly(modes[j]));
    }
}

/// The closest mode is of the size and the format that are asked for, and offers the rate if a mode
/// of that size and format does.
pub proof fn the_closest_mode_is_of_the_size(
    modes: Seq<CaptureMode>,
    f: CameraFormat,
    c: Choice,
    j: int,
    k: int,
)
    requires
        chosen(modes, RequestedFormat::Closest(f), c),
    ensures
        c.width == f.width,
        c.height == f.height,
        f.format is Yuyv ==> c.fourcc.code == FOURCC_YUYV,
        f.format is Uyvy ==> c.fourcc.code == FOURCC_UYVY,
        f.format is Mjpeg ==> c.fourcc.code == FOURCC_MJPG,
        c.raw == (c.fourcc.code == FOURCC_YUYV || c.fourcc.code == FOURCC_UYVY),
        c.raw || c.fourcc.code == FOURCC_MJPG,
        f.fps > 0 && f.format is Any && 0 <= j < modes.len() && modes[j].width == f.width
            && modes[j].height == f.height && (modes[j].fourcc.code == FOURCC_YUYV
            || modes[j].fourcc.code == FOURCC_UYVY || modes[j].fourcc.code == FOURCC_MJPG) && 0 <= k
            < modes[j].fps@.len() && F32::of_nat(f.fps as nat).spec_le(modes[j].fps@[k]) ==> {
            &&& exists|i: int, n: int| #![trigger modes[i].fps@[n]]
                0 <= i < modes.len() && modes[i].width == f.width && modes[i].height == f.height
                    && modes[i].fourcc == c.fourcc && 0 <= n < modes[i].fps@.len() && F32::of_nat(
                    f.fps as nat,
                ).spec_le(modes[i].fps@[n])
            &&& modes[j].fourcc.code != FOURCC_MJPG ==> c.raw
        },
{
    let want = RequestedFormat::Closest(f).as_want();
    let i = choose|i: int| #[trigger]
        select::picked(modes, want, i) && c == select::choice_of(modes[i], want);
    select::a_choice_is_one_of_the_modes(modes, want, c, i, i);
    let rate = F32::of_nat(f.fps as nat);
    if f.fps > 0 {
        single::lemma_of_nat_is_finite(f.fps as nat);
        single::lemma_units_order(0, rate.mag());
        if f.format is Any && 0 <= j < modes.len() && modes[j].width == f.width && modes[j].height
            == f.height && select::supported(modes[j].fourcc) && 0 <= k < modes[j].fps@.len()
            && rate.spec_le(modes[j].fps@[k]) {
            select::the_best_mode_of_the_size(modes, want, c, i, rate, j, k);
            let n = choose|n: int|
                0 <= n < modes[i].fps@.len() && rate.spec_le(#[trigger] modes[i].fps@[n]);
            assert(rate.spec_le(modes[i].fps@[n]));
        }
    }
}

/// The highest resolution is the largest of the displayable modes that offer 24 frames a second or
/// more, if there is one.
pub proof fn the_highest_resolution_runs_smoothly(
    modes: Seq<CaptureMode>,
    c: Choice,
    f: F32,
    j: int,
    k: int,
)
    requires
        chosen(modes, RequestedFormat::HighestResolution, c),
        f.bits == 0x41c0_0000,
        0 <= j < modes.len(),
        modes[j].fourcc.code == FOURCC_YUYV || modes[j].fourcc.code == FOURCC_UYVY
            || modes[j].fourcc.code == FOURCC_MJPG,
        0 <= k < modes[j].fps@.len(),
        f.spec_le(modes[j].fps@[k]),
    ensures
        modes[j].width * modes[j].height <= c.width * c.height,
        exists|i: int, n: int| #![trigger modes[i].fps@[n]]
            0 <= i < modes.len() && modes[i].width == c.width && modes[i].height == c.height
                && modes[i].fourcc == c.fourcc && 0 <= n < modes[i].fps@.len() && f.spec_le(
                modes[i].fps@[n],
            ),
{
    let want = RequestedFormat::HighestResolution.as_want();
    let i = choose|i: int| #[trigger]
        select::picked(modes, want, i) && c == select::choice_of(modes[i], want);
    select::a_choice_is_one_of_the_modes(modes, want, c, i, i);
    single::lemma_units_order(0, f.mag());
    select::the_largest_mode_that_offers_the_rate(modes, want, c, i, f, j, k);
    let n = choose|n: int| 0 <= n < modes[i].fps@.len() && f.spec_le(#[trigger] modes[i].fps@[n]);
    assert(f.spec_le(modes[i].fps@[n]));
}

/// The highest frame rate is the fastest rate of any displayable mode, and among the modes that have
/// it none is larger than the chosen one.
pub proof fn the_highest_frame_rate_is_chosen(
    modes: Seq<CaptureMode>,
    c: Choice,
    j: int,
    k: int,
)
    requires
        chosen(modes, RequestedFormat::HighestFrameRate, c),
        0 <= j < modes.len(),
        modes[j].fourcc.code == FOURCC_YUYV || modes[j].fourcc.code == FOURCC_UYVY
            || modes[j].fourcc.code == FOURCC_MJPG,
        0 <= k < modes[j].fps@.len(),
        (F32 { bits: 0 }).spec_lt(modes[j].fps@[k]),
    ensures
        modes[j].fps@[k].spec_le(c.fps),
        exists|i: int|
            0 <= i < modes.len() && (#[trigger] modes[i]).width == c.width && modes[i].height
                == c.height && modes[i].fourcc == c.fourcc && modes[i].fps@.contains(c.fps),
        modes[j].fps@[k] == c.fps ==> modes[j].width * modes[j].height <= c.width * c.height,
        c.raw == (c.fourcc.code == FOURCC_YUYV || c.fourcc.code == FOURCC_UYVY),
        c.raw || c.fourcc.code == FOURCC_MJPG,
{
    let want = RequestedFormat::HighestFrameRate.as_want();
    let i = choose|i: int| #[trigger]
        picked_fastest(modes, want, i) && c == select::choice_of(modes[i], want);
    assert(select::usable(modes[j], want));
    highest_frame_rate_is_the_fastest(modes, i, j);
    select::fastest_is_a_bound(modes[j].fps@);
    select::fastest_is_a_bound(modes[i].fps@);
    let (a, b) = (select::fastest(modes[i].fps@), select::fastest(modes[j].fps@));
    if modes[j].fps@[k] == c.fps {
        assert(b.spec_le(a) && a.spec_le(b));
        single::lemma_units_order(a.mag(), b.mag());
    }
}

/// Whatever can be displayed is enough for the highest resolution and for the highest frame rate.
pub proof fn something_is_shown_of_what_can_be(modes: Seq<CaptureMode>, j: int)
    requires
        0 <= j < modes.len(),
        modes[j].fourcc.code == FOURCC_YUYV || modes[j].fourcc.code == FOURCC_UYVY
            || modes[j].fourcc.code == FOURCC_MJPG,
        modes[j].fps@.len() > 0,
    ensures
        matched(modes, RequestedFormat::HighestResolution),
        matched(modes, RequestedFormat::HighestFrameRate),
{
    let want = RequestedFormat::HighestResolution.as_want();
    select::something_is_chosen_where_something_fits(modes, want, j);
    assert(select::usable(modes[j], RequestedFormat::HighestFrameRate.as_want()));
}

/// Of several modes that meet an exact request alike, raw or not, the last one that the device lists
/// is taken.
pub proof fn the_last_of_several_exact_modes(
    modes: Seq<CaptureMode>,
    f: CameraFormat,
    c: Choice,
    k: int,
)
    requires
        chosen(modes, RequestedFormat::Exact(f), c),
        0 <= k < modes.len(),
        modes[k].width == f.width,
        modes[k].height == f.height,
        modes[k].fps@.contains(F32::of_nat(f.fps as nat)),
        f.format is Any,
        modes[k].fourcc.code == FOURCC_YUYV || modes[k].fourcc.code == FOURCC_UYVY,
        forall|j: int|
            k < j < modes.len() ==> (#[trigger] modes[j]).fourcc.code == FOURCC_MJPG
                || modes[j].width != f.width || modes[j].height != f.height,
    ensures
        c.fourcc == modes[k].fourcc,
{
    let i = choose|i: int| #[trigger]
        f.picked_exactly(modes, i) && c == (Choice {
            fourcc: modes[i].fourcc,
            width: f.width,
            height: f.height,
            fps: F32::of_nat(f.fps as nat),
            raw: select::raw(modes[i].fourcc),
        });
    assert(f.exactly(modes[i]));
    assert(modes[k].fps@.len() > 0);
    assert(f.exactly(modes[k]));
}

/// A format is known by its name, in either case; MJPEG by two of them. Any other word stands for
/// any format.
pub proof fn a_format_is_known_by_its_name(word: Seq<char>)
    ensures
        FrameFormat::named(word) is Yuyv <==> spelled(word, seq!['y', 'u', 'y', 'v']),
        FrameFormat::named(word) is Uyvy <==> spelled(word, seq!['u', 'y', 'v', 'y']),
        FrameFormat::named(word) is Mjpeg <==> spelled(word, seq!['m', 'j', 'p', 'g']) || spelled(
            word,
            seq!['m', 'j', 'p', 'e', 'g'],
        ),
{
    reveal_strlit("yuyv");
    reveal_strlit("uyvy");
    reveal_strlit("mjpeg");
    reveal_strlit("mjpg");
    assert("yuyv"@ =~= seq!['y', 'u', 'y', 'v']);
    assert("uyvy"@ =~= seq!['u', 'y', 'v', 'y']);
    assert("mjpg"@ =~= seq!['m', 'j', 'p', 'g']);
    assert("mjpeg"@ =~= seq!['m', 'j', 'p', 'e', 'g']);
    lemma_spelled(word, "yuyv"@);
    lemma_spelled(word, "uyvy"@);
    lemma_spelled(word, "mjpg"@);
    lemma_spelled(word, "mjpeg"@);
    if spelled(word, "yuyv"@) {
        assert(word[0] == 'y' || word[0] as int == 'y' as int - 32);
    }
    if spelled(word, "uyvy"@) {
        assert(word[0] == 'u' || word[0] as int == 'u' as int - 32);
    }
    if spelled(word, "mjpg"@) {
        assert(word[0] == 'm' || word[0] as int == 'm' as int - 32);
    }
    if spelled(word, "mjpeg"@) {
        assert(word[0] == 'm' || word[0] as int == 'm' as int - 32);
    }
}

/// A word is spelled with these small letters, or their capitals.
pub open spec fn spelled(word: Seq<char>, letters: Seq<char>) -> bool {
    &&& word.len() == letters.len()
    &&& forall|i: int|
        #![trigger letters[i]]
        0 <= i < letters.len() ==> word[i] == letters[i] || word[i] as int == letters[i] as int - 32
}

proof fn lemma_spelled(word: Seq<char>, letters: Seq<char>)
    requires
        forall|i: int| 0 <= i < letters.len() ==> 'a' <= #[trigger] letters[i] <= 'z',
    ensures
        text::same_text(word, letters) <==> spelled(word, letters),
{
    if text::same_text(word, letters) {
        assert forall|i: int| #![trigger letters[i]] 0 <= i < letters.len() implies word[i]
            == letters[i] || word[i] as int == letters[i] as int - 32 by {
            text::a_text_begins_with_its_head(word, letters, i);
            text::letters_are_the_same_in_either_case(word[i], letters[i]);
        }
    }
    if spelled(word, letters) {
        assert forall|i: int| 0 <= i < letters.len() implies text::lower(#[trigger] word[i])
            == text::lower(letters[i]) by {
            assert('a' <= letters[i] <= 'z');
            text::letters_are_the_same_in_either_case(letters[i], word[i]);
        }
    }
}

} // verus!
