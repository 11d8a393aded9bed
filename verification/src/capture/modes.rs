//! The modes that a device offers.
use vstd::prelude::*;
use vstd::seq_lib;

use crate::fourcc::FourCC;
use crate::single::{self, F32};

verus! {

/// One supported capture mode.
#[derive(Debug, Clone)]
pub struct CaptureMode {
    pub fourcc: FourCC,
    pub description: String,
    pub width: u32,
    pub height: u32,
    /// Supported frame rates, highest first.
    pub fps: Vec<F32>,
}

/// A time between two frames, in seconds.
#[derive(Debug, Clone, Copy, PartialEq, Eq, Structural)]
pub struct Fraction {
    pub numerator: u32,
    pub denominator: u32,
}

/// The frame intervals that a device supports at one size: a single one, or a range.
#[derive(Debug, Clone, Copy, PartialEq, Eq, Structural)]
pub enum FrameInterval {
    Discrete(Fraction),
    Stepwise { min: Fraction, max: Fraction, step: Fraction },
}

/// A size at which a format is offered, and the intervals there.
#[derive(Debug, Clone)]
pub struct OfferedSize {
    pub width: u32,
    pub height: u32,
    pub intervals: Vec<FrameInterval>,
}

/// A format that a device offers, and its sizes.
#[derive(Debug, Clone)]
pub struct OfferedFormat {
    pub fourcc: FourCC,
    pub description: String,
    pub sizes: Vec<OfferedSize>,
}

impl FrameInterval {
    /// The shortest interval.
    pub open spec fn shortest(self) -> Fraction {
        match self {
            FrameInterval::Discrete(f) => f,
            FrameInterval::Stepwise { min, .. } => min,
        }
    }

    /// The rate that the shortest interval allows. An interval without length counts as a second.
    pub open spec fn spec_rate(self) -> F32 {
        let f = self.shortest();
        F32::of_nat(f.denominator as nat).spec_over(
            F32::of_nat(
                if f.numerator >= 1 {
                    f.numerator as nat
                } else {
                    1
                },
            ),
        )
    }

    /// Frames per second, at the shortest interval.
    pub fn rate(&self) -> (r: F32)
        ensures
            r == self.spec_rate(),
    {
        let f = match self {
            FrameInterval::Discrete(f) => *f,
            FrameInterval::Stepwise { min, .. } => *min,
        };
        let n: u32 = if f.numerator >= 1 {
            f.numerator
        } else {
            1
        };
        F32::from_u64(f.denominator as u64).over(&F32::from_u64(n as u64))
    }
}

/// The rates, as they are offered.
pub open spec fn offered_rates(intervals: Seq<FrameInterval>) -> Seq<F32> {
    intervals.map_values(|i: FrameInterval| i.spec_rate())
}

/// No rate comes after one that is lower.
pub open spec fn highest_first(rates: Seq<F32>) -> bool {
    forall|i: int, j: int| 0 <= i < j < rates.len() ==> !rates[i].spec_lt(rates[j])
}

/// Every rate is a number.
pub open spec fn all_numbers(rates: Seq<F32>) -> bool {
    forall|i: int| 0 <= i < rates.len() ==> !(#[trigger] rates[i]).nan()
}

/// `mode` is what the device offers of this format at this size.
pub open spec fn mode_of(mode: CaptureMode, format: OfferedFormat, size: OfferedSize) -> bool {
    &&& mode.fourcc == format.fourcc
    &&& mode.description@ == format.description@
    &&& mode.width == size.width
    &&& mode.height == size.height
    &&& all_numbers(mode.fps@)
    &&& highest_first(mode.fps@)
    &&& mode.fps@.to_multiset() == offered_rates(size.intervals@).to_multiset()
}

/// How many sizes the first `n` formats have.
pub open spec fn sizes_before(formats: Seq<OfferedFormat>, n: int) -> nat
    decreases n,
{
    if n <= 0 {
        0
    } else {
        sizes_before(formats, n - 1) + formats[n - 1].sizes@.len()
    }
}

proof fn lemma_insert_multiset(s: Seq<F32>, i: int, a: F32)
    requires
        0 <= i <= s.len(),
    ensures
        s.insert(i, a).to_multiset() == s.to_multiset().insert(a),
{
    broadcast use seq_lib::group_to_multiset_ensures;

    let t = s.insert(i, a);
    assert(t.remove(i) =~= s);
    assert(t[i] == a);
    assert(t.contains(a));
    assert(t.to_multiset().remove(a).insert(a) =~= t.to_multiset());
}

/// The rates of these intervals, highest first.
pub fn rates(intervals: &Vec<FrameInterval>) -> (r: Vec<F32>)
    ensures
        all_numbers(r@),
        highest_first(r@),
        r@.to_multiset() == offered_rates(intervals@).to_multiset(),
        r.len() == intervals.len(),
{
    let mut out: Vec<F32> = Vec::new();
    let mut i: usize = 0;
    proof {
        assert(offered_rates(intervals@.take(0)) =~= Seq::<F32>::empty());
    }
    while i < intervals.len()
        invariant
            i <= intervals.len(),
            out.len() == i,
            highest_first(out@),
            all_numbers(out@),
            out@.to_multiset() == offered_rates(intervals@.take(i as int)).to_multiset(),
        decreases intervals.len() - i,
    {
        let rate = intervals[i].rate();
        proof {
            lemma_rate_is_a_number(intervals[i as int]);
        }
        let mut at: usize = out.len();
        while at > 0 && out[at - 1].less(&rate)
            invariant
                at <= out.len(),
                forall|j: int| at <= j < out.len() ==> #[trigger] out[j].spec_lt(rate),
            decreases at,
        {
            at = at - 1;
        }
        let ghost before = out@;
        out.insert(at, rate);
        proof {
            lemma_insert_multiset(before, at as int, rate);
            let (x, y) = (intervals@.take(i as int), intervals@.take(i + 1));
            assert(offered_rates(y) =~= offered_rates(x).push(rate));
            offered_rates(x).to_multiset_ensures();
            assert forall|p: int, q: int| 0 <= p < q < out.len() implies !out[p].spec_lt(
                out[q],
            ) by {
                let pp = if p < at { p } else { p - 1 };
                let qq = if q < at { q } else { q - 1 };
                if p != at && q != at {
                    assert(!before[pp].spec_lt(before[qq]));
                } else if q == at {
                    if p < at - 1 {
                        assert(!before[p].spec_lt(before[at - 1]));
                    }
                } else {
                    assert(before[qq].spec_lt(rate));
                }
            }
            assert forall|j: int| 0 <= j < out.len() implies !(#[trigger] out@[j]).nan() by {
                if j < at {
                    assert(out[j] == before[j]);
                } else if j > at {
                    assert(out[j] == before[j - 1]);
                }
            }
        }
        i = i + 1;
    }
    proof {
        assert(intervals@.take(intervals.len() as int) =~= intervals@);
    }
    out
}

/// Rates are numbers: the divisor is never zero.
proof fn lemma_rate_is_a_number(i: FrameInterval)
    ensures
        !i.spec_rate().nan(),
{
    let f = i.shortest();
    let n = if f.numerator >= 1 {
        f.numerator as nat
    } else {
        1
    };
    single::lemma_of_nat_is_finite(n);
    let a = F32::of_nat(f.denominator as nat);
    if f.denominator > 0 {
        single::lemma_of_nat_is_finite(f.denominator as nat);
    } else {
        single::lemma_of_zero();
    }
    single::lemma_quotient_is_a_number(a, F32::of_nat(n));
}

/// Every format, size and rate that the device offers: one mode for each size of each format, in
/// the order in which the device lists them.
pub fn list_modes(formats: &Vec<OfferedFormat>) -> (r: Vec<CaptureMode>)
    ensures
        r.len() == sizes_before(formats@, formats.len() as int),
        forall|f: int, s: int|
            0 <= f < formats.len() && 0 <= s < formats[f].sizes.len() ==> mode_of(
                r[sizes_before(formats@, f) + s],
                #[trigger] formats[f],
                #[trigger] formats[f].sizes[s],
            ),
{
    let mut modes: Vec<CaptureMode> = Vec::new();
    let mut f: usize = 0;
    while f < formats.len()
        invariant
            f <= formats.len(),
            modes.len() == sizes_before(formats@, f as int),
            forall|g: int, s: int|
                0 <= g < f && 0 <= s < formats[g].sizes.len() ==> mode_of(
                    modes[sizes_before(formats@, g) + s],
                    #[trigger] formats[g],
                    #[trigger] formats[g].sizes[s],
                ),
        decreases formats.len() - f,
    {
        let format = &formats[f];
        let mut n: usize = 0;
        while n < format.sizes.len()
            invariant
                f < formats.len(),
                *format == formats[f as int],
                n <= format.sizes.len(),
                modes.len() == sizes_before(formats@, f as int) + n,
                forall|g: int, s: int|
                    (0 <= g < f && 0 <= s < formats[g].sizes.len()) || (g == f && 0 <= s < n)
                        ==> mode_of(
                        modes[sizes_before(formats@, g) + s],
                        #[trigger] formats[g],
                        #[trigger] formats[g].sizes[s],
                    ),
            decreases format.sizes.len() - n,
        {
            let size = &format.sizes[n];
            let fps = rates(&size.intervals);
            let ghost before = modes@;
            modes.push(
                CaptureMode {
                    fourcc: format.fourcc,
                    description: format.description.clone(),
                    width: size.width,
                    height: size.height,
                    fps,
                },
            );
            proof {
                assert forall|g: int, s: int|
                    (0 <= g < f && 0 <= s < formats[g].sizes.len()) || (g == f && 0 <= s < n
                        + 1) implies mode_of(
                    modes[sizes_before(formats@, g) + s],
                    #[trigger] formats[g],
                    #[trigger] formats[g].sizes[s],
                ) by {
                    if g < f {
                        lemma_sizes_before(formats@, g + 1, f as int);
                    }
                    if g < f || s < n {
                        assert(modes[sizes_before(formats@, g) + s] == before[sizes_before(
                            formats@,
                            g,
                        ) + s]);
                    }
                }
            }
            n = n + 1;
        }
        f = f + 1;
    }
    modes
}

proof fn lemma_sizes_before(formats: Seq<OfferedFormat>, a: int, b: int)
    requires
        0 <= a <= b,
    ensures
        sizes_before(formats, a) <= sizes_before(formats, b),
    decreases b - a,
{
    if a < b {
        lemma_sizes_before(formats, a, b - 1);
    }
}

/// An interval of a number of parts out of as many times as many to the second is a rate of that
/// many frames; at a range of intervals it is the shortest that counts, and an interval without
/// length is a second.
pub proof fn an_interval_is_the_inverse_of_a_rate(
    parts: u32,
    rate: u32,
    max: Fraction,
    step: Fraction,
    denominator: u32,
)
    requires
        parts >= 1,
        parts * rate < 0x100_0000,
    ensures
        ({
            let interval = Fraction { numerator: parts, denominator: (parts * rate) as u32 };
            let none = Fraction { numerator: 0, denominator };
            let one = Fraction { numerator: 1, denominator };
            &&& FrameInterval::Discrete(interval).spec_rate() == F32::of_nat(rate as nat)
            &&& (FrameInterval::Stepwise { min: interval, max, step }).spec_rate() == F32::of_nat(
                rate as nat,
            )
            &&& FrameInterval::Discrete(none).spec_rate() == FrameInterval::Discrete(
                one,
            ).spec_rate()
        }),
{
    single::a_multiple_is_divided(parts as nat, rate as nat);
    assert(parts * rate >= 0) by (nonlinear_arith);
}

/// The first rate of a mode is its highest, and each is no lower than the next.
pub proof fn the_first_rate_is_the_highest(
    mode: CaptureMode,
    format: OfferedFormat,
    size: OfferedSize,
    i: int,
    j: int,
)
    requires
        mode_of(mode, format, size),
        0 <= i <= j < mode.fps@.len(),
    ensures
        mode.fps@[j].spec_le(mode.fps@[i]),
        mode.fps@[j].spec_le(mode.fps@[0]),
        mode.width == size.width && mode.height == size.height && mode.fourcc == format.fourcc,
{
    let fps = mode.fps@;
    assert(!fps[i].nan() && !fps[j].nan() && !fps[0].nan());
    if i < j {
        assert(!fps[i].spec_lt(fps[j]));
    }
    if 0 < j {
        assert(!fps[0].spec_lt(fps[j]));
    }
}

} // verus!
