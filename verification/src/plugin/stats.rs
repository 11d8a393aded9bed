//! Live statistics of a stream.
use vstd::arithmetic::power2;
use vstd::prelude::*;
use vstd::string::*;

use crate::capture::frame::FrameLayout;
use crate::duration::{self, Duration, NANOS_PER_SEC};
use crate::single::{self, F32};
use crate::text;

verus! {

/// Five seconds, as the bits of a single.
pub const LOG_INTERVAL: u32 = 0x40a0_0000;

/// How frames reach the GPU.
#[derive(Debug, Clone, Copy, PartialEq, Eq, Structural)]
pub enum TransferMode {
    Unknown,
    /// DMA-BUF imported as a Vulkan image; the GPU reads the kernel buffer directly.
    DmabufZeroCopy,
    /// The mmap'd buffer is written to the texture.
    CpuUpload,
    /// JPEG frames decoded on a CPU thread, then uploaded as RGBA.
    MjpegDecode,
}

impl Default for TransferMode {
    fn default() -> (r: TransferMode)
        ensures
            r == TransferMode::Unknown,
    {
        TransferMode::Unknown
    }
}

impl TransferMode {
    pub open spec fn spec_label(self) -> Seq<char> {
        match self {
            TransferMode::DmabufZeroCopy => "DMA-BUF zero-copy"@,
            TransferMode::CpuUpload => "CPU upload"@,
            TransferMode::MjpegDecode => "MJPEG CPU decode"@,
            TransferMode::Unknown => "initialising"@,
        }
    }

    pub fn label(self) -> (r: &'static str)
        ensures
            r@ == self.spec_label(),
    {
        match self {
            TransferMode::DmabufZeroCopy => "DMA-BUF zero-copy",
            TransferMode::CpuUpload => "CPU upload",
            TransferMode::MjpegDecode => "MJPEG CPU decode",
            TransferMode::Unknown => "initialising",
        }
    }
}

/// Live statistics.
#[derive(Debug, Clone)]
pub struct WebcamStats {
    pub mode: TransferMode,
    /// Frames delivered to the GPU.
    pub frames: u64,
    /// Delivery rate, updated once a second.
    pub fps: F32,
    /// Time from the driver's timestamp to the GPU copy being issued, for the last frame.
    /// uvcvideo stamps the *start* of a frame, so the frame's own transfer is part of it.
    pub last_latency: Duration,
    /// Frames the driver dropped for lack of free buffers.
    pub driver_dropped: u64,
    /// Frames the driver delivered damaged (USB packet loss).
    pub damaged: u64,
    /// Frames dequeued but skipped because a newer one was already available.
    pub skipped: u64,
    /// Duration of the last CPU cache write-back on the capture thread.
    pub flush_time: Duration,
    /// Duration of the last JPEG decode (MJPEG mode only).
    pub decode_time: Duration,
    /// JPEG frames that failed to decode.
    pub decode_failed: u64,
    pub error: Option<String>,
}

impl Default for WebcamStats {
    fn default() -> (r: WebcamStats)
        ensures
            r == (WebcamStats {
                mode: TransferMode::Unknown,
                frames: 0,
                fps: F32 { bits: 0 },
                last_latency: Duration { nanos: 0 },
                driver_dropped: 0,
                damaged: 0,
                skipped: 0,
                flush_time: Duration { nanos: 0 },
                decode_time: Duration { nanos: 0 },
                decode_failed: 0,
                error: None,
            }),
    {
        WebcamStats {
            mode: TransferMode::Unknown,
            frames: 0,
            fps: F32 { bits: 0 },
            last_latency: Duration { nanos: 0 },
            driver_dropped: 0,
            damaged: 0,
            skipped: 0,
            flush_time: Duration { nanos: 0 },
            decode_time: Duration { nanos: 0 },
            decode_failed: 0,
            error: None,
        }
    }
}

/// The numbers of a summary that are fractions, in words: the rate and the latency in
/// milliseconds with one decimal, the decode time in milliseconds with one decimal, the cache
/// flush in whole microseconds.
#[derive(Debug, Clone)]
pub struct Figures {
    pub fps: String,
    pub latency_ms: String,
    pub decode_ms: String,
    pub flush_us: String,
}

impl WebcamStats {
    /// What is said of the way the frames take.
    pub open spec fn extra(self, figures: Figures) -> Seq<char> {
        match self.mode {
            TransferMode::MjpegDecode => "decode "@ + figures.decode_ms@ + " ms  failed "@
                + text::decimal(self.decode_failed as nat),
            _ => "cache flush "@ + figures.flush_us@ + " us"@,
        }
    }

    pub open spec fn summary(self, layout: FrameLayout, figures: Figures) -> Seq<char> {
        let line = text::decimal(layout.width as nat) + "x"@ + text::decimal(layout.height as nat)
            + " "@ + layout.fourcc.text() + " @ "@ + figures.fps@ + " fps  |  path: "@
            + self.mode.spec_label() + "  |  capture->GPU "@ + figures.latency_ms@
            + " ms  |  driver drops "@ + text::decimal(self.driver_dropped as nat) + "  damaged "@
            + text::decimal(self.damaged as nat) + "  skipped "@ + text::decimal(
            self.skipped as nat,
        ) + "  |  "@ + self.extra(figures);
        match self.error {
            Some(e) => line + "  |  import error: "@ + e@,
            None => line,
        }
    }

    /// One line summarising the stream, for an overlay.
    pub fn describe(&self, layout: &FrameLayout, figures: &Figures) -> (r: String)
        ensures
            r@ == self.summary(*layout, *figures),
    {
        let mut out = String::new();
        text::append_decimal(&mut out, layout.width as u64);
        proof {
            assert(out@ =~= text::decimal(layout.width as nat));
        }
        out.append("x");
        text::append_decimal(&mut out, layout.height as u64);
        out.append(" ");
        out.append(layout.fourcc.to_string().as_str());
        out.append(" @ ");
        out.append(figures.fps.as_str());
        out.append(" fps  |  path: ");
        out.append(self.mode.label());
        out.append("  |  capture->GPU ");
        out.append(figures.latency_ms.as_str());
        out.append(" ms  |  driver drops ");
        text::append_decimal(&mut out, self.driver_dropped);
        out.append("  damaged ");
        text::append_decimal(&mut out, self.damaged);
        out.append("  skipped ");
        text::append_decimal(&mut out, self.skipped);
        out.append("  |  ");
        let ghost before = out@;
        match self.mode {
            TransferMode::MjpegDecode => {
                out.append("decode ");
                out.append(figures.decode_ms.as_str());
                out.append(" ms  failed ");
                text::append_decimal(&mut out, self.decode_failed);
            },
            _ => {
                out.append("cache flush ");
                out.append(figures.flush_us.as_str());
                out.append(" us");
            },
        }
        proof {
            assert(out@ =~= before + self.extra(*figures));
        }
        if let Some(e) = &self.error {
            out.append("  |  import error: ");
            out.append(e.as_str());
        }
        out
    }
}

/// Counts the frames of a second.
#[derive(Debug, Clone, Copy, PartialEq, Eq, Structural)]
pub struct FrameWindow {
    pub start: Option<Duration>,
    pub frames: u32,
}

impl FrameWindow {
    pub fn new() -> (r: FrameWindow)
        ensures
            r == (FrameWindow { start: None, frames: 0 }),
    {
        FrameWindow { start: None, frames: 0 }
    }

    /// The time since the window began.
    pub open spec fn elapsed(self, now: Duration) -> Duration {
        match self.start {
            Some(start) => if now.nanos >= start.nanos {
                Duration { nanos: (now.nanos - start.nanos) as u128 }
            } else {
                Duration { nanos: 0 }
            },
            None => Duration { nanos: 0 },
        }
    }

    /// The window is over: a second has passed since it began.
    pub open spec fn over(self, now: Duration) -> bool {
        self.start is Some && self.elapsed(now).nanos >= NANOS_PER_SEC
    }

    /// Counts a frame at `now`. Once a second the rate is brought up to date, and a new window
    /// begins.
    pub fn count_frame(&mut self, stats: &mut WebcamStats, now: Duration)
        requires
            old(self).frames < u32::MAX,
            old(stats).frames < u64::MAX,
            now.nanos / NANOS_PER_SEC <= u64::MAX,
        ensures
            final(stats).frames == old(stats).frames + 1,
            final(stats).fps == if old(self).over(now) {
                F32::of_nat((old(self).frames + 1) as nat).spec_over(
                    old(self).elapsed(now).spec_secs(),
                )
            } else {
                old(stats).fps
            },
            *final(stats) == (WebcamStats {
                frames: final(stats).frames,
                fps: final(stats).fps,
                ..*old(stats)
            }),
            *final(self) == if old(self).over(now) {
                FrameWindow { start: Some(now), frames: 0 }
            } else {
                FrameWindow {
                    start: Some(
                        match old(self).start {
                            Some(start) => start,
                            None => now,
                        },
                    ),
                    frames: (old(self).frames + 1) as u32,
                }
            },
    {
        self.frames = self.frames + 1;
        stats.frames = stats.frames + 1;
        match self.start {
            None => {
                self.start = Some(now);
            },
            Some(start) => {
                let elapsed = now.saturating_sub(start);
                if elapsed.nanos >= NANOS_PER_SEC {
                    stats.fps = F32::from_u64(self.frames as u64).over(&elapsed.as_secs_f32());
                    self.start = Some(now);
                    self.frames = 0;
                }
            },
        }
    }
}

/// Whether the statistics are due to be logged at `now`, given when they next are: if so, when
/// they are due again, five seconds later.
pub fn log_due(now: F32, next: F32) -> (r: Option<F32>)
    ensures
        r == if now.spec_lt(next) {
            None::<F32>
        } else {
            Some(now.spec_plus(F32 { bits: LOG_INTERVAL }))
        },
{
    if now.less(&next) {
        None
    } else {
        Some(now.plus(&F32 { bits: LOG_INTERVAL }))
    }
}

/// A second is a thousand million nanoseconds: a window is over from then on, and not before.
pub proof fn a_window_lasts_a_second(window: FrameWindow, now: Duration)
    ensures
        window.start is None ==> !window.over(now),
        window.start matches Some(start) ==> (window.over(now) <==> now.nanos >= start.nanos
            + 1_000_000_000),
{
}

/// The rate is the frames to the second: as many times as many frames as seconds is that many.
pub proof fn the_rate_is_frames_to_the_second(
    window: FrameWindow,
    now: Duration,
    secs: nat,
    rate: nat,
)
    requires
        window.start is Some,
        secs > 0,
        now.nanos == (window.start->0).nanos + secs * 1_000_000_000,
        secs < 0x100_0000,
        secs * rate < 0x100_0000,
    ensures
        window.over(now),
        F32::of_nat(secs * rate).spec_over(window.elapsed(now).spec_secs()) == F32::of_nat(rate),
{
    duration::whole_seconds_are_counted(secs);
    single::a_multiple_is_divided(secs, rate);
}

/// The statistics are logged every five seconds.
pub proof fn five_seconds_to_the_next_log()
    ensures
        F32::of_nat(5) == (F32 { bits: LOG_INTERVAL }),
{
    power2::lemma2_to64();
    single::a_pattern_is_its_value(0xa0_0000, 5, 21, 128);
}

/// Each way that frames can take has a name of its own.
pub proof fn ways_are_told_apart(a: TransferMode, b: TransferMode)
    requires
        a.spec_label() == b.spec_label(),
    ensures
        a == b,
{
    reveal_strlit("DMA-BUF zero-copy");
    reveal_strlit("CPU upload");
    reveal_strlit("MJPEG CPU decode");
    reveal_strlit("initialising");
    assert("DMA-BUF zero-copy"@.len() == 17 && "CPU upload"@.len() == 10
        && "MJPEG CPU decode"@.len() == 16 && "initialising"@.len() == 12);
}

/// A summary begins with the size of the frames, and ends with the error if there is one.
pub proof fn a_summary_names_size_and_error(
    stats: WebcamStats,
    layout: FrameLayout,
    figures: Figures,
)
    ensures
        (text::decimal(layout.width as nat) + "x"@ + text::decimal(
            layout.height as nat,
        )).is_prefix_of(stats.summary(layout, figures)),
        stats.error matches Some(e) ==> e@.is_suffix_of(stats.summary(layout, figures)),
        stats.error is None && stats.mode is MjpegDecode ==> text::decimal(
            stats.decode_failed as nat,
        ).is_suffix_of(stats.summary(layout, figures)),
{
    let s = stats.summary(layout, figures);
    let head = text::decimal(layout.width as nat) + "x"@ + text::decimal(layout.height as nat);
    assert(head =~= s.subrange(0, head.len() as int));
    if let Some(e) = stats.error {
        assert(e@ =~= s.subrange(s.len() - e@.len(), s.len() as int));
    } else if stats.mode is MjpegDecode {
        let d = text::decimal(stats.decode_failed as nat);
        assert(d =~= s.subrange(s.len() - d.len(), s.len() as int));
    }
}

/// A summary goes on with the format and the rate; what is said of the way is the decode time where
/// frames are decoded, and the time of the cache flush elsewhere.
pub proof fn a_summary_names_rate_and_times(
    stats: WebcamStats,
    layout: FrameLayout,
    figures: Figures,
)
    ensures
        (text::decimal(layout.width as nat) + "x"@ + text::decimal(layout.height as nat) + " "@
            + layout.fourcc.text() + " @ "@ + figures.fps@).is_prefix_of(
            stats.summary(layout, figures),
        ),
        stats.mode is MjpegDecode ==> ("decode "@ + figures.decode_ms@).is_prefix_of(
            stats.extra(figures),
        ),
        !(stats.mode is MjpegDecode) ==> stats.extra(figures) == "cache flush "@
            + figures.flush_us@ + " us"@,
{
    let s = stats.summary(layout, figures);
    let head = text::decimal(layout.width as nat) + "x"@ + text::decimal(layout.height as nat) + " "@
        + layout.fourcc.text() + " @ "@ + figures.fps@;
    assert(head =~= s.subrange(0, head.len() as int));
    if stats.mode is MjpegDecode {
        let (e, d) = (stats.extra(figures), "decode "@ + figures.decode_ms@);
        assert(d =~= e.subrange(0, d.len() as int));
    }
}

} // verus!
