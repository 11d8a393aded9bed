//! From the newest frame to the texture: which way frames take, and what is done with each.
use vstd::arithmetic::mul;
use vstd::prelude::*;

use crate::capture::frame::{DequeuedFrame, FrameLayout};
use crate::capture::stream::Capture;
use crate::duration::{Duration, NANOS_PER_SEC};
use crate::fourcc::FOURCC_MJPG;
use crate::mjpeg::Decoder;
use crate::plugin::feed;
use crate::plugin::stats::{self, FrameWindow, TransferMode, WebcamStats};
use crate::single::F32;

verus! {

/// What does not change while a camera runs.
#[derive(Debug, Clone, Copy, PartialEq, Eq, Structural)]
pub struct WebcamFeed {
    pub layout: FrameLayout,
    /// Frames are decoded on a thread.
    pub decoding: bool,
    pub force_upload: bool,
    pub verify_frames: u32,
    pub no_barrier: bool,
}

/// What changes with each frame.
#[derive(Debug, Clone, Copy, PartialEq, Eq, Structural)]
pub struct WebcamGpu {
    pub mode: TransferMode,
    /// Imported textures, one for each buffer.
    pub imported: usize,
    pub window: FrameWindow,
    /// Copies that were compared with the kernel buffer.
    pub verified: u32,
}

/// How the way that frames take is found.
#[derive(Debug, Clone, Copy, PartialEq, Eq, Structural)]
pub enum ModeStep {
    Use(TransferMode),
    /// Import every buffer, and see.
    ImportAll,
}

/// When a frame's buffer goes back to the driver.
#[derive(Debug, Clone, Copy, PartialEq, Eq, Structural)]
pub enum Requeue {
    AtOnce,
    /// Once the GPU has finished reading it.
    WhenDone,
}

/// What is done with a raw frame.
#[derive(Debug, Clone, Copy, PartialEq, Eq, Structural)]
pub enum UploadStep {
    /// There is no texture for this frame; its buffer goes back.
    Recycle(u32),
    /// Copy the imported texture on the GPU.
    Copy {
        index: u32,
        width: u32,
        height: u32,
        /// Acquire the image before the copy and release it after.
        barriers: bool,
        /// Compare the copy with the kernel buffer.
        verify: bool,
        requeue: Requeue,
    },
    /// Write the first `len` bytes of the buffer to the texture.
    Write {
        index: u32,
        len: usize,
        bytes_per_row: u32,
        width: u32,
        height: u32,
        requeue: Requeue,
    },
}

/// The buffer that goes back after a step.
pub open spec fn returned(step: UploadStep) -> u32 {
    match step {
        UploadStep::Recycle(index) => index,
        UploadStep::Copy { index, .. } => index,
        UploadStep::Write { index, .. } => index,
    }
}

/// At most so many copies are compared as was asked for.
pub open spec fn within_request(gpu: WebcamGpu, feed: WebcamFeed) -> bool {
    gpu.verified <= feed.verify_frames
}

impl WebcamGpu {
    pub fn new() -> (r: WebcamGpu)
        ensures
            r == (WebcamGpu {
                mode: TransferMode::Unknown,
                imported: 0,
                window: FrameWindow { start: None, frames: 0 },
                verified: 0,
            }),
    {
        WebcamGpu {
            mode: TransferMode::Unknown,
            imported: 0,
            window: FrameWindow::new(),
            verified: 0,
        }
    }

    /// Which way frames take: compressed ones are decoded, the others go to the GPU without a
    /// copy if every buffer can be imported, and through the CPU otherwise.
    pub fn decide_mode(feed: &WebcamFeed, import_supported: bool) -> (r: ModeStep)
        ensures
            r == if feed.decoding {
                ModeStep::Use(TransferMode::MjpegDecode)
            } else if feed.force_upload || !import_supported {
                ModeStep::Use(TransferMode::CpuUpload)
            } else {
                ModeStep::ImportAll
            },
    {
        if feed.decoding {
            return ModeStep::Use(TransferMode::MjpegDecode);
        }
        if feed.force_upload || !import_supported {
            return ModeStep::Use(TransferMode::CpuUpload);
        }
        ModeStep::ImportAll
    }

    /// Settles on a way.
    pub fn settle(&mut self, stats: &mut WebcamStats, mode: TransferMode)
        ensures
            *final(self) == (WebcamGpu { mode, ..*old(self) }),
            *final(stats) == (WebcamStats { mode, ..*old(stats) }),
    {
        self.mode = mode;
        stats.mode = mode;
    }

    /// The buffers were imported, so many of them, or one of them could not be.
    pub fn imported(&mut self, stats: &mut WebcamStats, result: Result<usize, String>)
        ensures
            match result {
                Ok(n) => {
                    &&& *final(self) == (WebcamGpu {
                        mode: TransferMode::DmabufZeroCopy,
                        imported: n,
                        ..*old(self)
                    })
                    &&& *final(stats) == (WebcamStats {
                        mode: TransferMode::DmabufZeroCopy,
                        ..*old(stats)
                    })
                },
                Err(e) => {
                    &&& *final(self) == (WebcamGpu { mode: TransferMode::CpuUpload, ..*old(self) })
                    &&& *final(stats) == (WebcamStats {
                        mode: TransferMode::CpuUpload,
                        error: Some(e),
                        ..*old(stats)
                    })
                },
            },
    {
        match result {
            Ok(n) => {
                self.imported = n;
                self.settle(stats, TransferMode::DmabufZeroCopy);
            },
            Err(e) => {
                stats.error = Some(e);
                self.settle(stats, TransferMode::CpuUpload);
            },
        }
    }

    /// What is done with a raw frame, once the way is settled. Only the first copies are compared.
    pub fn upload_one(&mut self, feed: &WebcamFeed, frame: &DequeuedFrame) -> (r: UploadStep)
        requires
            old(self).mode == TransferMode::DmabufZeroCopy || old(self).mode
                == TransferMode::CpuUpload,
            old(self).mode == TransferMode::CpuUpload ==> feed.layout.stride * feed.layout.height
                <= u32::MAX,
        ensures
            returned(r) == frame.index,
            feed.layout.width % 2 == 0 ==> {
                &&& r matches UploadStep::Copy { width, height, .. } ==> 4 * width == 2
                    * feed.layout.width && height == feed.layout.height
                &&& r matches UploadStep::Write { width, height, .. } ==> 4 * width == 2
                    * feed.layout.width && height == feed.layout.height
            },
            feed.layout.fourcc.code != FOURCC_MJPG ==> {
                &&& r matches UploadStep::Copy { width, height, .. } ==> width == feed::plan_for(
                    feed.layout,
                    false,
                ).texture_width && height == feed.layout.height
                &&& r matches UploadStep::Write { width, height, .. } ==> width == feed::plan_for(
                    feed.layout,
                    false,
                ).texture_width && height == feed.layout.height
            },
            within_request(*old(self), *feed) ==> within_request(*final(self), *feed),
            old(self).mode == TransferMode::CpuUpload ==> *final(self) == *old(self) && r == (
            UploadStep::Write {
                index: frame.index,
                len: (feed.layout.stride * feed.layout.height) as usize,
                bytes_per_row: feed.layout.stride,
                width: (feed.layout.width / 2) as u32,
                height: feed.layout.height,
                requeue: Requeue::AtOnce,
            }),
            old(self).mode == TransferMode::DmabufZeroCopy && frame.index >= old(self).imported
                ==> *final(self) == *old(self) && r == UploadStep::Recycle(frame.index),
            old(self).mode == TransferMode::DmabufZeroCopy && frame.index < old(self).imported
                ==> {
                let verify = old(self).verified < feed.verify_frames;
                &&& *final(self) == if verify {
                    WebcamGpu { verified: (old(self).verified + 1) as u32, ..*old(self) }
                } else {
                    *old(self)
                }
                &&& r == (UploadStep::Copy {
                    index: frame.index,
                    width: (feed.layout.width / 2) as u32,
                    height: feed.layout.height,
                    barriers: !feed.no_barrier,
                    verify,
                    requeue: if verify {
                        Requeue::AtOnce
                    } else {
                        Requeue::WhenDone
                    },
                })
            },
    {
        let (width, height): (u32, u32) = (feed.layout.width / 2, feed.layout.height);
        if self.mode == TransferMode::CpuUpload {
            proof {
                mul::lemma_mul_nonnegative(feed.layout.stride as int, feed.layout.height as int);
            }
            return UploadStep::Write {
                index: frame.index,
                len: (feed.layout.stride * feed.layout.height) as usize,
                bytes_per_row: feed.layout.stride,
                width,
                height,
                requeue: Requeue::AtOnce,
            };
        }
        if frame.index as usize >= self.imported {
            return UploadStep::Recycle(frame.index);
        }
        let verify = self.verified < feed.verify_frames;
        if verify {
            self.verified = self.verified + 1;
        }
        UploadStep::Copy {
            index: frame.index,
            width,
            height,
            barriers: !feed.no_barrier,
            verify,
            requeue: if verify {
                Requeue::AtOnce
            } else {
                Requeue::WhenDone
            },
        }
    }

    /// Brings the statistics up to date after a raw frame. `older` is how many waiting frames were
    /// given back when it was taken: they were skipped because this newer one was available.
    pub fn frame_shown(
        &mut self,
        stats: &mut WebcamStats,
        latency: Duration,
        capture: &Capture,
        older: usize,
        now: Duration,
    )
        requires
            old(self).window.frames < u32::MAX,
            old(stats).frames < u64::MAX,
            old(stats).skipped + older <= u64::MAX,
            now.nanos / NANOS_PER_SEC <= u64::MAX,
        ensures
            *final(stats) == (WebcamStats {
                frames: (old(stats).frames + 1) as u64,
                fps: final(stats).fps,
                last_latency: latency,
                driver_dropped: capture.dropped_by_driver,
                damaged: capture.damaged,
                flush_time: Duration { nanos: capture.flush_nanos as u128 },
                skipped: (old(stats).skipped + older) as u64,
                ..*old(stats)
            }),
            counted(old(self).window, final(self).window, old(stats).fps, final(stats).fps, now),
            *final(self) == (WebcamGpu { window: final(self).window, ..*old(self) }),
    {
        stats.last_latency = latency;
        stats.driver_dropped = capture.driver_dropped_count();
        stats.damaged = capture.damaged_count();
        stats.flush_time = capture.last_flush_time();
        stats.skipped = stats.skipped + older as u64;
        self.window.count_frame(stats, now);
    }

    /// Brings the statistics up to date after a decoded frame.
    pub fn decoded_shown(
        &mut self,
        stats: &mut WebcamStats,
        latency: Duration,
        decode_time: Duration,
        decoder: &Decoder,
        capture: &Capture,
        now: Duration,
    )
        requires
            old(self).window.frames < u32::MAX,
            old(stats).frames < u64::MAX,
            now.nanos / NANOS_PER_SEC <= u64::MAX,
        ensures
            *final(stats) == (WebcamStats {
                frames: (old(stats).frames + 1) as u64,
                fps: final(stats).fps,
                last_latency: latency,
                decode_time,
                decode_failed: decoder.failed,
                driver_dropped: capture.dropped_by_driver,
                damaged: capture.damaged,
                skipped: decoder.skipped,
                ..*old(stats)
            }),
            counted(old(self).window, final(self).window, old(stats).fps, final(stats).fps, now),
            *final(self) == (WebcamGpu { window: final(self).window, ..*old(self) }),
    {
        stats.last_latency = latency;
        stats.decode_time = decode_time;
        stats.decode_failed = decoder.failed();
        stats.driver_dropped = capture.driver_dropped_count();
        stats.damaged = capture.damaged_count();
        stats.skipped = decoder.skipped();
        self.window.count_frame(stats, now);
    }
}

/// A frame was counted at `now`.
pub open spec fn counted(
    before: FrameWindow,
    after: FrameWindow,
    fps_before: F32,
    fps_after: F32,
    now: Duration,
) -> bool {
    if before.over(now) {
        &&& after == (FrameWindow { start: Some(now), frames: 0 })
        &&& fps_after == F32::of_nat((before.frames + 1) as nat).spec_over(
            before.elapsed(now).spec_secs(),
        )
    } else {
        &&& after.start == Some(
            match before.start {
                Some(start) => start,
                None => now,
            },
        )
        &&& after.frames == before.frames + 1
        &&& fps_after == fps_before
    }
}

/// The bytes of a row of decoded pixels.
pub fn decoded_row(width: u32) -> (r: u32)
    requires
        width * 4 <= u32::MAX,
    ensures
        r == width * 4,
{
    width * 4
}

/// A frame is counted in its window: a second after the window began it brings the rate up to date,
/// and a window begins; until then it is one more, and nothing else changes.
pub proof fn a_frame_is_counted_in_its_window(
    before: FrameWindow,
    after: FrameWindow,
    fps_before: F32,
    fps_after: F32,
    now: Duration,
    secs: nat,
    rate: nat,
)
    requires
        counted(before, after, fps_before, fps_after, now),
    ensures
        before.start is None ==> after.start == Some(now) && after.frames == before.frames + 1
            && fps_after == fps_before,
        before.start matches Some(start) ==> {
            &&& now.nanos < start.nanos + 1_000_000_000 ==> after.start == Some(start)
                && after.frames == before.frames + 1 && fps_after == fps_before
            &&& now.nanos >= start.nanos + 1_000_000_000 ==> after.start == Some(now)
                && after.frames == 0
            &&& 0 < secs < 0x100_0000 && now.nanos == start.nanos + secs * 1_000_000_000
                && before.frames + 1 == secs * rate && secs * rate < 0x100_0000 ==> fps_after
                == F32::of_nat(rate)
        },
{
    if let Some(start) = before.start {
        if 0 < secs < 0x100_0000 && now.nanos == start.nanos + secs * 1_000_000_000 && secs * rate
            < 0x100_0000 {
            stats::the_rate_is_frames_to_the_second(before, now, secs, rate);
        }
    }
}

} // verus!
