use bevy_v4l2::capture::frame::take_latest;
use bevy_v4l2::capture::{
    flush_cpu_cache, list_modes, luma, Answer, Capture, CaptureConfig, CaptureError, DequeueFailure,
    DequeuedFrame, Fraction, FrameInterval, FrameLayout, GrantedFormat, Ioctl, Newest,
    OfferedFormat, OfferedSize, OpenStep, Opening, PollStep, RawBuffer, SendOutcome, Stage,
    FOURCC_MJPG, FOURCC_UYVY, FOURCC_YUYV,
};
use bevy_v4l2::{Duration, FourCC};

const CAPS: u32 = 0x0400_0001;

fn yuyv() -> FourCC {
    FourCC { code: FOURCC_YUYV }
}

fn granted(fourcc: u32) -> GrantedFormat {
    GrantedFormat {
        width: 1280,
        height: 720,
        fourcc: FourCC { code: fourcc },
        stride: 2560,
        size: 2560 * 720,
        full_range: false,
    }
}

fn error(step: OpenStep) -> CaptureError {
    match step {
        OpenStep::Fail(e) => e,
        other => panic!("{other:?}"),
    }
}

fn layout(compressed: bool) -> FrameLayout {
    FrameLayout {
        width: 4,
        height: 2,
        fourcc: yuyv(),
        stride: 8,
        size: 16,
        full_range: false,
        compressed,
    }
}

fn frame(index: u32, sequence: u32) -> DequeuedFrame {
    DequeuedFrame {
        index,
        sequence,
        bytes_used: 16,
        timestamp: Duration::from_millis(sequence as u64),
        error: false,
    }
}

/// An opening up to the request for buffers.
fn opened(config: CaptureConfig) -> (Opening, OpenStep) {
    let (mut opening, step) = Opening::new(config);
    assert!(matches!(step, OpenStep::OpenDevice));
    assert!(matches!(opening.next(Answer::Done), OpenStep::QueryCapabilities));
    assert!(matches!(
        opening.next(Answer::Capabilities(CAPS)),
        OpenStep::SetFormat { width: 1280, height: 720, fourcc } if fourcc == yuyv()
    ));
    let step = opening.next(Answer::Format(granted(FOURCC_YUYV)));
    (opening, step)
}

#[test]
fn the_default_is_hd_at_thirty() {
    let c = CaptureConfig::default();
    assert_eq!(c.device, "/dev/video0");
    assert_eq!((c.width, c.height, c.fourcc), (1280, 720, yuyv()));
    assert_eq!((c.fps, c.buffer_count, c.flush_cpu_cache), (Some(30), 4, true));
}

#[test]
fn a_device_is_opened_step_by_step() {
    let (mut opening, step) = opened(CaptureConfig::default());
    assert!(matches!(step, OpenStep::SetRate(30)));
    // A driver that cannot set the rate keeps its own.
    assert!(matches!(
        opening.next(Answer::Failed("no".to_string())),
        OpenStep::RequestBuffers(4)
    ));
    assert!(matches!(opening.next(Answer::Granted(3)), OpenStep::QueryBuffer(0)));
    for i in 0..3u32 {
        assert!(matches!(opening.next(Answer::Length(100 + i)), OpenStep::ExportBuffer(k) if k == i));
        assert!(matches!(opening.next(Answer::Done), OpenStep::MapBuffer(k) if k == i));
        let step = opening.next(Answer::Done);
        if i < 2 {
            assert!(matches!(step, OpenStep::QueryBuffer(k) if k == i + 1));
        } else {
            assert!(matches!(step, OpenStep::QueueBuffer(0)));
        }
    }
    assert!(matches!(opening.next(Answer::Done), OpenStep::QueueBuffer(1)));
    assert!(matches!(opening.next(Answer::Done), OpenStep::QueueBuffer(2)));
    assert!(matches!(opening.next(Answer::Done), OpenStep::StreamOn));
    assert!(matches!(opening.next(Answer::Done), OpenStep::Running));
    assert_eq!(opening.stage, Stage::Running);
    let capture = opening.finish();
    assert_eq!(capture.buffers(), [100, 101, 102]);
    let layout = capture.layout();
    assert_eq!((layout.width, layout.stride, layout.size), (1280, 2560, 2560 * 720));
    assert!(!layout.compressed && !layout.full_range);
    assert_eq!(capture.dequeued_count(), 0);
}

#[test]
fn at_least_two_buffers_are_asked_for() {
    let config = CaptureConfig {
        fps: None,
        buffer_count: 1,
        ..CaptureConfig::default()
    };
    let (mut opening, step) = opened(config);
    assert!(matches!(step, OpenStep::RequestBuffers(2)));
    let e = error(opening.next(Answer::Granted(1)));
    assert!(matches!(e, CaptureError::TooFewBuffers(1)));
    assert_eq!(e.to_string(), "driver granted 1 buffers, need at least 2");
    assert_eq!(opening.stage, Stage::Failed);
}

#[test]
fn motion_jpeg_is_compressed() {
    let config = CaptureConfig {
        fourcc: FourCC { code: FOURCC_MJPG },
        ..CaptureConfig::default()
    };
    let (mut opening, _) = Opening::new(config);
    opening.next(Answer::Done);
    opening.next(Answer::Capabilities(CAPS));
    opening.next(Answer::Format(granted(FOURCC_MJPG)));
    assert!(opening.layout.compressed);
}

#[test]
fn a_device_that_does_not_open() {
    let (mut opening, _) = Opening::new(CaptureConfig::default());
    let e = error(opening.next(Answer::Failed("no such file".to_string())));
    assert!(matches!(e, CaptureError::Open { .. }));
    assert_eq!(e.to_string(), "failed to open /dev/video0: no such file");
}

#[test]
fn capabilities_are_checked() {
    for (caps, words) in [
        (0x0400_0000, "device does not support video capture"),
        (0x0000_0001, "device does not support streaming I/O (MMAP)"),
    ] {
        let (mut opening, _) = Opening::new(CaptureConfig::default());
        opening.next(Answer::Done);
        assert_eq!(error(opening.next(Answer::Capabilities(caps))).to_string(), words);
    }
}

#[test]
fn a_refused_format_names_what_is_offered() {
    let refused = || {
        let (mut opening, _) = Opening::new(CaptureConfig::default());
        opening.next(Answer::Done);
        opening.next(Answer::Capabilities(CAPS));
        let step = opening.next(Answer::Format(granted(FOURCC_MJPG)));
        assert!(matches!(step, OpenStep::ListFormats));
        opening
    };
    let offered = vec![FourCC::new(b"MJPG"), FourCC::new(b"NV12")];
    let e = error(refused().next(Answer::Formats(Some(offered))));
    assert_eq!(e.to_string(), "driver refused pixel format YUYV; it offers: MJPG, NV12");
    let e = error(refused().next(Answer::Formats(Some(vec![]))));
    assert_eq!(e.to_string(), "driver refused pixel format YUYV; it offers: ");
    let e = error(refused().next(Answer::Formats(None)));
    assert_eq!(e.to_string(), "driver refused pixel format YUYV; it offers: <unknown>");
}

#[test]
fn each_request_that_fails_is_named() {
    let why = || Answer::Failed("EIO".to_string());
    let (mut o, _) = Opening::new(CaptureConfig::default());
    o.next(Answer::Done);
    assert_eq!(error(o.next(why())).to_string(), "VIDIOC_QUERYCAP failed: EIO");
    let (mut o, _) = Opening::new(CaptureConfig::default());
    o.next(Answer::Done);
    o.next(Answer::Capabilities(CAPS));
    assert_eq!(error(o.next(why())).to_string(), "VIDIOC_S_FMT failed: EIO");
    let prepared = |answers: Vec<Answer>| {
        let (mut o, _) = opened(CaptureConfig::default());
        o.next(Answer::Done);
        for a in answers {
            o.next(a);
        }
        o
    };
    let e = error(prepared(vec![]).next(why()));
    assert!(matches!(e, CaptureError::Ioctl { op: Ioctl::RequestBuffers, .. }));
    assert_eq!(e.to_string(), "VIDIOC_REQBUFS failed: EIO");
    let e = error(prepared(vec![Answer::Granted(2)]).next(why()));
    assert_eq!(e.to_string(), "VIDIOC_QUERYBUF failed: EIO");
    let e = error(prepared(vec![Answer::Granted(2), Answer::Length(1)]).next(why()));
    assert_eq!(e.to_string(), "VIDIOC_EXPBUF failed: EIO");
    let mut o = prepared(vec![Answer::Granted(2), Answer::Length(1), Answer::Done, Answer::Done]);
    o.next(Answer::Length(1));
    o.next(Answer::Done);
    let e = error(o.next(why()));
    assert!(matches!(e, CaptureError::Mmap { index: 1, .. }));
    assert_eq!(e.to_string(), "mmap of buffer 1 failed: EIO");
    let all = || {
        prepared(vec![
            Answer::Granted(2),
            Answer::Length(1),
            Answer::Done,
            Answer::Done,
            Answer::Length(1),
            Answer::Done,
            Answer::Done,
        ])
    };
    assert_eq!(error(all().next(why())).to_string(), "VIDIOC_QBUF failed: EIO");
    let mut o = all();
    o.next(Answer::Done);
    o.next(Answer::Done);
    assert_eq!(error(o.next(why())).to_string(), "VIDIOC_STREAMON failed: EIO");
}

#[test]
fn a_short_or_flagged_frame_is_damaged() {
    let raw = RawBuffer {
        index: 3,
        sequence: 9,
        bytes_used: 16,
        flags: 0,
        seconds: 5,
        microseconds: 250_000,
    };
    let f = DequeuedFrame::from_buffer(&layout(false), &raw);
    assert!(!f.error);
    assert_eq!(f.timestamp.nanos, 5_250_000_000);
    assert_eq!((f.index, f.sequence, f.bytes_used), (3, 9, 16));
    let short = RawBuffer { bytes_used: 15, ..raw };
    assert!(DequeuedFrame::from_buffer(&layout(false), &short).error);
    assert!(!DequeuedFrame::from_buffer(&layout(true), &short).error);
    let flagged = RawBuffer { flags: 0x40, ..raw };
    assert!(DequeuedFrame::from_buffer(&layout(true), &flagged).error);
}

#[test]
fn age_is_the_time_since_the_timestamp() {
    let f = frame(0, 40);
    assert_eq!(f.age(Duration::from_millis(55)), Duration::from_millis(15));
    assert_eq!(f.age(Duration::from_millis(10)).nanos, 0);
}

#[test]
fn the_newest_frame_wins() {
    let frames = [frame(0, 1), frame(2, 2), frame(1, 3)];
    let (latest, back) = take_latest(&frames);
    assert_eq!(latest, Some(frames[2]));
    assert_eq!(back, [0, 2]);
    let (latest, back) = take_latest(&[]);
    assert_eq!((latest, back.len()), (None, 0));
    let mut newest = Newest::new();
    assert_eq!(newest.offer(frames[0]), None);
    assert_eq!(newest.offer(frames[1]), Some(0));
    assert_eq!(newest.latest, Some(frames[1]));
}

#[test]
fn nothing_is_queued_once_the_stream_stops() {
    let mut capture = Capture::new(layout(false), vec![16, 16], false);
    let frames = [frame(0, 1), frame(1, 2)];
    assert_eq!(capture.requeue(1), Some(1));
    assert_eq!(capture.try_recv_latest(&frames), (Some(frames[1]), vec![0]));
    assert_eq!(capture.next_poll(), PollStep::Poll);
    capture.shut_down();
    assert_eq!(capture.requeue(1), None);
    assert_eq!(capture.try_recv_latest(&frames), (Some(frames[1]), vec![]));
    assert_eq!(capture.next_poll(), PollStep::Stop);
    assert_eq!(capture.dequeue_failed(DequeueFailure::WouldBlock), PollStep::Stop);
}

#[test]
fn frames_are_counted() {
    let mut capture = Capture::new(layout(false), vec![16, 16], false);
    assert_eq!(capture.frame_dequeued(frame(0, 7)), PollStep::Send(frame(0, 7)));
    // Two frames are missing before this one, and it is damaged.
    let damaged = DequeuedFrame { error: true, ..frame(1, 10) };
    assert_eq!(capture.frame_dequeued(damaged), PollStep::Send(damaged));
    assert_eq!(capture.dequeued_count(), 2);
    assert_eq!(capture.driver_dropped_count(), 2);
    assert_eq!(capture.damaged_count(), 1);
    // The counter wraps without a gap; a repeated number is no gap either.
    let mut capture = Capture::new(layout(false), vec![16, 16], false);
    capture.frame_dequeued(frame(0, u32::MAX));
    capture.frame_dequeued(frame(1, 0));
    capture.frame_dequeued(frame(1, 0));
    assert_eq!(capture.driver_dropped_count(), 0);
    capture.frame_dequeued(frame(1, 5));
    assert_eq!(capture.driver_dropped_count(), 4);
}

#[test]
fn the_cache_is_written_back_before_a_frame_is_sent() {
    let mut capture = Capture::new(layout(false), vec![8, 32], true);
    let f = frame(0, 1);
    assert_eq!(capture.frame_dequeued(f), PollStep::Flush { frame: f, len: 8 });
    assert_eq!(capture.dequeued_count(), 0);
    assert_eq!(capture.flushed(f, 70_000), PollStep::Send(f));
    assert_eq!(capture.dequeued_count(), 1);
    assert_eq!(capture.last_flush_time(), Duration::from_nanos(70_000));
    let f = frame(1, 2);
    assert_eq!(capture.frame_dequeued(f), PollStep::Flush { frame: f, len: 16 });
}

#[test]
fn the_poll_loop_decides() {
    let capture = Capture::new(layout(false), vec![16, 16], false);
    assert_eq!(capture.polled(-1, true, 0), PollStep::Poll);
    assert_eq!(capture.polled(-1, false, 0), PollStep::Stop);
    assert_eq!(capture.polled(0, false, 0), PollStep::Poll);
    assert_eq!(capture.polled(1, false, 1), PollStep::Dequeue);
    assert_eq!(capture.polled(1, false, libc::POLLERR | libc::POLLIN), PollStep::Stop);
    assert_eq!(capture.dequeue_failed(DequeueFailure::WouldBlock), PollStep::Poll);
    assert_eq!(capture.dequeue_failed(DequeueFailure::Interrupted), PollStep::Dequeue);
    assert_eq!(capture.dequeue_failed(DequeueFailure::Other), PollStep::Stop);
    assert_eq!(capture.sent(SendOutcome::Sent), PollStep::Dequeue);
    assert_eq!(capture.sent(SendOutcome::Full(frame(1, 4))), PollStep::Recycle(1));
    assert_eq!(capture.sent(SendOutcome::Disconnected), PollStep::Stop);
}

fn interval(numerator: u32, denominator: u32) -> FrameInterval {
    FrameInterval::Discrete(Fraction { numerator, denominator })
}

#[test]
fn modes_are_listed_in_order_with_rates_falling() {
    let step = Fraction { numerator: 1, denominator: 60 };
    let formats = vec![
        OfferedFormat {
            fourcc: yuyv(),
            description: "YUYV 4:2:2".to_string(),
            sizes: vec![
                OfferedSize {
                    width: 640,
                    height: 480,
                    intervals: vec![interval(1, 15), interval(1001, 30000), interval(1, 24)],
                },
                OfferedSize { width: 320, height: 240, intervals: vec![] },
            ],
        },
        OfferedFormat { fourcc: FourCC::new(b"H264"), description: String::new(), sizes: vec![] },
        OfferedFormat {
            fourcc: FourCC { code: FOURCC_MJPG },
            description: "Motion-JPEG".to_string(),
            sizes: vec![OfferedSize {
                width: 1280,
                height: 720,
                intervals: vec![
                    interval(0, 10),
                    FrameInterval::Stepwise { min: step, max: step, step },
                    interval(1, 0),
                ],
            }],
        },
    ];
    let modes = list_modes(&formats);
    assert_eq!(modes.len(), 3);
    let rates = |i: usize| -> Vec<f32> { modes[i].fps.iter().map(|r| f32::from_bits(r.bits)).collect() };
    assert_eq!((modes[0].width, modes[0].description.as_str()), (640, "YUYV 4:2:2"));
    assert_eq!(rates(0), [30000.0f32 / 1001.0, 24.0, 15.0]);
    assert_eq!((modes[1].width, rates(1).len()), (320, 0));
    assert_eq!((modes[2].width, modes[2].fourcc.code), (1280, FOURCC_MJPG));
    assert_eq!(rates(2), [60.0, 10.0, 0.0]);
}

#[test]
fn every_line_of_a_range_is_flushed_once() {
    let lines = |addr: usize, len: usize| {
        let mut it = flush_cpu_cache(addr, len);
        let mut out = vec![];
        while let Some(line) = it.next_line() {
            out.push(line);
        }
        out
    };
    assert_eq!(lines(128, 64), [128]);
    assert_eq!(lines(130, 64), [128, 192]);
    assert_eq!(lines(191, 1), [128]);
    assert_eq!(lines(191, 2), [128, 192]);
    assert!(lines(130, 0).is_empty());
    assert_eq!(lines(0, 256), [0, 64, 128, 192]);
}

#[test]
fn brightness_is_every_other_byte_of_a_row() {
    // Two rows of two pixels, each row padded by two bytes.
    let bytes = [10, 1, 20, 2, 0, 0, 30, 3, 40, 4, 0, 0];
    let raw = FrameLayout { width: 2, height: 2, stride: 6, size: 12, ..layout(false) };
    assert_eq!(luma(&raw, &bytes), Some(vec![10, 20, 30, 40]));
    let swapped = FrameLayout { fourcc: FourCC { code: FOURCC_UYVY }, ..raw };
    assert_eq!(luma(&swapped, &bytes), Some(vec![1, 2, 3, 4]));
}

#[test]
fn brightness_needs_a_whole_raw_frame() {
    let bytes = [0u8; 12];
    let raw = FrameLayout { width: 2, height: 2, stride: 6, size: 12, ..layout(false) };
    assert!(luma(&raw, &bytes).is_some());
    assert_eq!(luma(&raw, &bytes[..11]), None);
    assert_eq!(luma(&FrameLayout { width: 4, ..raw }, &bytes), None);
    let jpeg = FrameLayout { fourcc: FourCC { code: FOURCC_MJPG }, ..raw };
    assert_eq!(luma(&jpeg, &bytes), None);
    assert_eq!(luma(&FrameLayout { height: 0, ..raw }, &bytes), Some(vec![]));
}
