use bevy_v4l2::capture::{
    Capture, CaptureMode, DequeuedFrame, FrameLayout, FOURCC_MJPG, FOURCC_UYVY, FOURCC_YUYV,
};
use bevy_v4l2::dmabuf::TextureFormat;
use bevy_v4l2::mjpeg::Decoder;
use bevy_v4l2::plugin::{
    compare, decoded_row, import_desc, log_due, open_feed, open_request, plane_size, readback_size,
    FeedError, Figures, FrameWindow, ModeStep, Requeue, TransferMode, UploadStep, Webcam,
    WebcamFeed, WebcamGpu, WebcamStats, FLAG_FULL_RANGE, FLAG_MIRROR, FLAG_RGBA, FLAG_UYVY,
};
use bevy_v4l2::{CameraFormat, Duration, FourCC, FrameFormat, RequestedFormat, F32};

fn layout(fourcc: u32, width: u32) -> FrameLayout {
    FrameLayout {
        width,
        height: 720,
        fourcc: FourCC { code: fourcc },
        stride: width * 2,
        size: width * 2 * 720,
        full_range: false,
        compressed: fourcc == FOURCC_MJPG,
    }
}

fn frame(index: u32) -> DequeuedFrame {
    DequeuedFrame {
        index,
        sequence: 1,
        bytes_used: 0,
        timestamp: Duration::from_secs(0),
        error: false,
    }
}

fn feed() -> WebcamFeed {
    WebcamFeed {
        layout: layout(FOURCC_YUYV, 1280),
        decoding: false,
        force_upload: false,
        verify_frames: 0,
        no_barrier: false,
    }
}

fn f(x: f32) -> F32 {
    F32 { bits: x.to_bits() }
}

#[test]
fn a_webcam_is_built_from_its_parts() {
    let w = Webcam::default();
    assert_eq!(w.device, "/dev/video0");
    assert_eq!((w.buffers, w.flush_cpu_cache, w.mirror), (4, true, false));
    assert_eq!((w.force_upload, w.verify_frames, w.no_barrier), (false, 0, false));
    assert_eq!(w.plane_height, f(0.9));
    let w = Webcam::want(1280, 720, 60)
        .device("/dev/video2".to_string())
        .mirror(true)
        .plane_height(f(2.0));
    assert_eq!(
        w.format,
        RequestedFormat::Closest(CameraFormat::new(1280, 720, FrameFormat::Any, 60))
    );
    assert_eq!((w.device.as_str(), w.mirror, w.plane_height), ("/dev/video2", true, f(2.0)));
    assert_eq!(Webcam::auto().format, RequestedFormat::HighestResolution);
}

#[test]
fn a_camera_is_opened_in_the_chosen_mode() {
    let modes = [CaptureMode {
        fourcc: FourCC { code: FOURCC_YUYV },
        description: String::new(),
        width: 1280,
        height: 720,
        fps: vec![f(29.97), f(15.0)],
    }];
    let webcam = Webcam {
        buffers: 6,
        flush_cpu_cache: false,
        ..Webcam::auto().device("/dev/video1".to_string())
    };
    let (choice, config) = open_request(&webcam, &modes).unwrap();
    assert!(choice.raw);
    assert_eq!(config.device, "/dev/video1");
    assert_eq!((config.width, config.height, config.fourcc.code), (1280, 720, FOURCC_YUYV));
    assert_eq!((config.fps, config.buffer_count, config.flush_cpu_cache), (Some(30), 6, false));
    assert!(open_request(&webcam, &[]).is_none());
}

#[test]
fn raw_frames_show_at_half_width() {
    let plan = open_feed(&Webcam::auto(), &layout(FOURCC_YUYV, 1280)).unwrap();
    assert!(!plan.decode && !plan.smooth);
    assert_eq!((plan.texture_width, plan.texture_height), (640, 720));
    assert_eq!(plan.texture_format, TextureFormat::Rgba8Unorm);
    assert_eq!((plan.params.width, plan.params.height, plan.params.flags), (1280, 720, 0));
    let mut uyvy = layout(FOURCC_UYVY, 1280);
    uyvy.full_range = true;
    let plan = open_feed(&Webcam::auto().mirror(true), &uyvy).unwrap();
    assert_eq!(plan.params.flags, FLAG_UYVY | FLAG_MIRROR | FLAG_FULL_RANGE);
}

#[test]
fn compressed_frames_show_at_full_width() {
    let plan = open_feed(&Webcam::auto(), &layout(FOURCC_MJPG, 1281)).unwrap();
    assert!(plan.decode && plan.smooth);
    assert_eq!(plan.texture_width, 1281);
    assert_eq!(plan.texture_format, TextureFormat::Rgba8UnormSrgb);
    assert_eq!(plan.params.flags, FLAG_RGBA);
}

#[test]
fn what_cannot_be_shown_is_refused() {
    let e = open_feed(&Webcam::auto(), &layout(FOURCC_YUYV, 1281)).unwrap_err();
    assert_eq!(
        e.to_string(),
        "frame width 1281 is odd; packed 4:2:2 needs an even width"
    );
    let nv12 = FrameLayout { fourcc: FourCC::new(b"NV12"), ..layout(FOURCC_YUYV, 1280) };
    let e = open_feed(&Webcam::auto(), &nv12).unwrap_err();
    assert_eq!(
        e.to_string(),
        "unsupported pixel format NV12; only YUYV, UYVY and MJPG are handled"
    );
    let text = |s: &str| s.to_string();
    let e = FeedError::Enumerate { device: text("/dev/video9"), source: text("gone") };
    assert_eq!(e.to_string(), "cannot enumerate /dev/video9: gone");
    let e = FeedError::NothingMatching { device: text("/dev/video9"), request: text("Exact") };
    assert_eq!(e.to_string(), "/dev/video9 offers nothing matching Exact");
    assert_eq!(FeedError::Unavailable(text("busy")).to_string(), "webcam unavailable: busy");
}

#[test]
fn the_plane_follows_the_aspect_ratio() {
    let (width, height) = plane_size(&Webcam::auto(), &layout(FOURCC_YUYV, 1280));
    assert_eq!(height, f(0.9));
    assert_eq!(width, f(0.9f32 * 1280.0 / 720.0));
}

#[test]
fn a_buffer_is_imported_as_pairs_of_pixels() {
    let desc = import_desc(&layout(FOURCC_YUYV, 1280), 0);
    assert_eq!((desc.width, desc.height, desc.plane.stride), (640, 720, 2560));
    assert_eq!(desc.format, TextureFormat::Rgba8Unorm);
    let usage = wgpu::TextureUsages::COPY_SRC | wgpu::TextureUsages::TEXTURE_BINDING;
    assert_eq!((desc.usage, desc.modifier), (usage.bits(), 0));
}

#[test]
fn the_way_of_frames() {
    let use_mode = ModeStep::Use;
    let decoding = WebcamFeed { decoding: true, ..feed() };
    let forced = WebcamFeed { force_upload: true, ..feed() };
    assert_eq!(WebcamGpu::decide_mode(&decoding, true), use_mode(TransferMode::MjpegDecode));
    assert_eq!(WebcamGpu::decide_mode(&forced, true), use_mode(TransferMode::CpuUpload));
    assert_eq!(WebcamGpu::decide_mode(&feed(), false), use_mode(TransferMode::CpuUpload));
    assert_eq!(WebcamGpu::decide_mode(&feed(), true), ModeStep::ImportAll);
    let (mut gpu, mut stats) = (WebcamGpu::new(), WebcamStats::default());
    assert_eq!((gpu.mode, stats.mode), (TransferMode::Unknown, TransferMode::default()));
    gpu.imported(&mut stats, Ok(4));
    assert_eq!((gpu.mode, gpu.imported), (TransferMode::DmabufZeroCopy, 4));
    assert_eq!((stats.mode, stats.error.is_none()), (TransferMode::DmabufZeroCopy, true));
    gpu.imported(&mut stats, Err("no memory".to_string()));
    assert_eq!(gpu.mode, TransferMode::CpuUpload);
    assert_eq!(stats.error.as_deref(), Some("no memory"));
    gpu.settle(&mut stats, TransferMode::MjpegDecode);
    assert_eq!(stats.mode.label(), "MJPEG CPU decode");
    assert_eq!(TransferMode::DmabufZeroCopy.label(), "DMA-BUF zero-copy");
    assert_eq!(TransferMode::CpuUpload.label(), "CPU upload");
    assert_eq!(TransferMode::Unknown.label(), "initialising");
}

#[test]
fn a_frame_is_copied_or_written() {
    let (mut gpu, mut stats) = (WebcamGpu::new(), WebcamStats::default());
    gpu.settle(&mut stats, TransferMode::CpuUpload);
    assert_eq!(
        gpu.upload_one(&feed(), &frame(1)),
        UploadStep::Write {
            index: 1,
            len: 2560 * 720,
            bytes_per_row: 2560,
            width: 640,
            height: 720,
            requeue: Requeue::AtOnce,
        }
    );
    gpu.imported(&mut stats, Ok(2));
    assert_eq!(gpu.upload_one(&feed(), &frame(2)), UploadStep::Recycle(2));
    let copy = |barriers, verify, requeue| UploadStep::Copy {
        index: 1,
        width: 640,
        height: 720,
        barriers,
        verify,
        requeue,
    };
    assert_eq!(gpu.upload_one(&feed(), &frame(1)), copy(true, false, Requeue::WhenDone));
    let checked = WebcamFeed { verify_frames: 1, no_barrier: true, ..feed() };
    assert_eq!(gpu.upload_one(&checked, &frame(1)), copy(false, true, Requeue::AtOnce));
    assert_eq!(gpu.upload_one(&checked, &frame(1)), copy(false, false, Requeue::WhenDone));
    assert_eq!(gpu.verified, 1);
    assert_eq!(decoded_row(1280), 5120);
}

#[test]
fn the_rate_is_counted_once_a_second() {
    let (mut window, mut stats) = (FrameWindow::new(), WebcamStats::default());
    for i in 0..30u64 {
        window.count_frame(&mut stats, Duration::from_millis(i * 33));
    }
    assert_eq!((stats.frames, stats.fps), (30, f(0.0)));
    window.count_frame(&mut stats, Duration::from_millis(1003));
    assert_eq!(stats.frames, 31);
    assert_eq!(stats.fps, f(31.0 / std::time::Duration::from_millis(1003).as_secs_f32()));
    assert_eq!((window.start, window.frames), (Some(Duration::from_millis(1003)), 0));
    // A clock that steps back does not end the window.
    window.count_frame(&mut stats, Duration::from_millis(1));
    assert_eq!((window.start, window.frames), (Some(Duration::from_millis(1003)), 1));
}

#[test]
fn the_statistics_follow_the_frames() {
    let mut capture = Capture::new(layout(FOURCC_YUYV, 1280), vec![1, 1], false);
    capture.dequeued = 10;
    capture.dropped_by_driver = 3;
    capture.damaged = 2;
    capture.flush_nanos = 70_000;
    let (mut gpu, mut stats) = (WebcamGpu::new(), WebcamStats::default());
    let latency = Duration::from_millis(12);
    // Four frames wait: the newest is shown, the three older ones are skipped.
    let waiting = [frame(0), frame(1), frame(0), frame(1)];
    let (newest, back) = capture.try_recv_latest(&waiting);
    assert_eq!((newest.unwrap().index, back.len()), (1, 3));
    gpu.frame_shown(&mut stats, latency, &capture, back.len(), Duration::from_secs(1));
    assert_eq!((stats.frames, stats.skipped), (1, 3));
    assert_eq!((stats.driver_dropped, stats.damaged), (3, 2));
    assert_eq!((stats.last_latency, stats.flush_time), (latency, Duration::from_nanos(70_000)));
    // A frame that waits alone skips none, however many were dequeued before it.
    let (_, back) = capture.try_recv_latest(&[frame(1)]);
    gpu.frame_shown(&mut stats, latency, &capture, back.len(), Duration::from_secs(1));
    assert_eq!((stats.frames, stats.skipped), (2, 3));
    let mut decoder = Decoder::start(1, 1);
    decoder.skipped = 9;
    decoder.failed = 4;
    let decode = Duration::from_millis(2);
    gpu.decoded_shown(&mut stats, latency, decode, &decoder, &capture, Duration::from_secs(1));
    assert_eq!((stats.frames, stats.skipped, stats.decode_failed), (3, 9, 4));
    assert_eq!(stats.decode_time, decode);
}

#[test]
fn a_stream_is_described_in_a_line() {
    let figures = Figures {
        fps: "29.9".to_string(),
        latency_ms: "35.2".to_string(),
        decode_ms: "2.2".to_string(),
        flush_us: "70".to_string(),
    };
    let mut stats = WebcamStats::default();
    stats.mode = TransferMode::DmabufZeroCopy;
    stats.driver_dropped = 1;
    stats.skipped = 12;
    let l = layout(FOURCC_YUYV, 1280);
    assert_eq!(
        stats.describe(&l, &figures),
        "1280x720 YUYV @ 29.9 fps  |  path: DMA-BUF zero-copy  |  capture->GPU 35.2 ms  |  driver drops 1  damaged 0  skipped 12  |  cache flush 70 us"
    );
    stats.mode = TransferMode::MjpegDecode;
    stats.decode_failed = 5;
    stats.error = Some("no".to_string());
    assert_eq!(
        stats.describe(&l, &figures),
        "1280x720 YUYV @ 29.9 fps  |  path: MJPEG CPU decode  |  capture->GPU 35.2 ms  |  driver drops 1  damaged 0  skipped 12  |  decode 2.2 ms  failed 5  |  import error: no"
    );
}

#[test]
fn statistics_are_logged_every_five_seconds() {
    assert_eq!(log_due(f(0.0), f(0.0)), Some(f(5.0)));
    assert_eq!(log_due(f(4.9), f(5.0)), None);
    assert_eq!(log_due(f(5.25), f(5.0)), Some(f(10.25)));
}

#[test]
fn stale_lines_are_found() {
    let cpu = vec![1u8; 512 * 3];
    let mut gpu = cpu.clone();
    let same = compare(&gpu, &cpu, 512);
    assert!(same.matches() && same.bad_rows.is_empty());
    assert_eq!(same.total_lines, 24);
    gpu[5] = 0;
    gpu[70] = 0;
    gpu[71] = 0;
    gpu[512 * 2] = 0;
    let found = compare(&gpu, &cpu, 512);
    assert!(!found.matches());
    assert_eq!(found.bad_lines, 3);
    assert_eq!(found.bad_rows, [0, 2]);
    let none = vec![0u8; 512 * 12];
    let all = compare(&none, &vec![1u8; 512 * 12], 512);
    assert_eq!((all.bad_lines, all.bad_rows.len()), (96, 12));
    assert_eq!(all.first_rows(), [0, 1, 2, 3, 4, 5, 6, 7]);
    assert_eq!(found.first_rows(), [0, 2]);
    assert!(compare(&[], &[], 0).matches());
}

#[test]
fn only_aligned_rows_are_read_back() {
    assert_eq!(wgpu::COPY_BYTES_PER_ROW_ALIGNMENT, 256);
    assert_eq!(readback_size(2560, 720), Some(2560 * 720));
    assert_eq!(readback_size(1696, 480), None);
}
