use bevy_v4l2::capture::{CaptureMode, FOURCC_MJPG, FOURCC_NV12, FOURCC_UYVY, FOURCC_YUYV};
use bevy_v4l2::{
    choose_format, choose_mode, is_raw, is_supported, CameraFormat, Choice, FourCC, FrameFormat,
    RequestedFormat, Want, F32,
};

fn single(x: f32) -> F32 {
    F32 { bits: x.to_bits() }
}

fn code(code: u32) -> FourCC {
    FourCC { code }
}

fn mode(fourcc: u32, w: u32, h: u32, fps: &[f32]) -> CaptureMode {
    CaptureMode {
        fourcc: code(fourcc),
        description: String::new(),
        width: w,
        height: h,
        fps: fps.iter().map(|r| single(*r)).collect(),
    }
}

fn brio_usb2() -> Vec<CaptureMode> {
    vec![
        mode(FOURCC_YUYV, 848, 480, &[30.0, 24.0, 15.0]),
        mode(FOURCC_YUYV, 1280, 720, &[10.0, 8.0, 5.0]),
        mode(FOURCC_YUYV, 1920, 1080, &[5.0]),
        mode(FOURCC_MJPG, 1280, 720, &[60.0, 30.0, 24.0, 15.0]),
        mode(FOURCC_MJPG, 1920, 1080, &[30.0, 24.0, 15.0]),
    ]
}

fn brio_usb3() -> Vec<CaptureMode> {
    vec![
        mode(FOURCC_YUYV, 1280, 720, &[30.0, 24.0, 15.0]),
        mode(FOURCC_YUYV, 1920, 1080, &[30.0, 24.0, 15.0]),
        mode(FOURCC_MJPG, 1280, 720, &[90.0, 60.0, 30.0, 24.0]),
        mode(FOURCC_MJPG, 1920, 1080, &[60.0, 30.0, 24.0]),
        mode(FOURCC_MJPG, 3840, 2160, &[30.0, 24.0]),
    ]
}

fn fps(c: &Choice) -> f32 {
    f32::from_bits(c.fps.bits)
}

#[test]
fn hd60_on_usb2_needs_mjpeg() {
    let c = choose_mode(
        &brio_usb2(),
        Want {
            width: Some(1280),
            height: Some(720),
            fps: Some(single(60.0)),
            fourcc: None,
        },
    )
    .unwrap();
    assert_eq!((c.fourcc, fps(&c), c.raw), (code(FOURCC_MJPG), 60.0, false));
}

#[test]
fn raw_wins_when_it_reaches_the_rate() {
    let c = choose_mode(
        &brio_usb3(),
        Want {
            width: Some(1920),
            height: Some(1080),
            fps: Some(single(30.0)),
            fourcc: None,
        },
    )
    .unwrap();
    assert_eq!((c.fourcc, fps(&c), c.raw), (code(FOURCC_YUYV), 30.0, true));
}

#[test]
fn rate_is_the_highest_offered_not_above_the_request() {
    let c = choose_mode(
        &brio_usb3(),
        Want {
            width: Some(1280),
            height: Some(720),
            fps: Some(single(75.0)),
            fourcc: None,
        },
    )
    .unwrap();
    assert_eq!((c.fourcc, fps(&c)), (code(FOURCC_MJPG), 60.0));
}

#[test]
fn unreachable_rate_takes_the_fastest_available() {
    let c = choose_mode(
        &brio_usb2(),
        Want {
            width: Some(1920),
            height: Some(1080),
            fps: Some(single(60.0)),
            fourcc: None,
        },
    )
    .unwrap();
    assert_eq!((c.fourcc, fps(&c)), (code(FOURCC_MJPG), 30.0));
}

#[test]
fn no_size_picks_the_largest_smooth_mode_preferring_raw() {
    let c = choose_mode(&brio_usb3(), Want::default()).unwrap();
    // 4K MJPEG reaches 24 fps and is largest.
    assert_eq!((c.width, c.fourcc), (3840, code(FOURCC_MJPG)));
    let c = choose_mode(
        &brio_usb3(),
        Want {
            fps: Some(single(30.0)),
            fourcc: Some(code(FOURCC_YUYV)),
            ..Default::default()
        },
    )
    .unwrap();
    assert_eq!((c.width, c.fourcc, fps(&c)), (1920, code(FOURCC_YUYV), 30.0));
}

#[test]
fn a_slow_big_mode_loses_to_a_smaller_smooth_one() {
    let modes = vec![
        mode(FOURCC_YUYV, 1920, 1080, &[5.0]),
        mode(FOURCC_YUYV, 1280, 720, &[10.0]),
        mode(FOURCC_YUYV, 800, 448, &[30.0]),
    ];
    let c = choose_mode(&modes, Want::default()).unwrap();
    assert_eq!((c.width, fps(&c)), (800, 30.0));
}

#[test]
fn nothing_usable_chooses_nothing() {
    let modes = vec![CaptureMode {
        fourcc: FourCC::new(b"H264"),
        description: String::new(),
        width: 1920,
        height: 1080,
        fps: vec![single(30.0)],
    }];
    assert!(choose_mode(&modes, Want::default()).is_none());
}

#[test]
fn no_smooth_mode_takes_the_fastest_at_the_largest_size() {
    let modes = vec![
        mode(FOURCC_YUYV, 1920, 1080, &[5.0]),
        mode(FOURCC_YUYV, 1280, 720, &[10.0]),
    ];
    let c = choose_mode(&modes, Want::default()).unwrap();
    assert_eq!((c.width, c.height, fps(&c)), (1920, 1080, 5.0));
    let modes = vec![
        mode(FOURCC_MJPG, 1920, 1080, &[15.0, 7.5]),
        mode(FOURCC_YUYV, 1920, 1080, &[5.0]),
        mode(FOURCC_YUYV, 640, 480, &[20.0]),
    ];
    let c = choose_mode(&modes, Want::default()).unwrap();
    assert_eq!((c.fourcc, c.width, fps(&c)), (code(FOURCC_MJPG), 1920, 15.0));
}

#[test]
fn the_faster_mode_wins_by_however_little() {
    let modes = vec![
        mode(FOURCC_YUYV, 640, 480, &[10.0001]),
        mode(FOURCC_MJPG, 640, 480, &[10.0002]),
    ];
    let want = Want { width: Some(640), fps: Some(single(30.0)), ..Default::default() };
    assert_eq!(choose_mode(&modes, want).unwrap().fourcc, code(FOURCC_MJPG));
    assert_eq!(choose_mode(&modes, Want::default()).unwrap().fourcc, code(FOURCC_MJPG));
    let c = choose_format(&modes, RequestedFormat::HighestFrameRate).unwrap();
    assert_eq!((c.fourcc, fps(&c)), (code(FOURCC_MJPG), 10.0002));
    // Raw only breaks ties.
    let modes = vec![
        mode(FOURCC_YUYV, 640, 480, &[10.0]),
        mode(FOURCC_MJPG, 640, 480, &[10.0]),
    ];
    assert_eq!(choose_mode(&modes, want).unwrap().fourcc, code(FOURCC_YUYV));
}

#[test]
fn the_highest_frame_rate_is_asked_of_slow_modes_too() {
    let modes = vec![
        mode(FOURCC_YUYV, 640, 480, &[10.0]),
        mode(FOURCC_MJPG, 1280, 720, &[10.0, 5.0]),
        mode(FOURCC_YUYV, 1920, 1080, &[5.0]),
    ];
    let c = choose_format(&modes, RequestedFormat::HighestFrameRate).unwrap();
    assert_eq!((c.width, fps(&c)), (1280, 10.0));
    assert!(choose_format(&[], RequestedFormat::HighestFrameRate).is_none());
}

#[test]
fn the_last_of_equals_is_picked() {
    let modes = vec![
        mode(FOURCC_YUYV, 640, 480, &[30.0]),
        mode(FOURCC_UYVY, 640, 480, &[30.0]),
    ];
    let c = choose_mode(&modes, Want::default()).unwrap();
    assert_eq!(c.fourcc, code(FOURCC_UYVY));
}

#[test]
fn a_mode_without_rates_is_not_usable() {
    assert!(choose_mode(&[mode(FOURCC_YUYV, 640, 480, &[])], Want::default()).is_none());
}

#[test]
fn a_request_below_every_rate_takes_the_fastest() {
    let modes = vec![mode(FOURCC_YUYV, 640, 480, &[30.0, 15.0])];
    let want = Want {
        fps: Some(single(10.0)),
        ..Default::default()
    };
    assert_eq!(fps(&choose_mode(&modes, want).unwrap()), 30.0);
}

#[test]
fn no_rate_above_the_request_is_taken() {
    let modes = vec![mode(FOURCC_YUYV, 640, 480, &[30.005, 30.0])];
    let want = Want {
        fps: Some(single(30.0)),
        ..Default::default()
    };
    assert_eq!(fps(&choose_mode(&modes, want).unwrap()), 30.0);
    let modes = vec![mode(FOURCC_YUYV, 640, 480, &[30.0, 29.97])];
    let want = Want {
        fps: Some(single(29.995)),
        ..Default::default()
    };
    assert_eq!(fps(&choose_mode(&modes, want).unwrap()), 29.97);
}

#[test]
fn raw_and_supported_formats() {
    assert!(is_raw(code(FOURCC_YUYV)) && is_raw(code(FOURCC_UYVY)));
    assert!(!is_raw(code(FOURCC_MJPG)) && is_supported(code(FOURCC_MJPG)));
    assert!(!is_supported(code(FOURCC_NV12)));
}

#[test]
fn fourcc_codes_are_their_characters() {
    assert_eq!(FourCC::new(b"YUYV").code, FOURCC_YUYV);
    assert_eq!(FourCC::new(b"UYVY").code, FOURCC_UYVY);
    assert_eq!(FourCC::new(b"MJPG").code, FOURCC_MJPG);
    assert_eq!(FourCC::new(b"NV12").code, FOURCC_NV12);
    assert_eq!(code(FOURCC_MJPG).to_string(), "MJPG");
    assert_eq!(code(FOURCC_YUYV).repr(), *b"YUYV");
    assert_eq!(FourCC::new(&[0xff, 0xfe, 1, 2]).to_string(), "");
    assert_eq!(FourCC::new("é€".as_bytes().get(0..4).unwrap().try_into().unwrap()).to_string(), "");
    assert_eq!(FourCC::new("éab".as_bytes().try_into().unwrap()).to_string(), "éab");
}

#[test]
fn closest_is_a_wish_for_size_and_rate() {
    let request = RequestedFormat::Closest(CameraFormat::new(1280, 720, FrameFormat::Any, 60));
    let c = choose_format(&brio_usb2(), request).unwrap();
    assert_eq!((c.fourcc, fps(&c)), (code(FOURCC_MJPG), 60.0));
    let request = RequestedFormat::Closest(CameraFormat::new(1280, 720, FrameFormat::Yuyv, 60));
    let c = choose_format(&brio_usb2(), request).unwrap();
    assert_eq!((c.fourcc, fps(&c)), (code(FOURCC_YUYV), 10.0));
}

#[test]
fn exact_needs_the_very_rate() {
    let exact = |fps| RequestedFormat::Exact(CameraFormat::new(1280, 720, FrameFormat::Any, fps));
    let c = choose_format(&brio_usb3(), exact(30)).unwrap();
    assert_eq!((c.fourcc, fps(&c), c.raw), (code(FOURCC_YUYV), 30.0, true));
    let c = choose_format(&brio_usb3(), exact(90)).unwrap();
    assert_eq!((c.fourcc, c.raw), (code(FOURCC_MJPG), false));
    assert!(choose_format(&brio_usb3(), exact(75)).is_none());
}

#[test]
fn highest_resolution_and_frame_rate() {
    let c = choose_format(&brio_usb3(), RequestedFormat::HighestResolution).unwrap();
    assert_eq!(c.width, 3840);
    let c = choose_format(&brio_usb3(), RequestedFormat::HighestFrameRate).unwrap();
    assert_eq!((c.width, fps(&c)), (1280, 90.0));
    assert_eq!(RequestedFormat::default(), RequestedFormat::HighestResolution);
}

#[test]
fn formats_go_by_name() {
    assert_eq!(FrameFormat::from_name("yuyv"), FrameFormat::Yuyv);
    assert_eq!(FrameFormat::from_name("UYVY"), FrameFormat::Uyvy);
    assert_eq!(FrameFormat::from_name("MJpeg"), FrameFormat::Mjpeg);
    assert_eq!(FrameFormat::from_name("mjpg"), FrameFormat::Mjpeg);
    assert_eq!(FrameFormat::from_name("h264"), FrameFormat::Any);
    assert_eq!(FrameFormat::Any.fourcc(), None);
    assert_eq!(FrameFormat::Uyvy.fourcc(), Some(code(FOURCC_UYVY)));
}
