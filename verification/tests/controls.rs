use bevy_v4l2::controls::{
    cid, cstr, devices, find_setting, get_setting, probe, set_focus, set_setting, settings,
    video_nodes, ControlDescription, ControlError, ControlKind, ControlValue, ControlWrite,
    MenuItem, Node, NodeCapabilities, Scalar, Setting,
};

fn setting(id: u32, name: &str, min: i64, max: i64, step: i64) -> Setting {
    Setting {
        id,
        name: name.to_string(),
        min,
        max,
        step,
        default: min,
        boolean: false,
        menu: vec![],
        inactive: false,
    }
}

fn description(id: u32, kind: ControlKind, step: u64, flags: u32) -> ControlDescription {
    ControlDescription {
        id,
        kind,
        name: format!("control {id}"),
        minimum: -5,
        maximum: 5,
        step,
        default: 1,
        flags,
        items: None,
    }
}

fn caps(card: &[u8], device_caps: u32) -> NodeCapabilities {
    NodeCapabilities {
        card: card.to_vec(),
        driver: b"uvcvideo\0\0".to_vec(),
        bus_info: b"usb-1".to_vec(),
        device_caps,
    }
}

#[test]
fn a_text_ends_at_its_first_zero() {
    assert_eq!(cstr(b"BRIO\0junk"), "BRIO");
    assert_eq!(cstr(b"BRIO"), "BRIO");
    assert_eq!(cstr(b"\0BRIO"), "");
    assert_eq!(cstr(b""), "");
    assert_eq!(cstr("Caméra".as_bytes()), "Caméra");
    assert_eq!(cstr(b"a\xffb\0"), "a\u{fffd}b");
}

#[test]
fn only_capture_nodes_are_devices() {
    let info = probe("/dev/video0", &caps(b"BRIO 4K\0", 0x0420_0001)).unwrap();
    assert_eq!(info.path, "/dev/video0");
    assert_eq!((info.name.as_str(), info.driver.as_str()), ("BRIO 4K", "uvcvideo"));
    assert_eq!(info.bus, "usb-1");
    assert!(probe("/dev/video1", &caps(b"BRIO 4K\0", 0x04a0_0000)).is_none());
    let node = |path: &str, answer| Node { path: path.to_string(), answer };
    let found = devices(&vec![
        node("/dev/video0", Some(caps(b"a", 1))),
        node("/dev/video1", Some(caps(b"a", 2))),
        node("/dev/video2", None),
        node("/dev/video3", Some(caps(b"b", 3))),
    ]);
    let names: Vec<&str> = found.iter().map(|d| d.path.as_str()).collect();
    assert_eq!(names, ["/dev/video0", "/dev/video3"]);
}

#[test]
fn nodes_come_by_number() {
    let names: Vec<String> = [
        "video10", "videoX", "tty0", "video2", "video", "videovideo1", "video+3", "video2x",
        "xvideo0", "video4294967295", "video0",
    ]
    .iter()
    .map(|s| s.to_string())
    .collect();
    assert_eq!(
        video_nodes(&names),
        [
            "video0", "videovideo1", "video2", "video+3", "video10", "videoX", "video", "video2x",
            "video4294967295",
        ]
    );
}

#[test]
fn controls_that_hold_a_number_are_settings() {
    let mut menu = description(3, ControlKind::Menu, 0, 0x0010);
    menu.items = Some(vec![
        (0, MenuItem::Name("Disabled".to_string())),
        (2, MenuItem::Value(-60)),
    ]);
    let list = settings(&vec![
        description(1, ControlKind::Integer, 2, 0),
        description(2, ControlKind::Button, 1, 0),
        menu,
        description(4, ControlKind::Boolean, u64::MAX, 0x0004),
        description(5, ControlKind::Text, 1, 0),
        description(6, ControlKind::IntegerMenu, 1 << 63, 0x0020),
        description(7, ControlKind::CtrlClass, 1, 0),
    ]);
    let ids: Vec<u32> = list.iter().map(|s| s.id).collect();
    assert_eq!(ids, [1, 3, 4, 6]);
    assert_eq!((list[0].step, list[0].min, list[0].max, list[0].default), (2, -5, 5, 1));
    assert_eq!(list[0].name, "control 1");
    assert_eq!(list[1].menu, [(0, "Disabled".to_string()), (2, "-60".to_string())]);
    // A step of zero, or one that is negative as a signed number, counts as one.
    assert_eq!((list[1].step, list[2].step, list[3].step), (1, 1, 1));
    let inactive: Vec<bool> = list.iter().map(|s| s.inactive).collect();
    assert_eq!(inactive, [false, true, true, false]);
    let boolean: Vec<bool> = list.iter().map(|s| s.boolean).collect();
    assert_eq!(boolean, [false, false, true, false]);
    assert!(list[0].menu.is_empty());
}

#[test]
fn the_lowest_number_has_its_sign() {
    let mut menu = description(3, ControlKind::Menu, 0, 0);
    menu.items = Some(vec![(0, MenuItem::Value(i64::MIN)), (1, MenuItem::Value(0))]);
    let list = settings(&vec![menu]);
    assert_eq!(list[0].menu[0].1, i64::MIN.to_string());
    assert_eq!(list[0].menu[1].1, "0");
}

#[test]
fn only_single_numbers_are_read() {
    assert!(matches!(get_setting(1, ControlValue::Integer(-7)), Ok(-7)));
    assert!(matches!(get_setting(1, ControlValue::Boolean(true)), Ok(1)));
    assert!(matches!(get_setting(1, ControlValue::Boolean(false)), Ok(0)));
    let e = get_setting(0x009a_090a, ControlValue::Other("None".to_string())).unwrap_err();
    assert!(matches!(e, ControlError::NotScalar { id: 0x009a_090a, .. }));
    assert_eq!(e.to_string(), format!("control {:#x} has a non-scalar value None", 0x009a_090a));
    let e = get_setting(0, ControlValue::Other("x".to_string())).unwrap_err();
    assert_eq!(e.to_string(), "control 0x0 has a non-scalar value x");
}

#[test]
fn a_value_is_clamped_and_snapped() {
    let s = setting(9, "zoom", 100, 500, 30);
    let written = |v| set_setting(&s, v).1;
    assert_eq!(written(99), 100);
    assert_eq!(written(129), 100);
    assert_eq!(written(130), 130);
    assert_eq!(written(10_000), 490);
    assert_eq!(written(written(477)), written(477));
    assert_eq!(
        set_setting(&s, 200).0,
        ControlWrite { id: 9, value: Scalar::Integer(190) }
    );
    let s = setting(9, "pan", -36000, 36000, 3600);
    assert_eq!(set_setting(&s, -1).1, -3600);
    let s = setting(9, "brightness", 0, 255, 1);
    assert_eq!(set_setting(&s, 77).1, 77);
    let s = setting(9, "wide", i64::MIN, i64::MAX, 1);
    assert_eq!(set_setting(&s, i64::MAX).1, i64::MAX);
    let mut s = setting(9, "auto", 0, 1, 1);
    s.boolean = true;
    assert_eq!(set_setting(&s, 5).0.value, Scalar::Boolean(true));
    assert_eq!(set_setting(&s, -5).0.value, Scalar::Boolean(false));
}

#[test]
fn autofocus_is_switched_off_first() {
    let focus = setting(cid::FOCUS_ABSOLUTE, "Focus, Absolute", 0, 255, 5);
    let mut auto = setting(cid::FOCUS_AUTO, "Focus, Automatic Continuous", 0, 1, 1);
    auto.boolean = true;
    let plan = set_focus(&[focus.clone(), auto.clone()], 33);
    assert_eq!(
        plan.writes,
        [
            ControlWrite { id: cid::FOCUS_AUTO, value: Scalar::Boolean(false) },
            ControlWrite { id: cid::FOCUS_ABSOLUTE, value: Scalar::Integer(30) },
        ]
    );
    assert!(matches!(plan.result, Ok(30)));
    // Only the first control of an id is written, whatever the range of another one.
    let odd = setting(cid::FOCUS_ABSOLUTE, "Focus", 1, 0, 1);
    let plan = set_focus(&[focus.clone(), odd], 33);
    assert!(matches!(plan.result, Ok(30)));
    let plan = set_focus(&[focus], 33);
    assert_eq!(plan.writes.len(), 1);
    // Without a focus control the autofocus is switched off all the same.
    let plan = set_focus(&[auto], 33);
    assert_eq!(plan.writes[0].id, cid::FOCUS_AUTO);
    let e = plan.result.unwrap_err();
    assert!(matches!(e, ControlError::NoFocus));
    assert_eq!(e.to_string(), "camera has no focus control");
}

#[test]
fn a_control_is_found_by_id_name_or_prefix() {
    let all = [
        setting(cid::FOCUS_AUTO, "Focus, Automatic", 0, 1, 1),
        setting(cid::FOCUS_ABSOLUTE, "Focus", 0, 1, 1),
        setting(cid::ZOOM_ABSOLUTE, "Zoom, Absolute", 0, 1, 1),
    ];
    let id = |q: &str| find_setting(&all, q).map(|s| s.id);
    assert_eq!(id("0x009a090a"), Some(cid::FOCUS_ABSOLUTE));
    assert_eq!(id("0x9A090D"), Some(cid::ZOOM_ABSOLUTE));
    assert_eq!(id("0x+9a090d"), Some(cid::ZOOM_ABSOLUTE));
    // The exact name wins over an earlier prefix.
    assert_eq!(id("focus"), Some(cid::FOCUS_ABSOLUTE));
    assert_eq!(id("FOCUS, a"), Some(cid::FOCUS_AUTO));
    assert_eq!(id("zoom"), Some(cid::ZOOM_ABSOLUTE));
    assert_eq!(id(""), Some(cid::FOCUS_AUTO));
    assert_eq!(id("0x123"), None);
    assert_eq!(id("9a090d"), None);
    assert_eq!(id("gain"), None);
    assert_eq!(id("0x1009a090a"), None);
}
