use ghostwriter::device::{screen_to_input, DeviceModel};

#[test]
fn pen_corners_second_generation() {
    let m = DeviceModel::Remarkable2;
    assert_eq!(m.pen_to_input((0, 0)), (20966, 0));
    assert_eq!(m.pen_to_input((768, 0)), (20966, 15725));
    assert_eq!(m.pen_to_input((0, 1024)), (0, 0));
    assert_eq!(m.pen_to_input((768, 1024)), (0, 15725));
}

#[test]
fn pen_corners_paper_pro() {
    let m = DeviceModel::RemarkablePaperPro;
    assert_eq!(m.pen_to_input((0, 0)), (0, 0));
    assert_eq!(m.pen_to_input((768, 0)), (11180, 0));
    assert_eq!(m.pen_to_input((0, 1024)), (0, 15340));
    assert_eq!(m.pen_to_input((768, 1024)), (11180, 15340));
}

#[test]
fn unknown_model_uses_second_generation_constants() {
    let u = DeviceModel::Unknown;
    let r = DeviceModel::Remarkable2;
    assert_eq!(u.pen_to_input((100, 200)), r.pen_to_input((100, 200)));
    assert_eq!(u.pen_max_x(), 15725);
    assert_eq!(u.pen_max_y(), 20966);
    assert_eq!(u.screen_width(), 1404);
    assert_eq!(u.screen_height(), 1872);
}

#[test]
fn transforms_are_deterministic_and_within_axes() {
    for m in [DeviceModel::Remarkable2, DeviceModel::RemarkablePaperPro, DeviceModel::Unknown] {
        for &(x, y) in &[(0, 0), (768, 0), (0, 1024), (768, 1024), (384, 512)] {
            let a = m.pen_to_input((x, y));
            assert_eq!(a, m.pen_to_input((x, y)));
            let hi = m.pen_max_x().max(m.pen_max_y());
            assert!(a.0 >= 0 && a.0 <= hi && a.1 >= 0 && a.1 <= hi);
            let t = screen_to_input(m, (x, y));
            assert_eq!(t, screen_to_input(m, (x, y)));
            assert!(t.0 >= 0 && t.0 <= m.touch_max_x());
            assert!(t.1 >= 0 && t.1 <= m.touch_max_y());
        }
    }
}

#[test]
fn pen_transform_rounds_toward_zero() {
    let m = DeviceModel::Remarkable2;
    // 10 * 15725 / 768 = 204.75
    assert_eq!(m.pen_to_input((10, 0)), (20966, 204));
    // -15725 / 768 = -20.47
    assert_eq!(m.pen_to_input((-1, 0)), (20966, -20));
}

#[test]
fn pen_transform_saturates() {
    let m = DeviceModel::RemarkablePaperPro;
    assert_eq!(m.pen_to_input((i32::MAX, i32::MIN)), (i32::MAX, i32::MIN));
}

#[test]
fn touch_transform_scales_and_inverts() {
    let m = DeviceModel::Remarkable2;
    assert_eq!(screen_to_input(m, (0, 0)), (0, 1872));
    assert_eq!(screen_to_input(m, (768, 1024)), (1404, 0));
    // 384 * 1404 / 768 = 702, 24 * 1872 / 1024 = 43.875
    assert_eq!(screen_to_input(m, (384, 1000)), (702, 43));
    let p = DeviceModel::RemarkablePaperPro;
    assert_eq!(screen_to_input(p, (768, 0)), (1620, 2160));
}

#[test]
fn model_from_hardware_revision() {
    assert_eq!(DeviceModel::from_hardware_revision(b"reMarkable2 1.0\n"), DeviceModel::Remarkable2);
    assert_eq!(DeviceModel::from_hardware_revision(b"ferrari 1.0\n"), DeviceModel::RemarkablePaperPro);
    assert_eq!(DeviceModel::from_hardware_revision(b"reMarkable 1.0\n"), DeviceModel::Unknown);
    assert_eq!(DeviceModel::from_hardware_revision(b""), DeviceModel::Unknown);
}

#[test]
fn model_names_and_device_paths() {
    assert_eq!(DeviceModel::Remarkable2.name(), "Remarkable2");
    assert_eq!(DeviceModel::RemarkablePaperPro.name(), "RemarkablePaperPro");
    assert_eq!(DeviceModel::Unknown.name(), "Unknown");
    assert_eq!(DeviceModel::Remarkable2.pen_input_device(), "/dev/input/event1");
    assert_eq!(DeviceModel::RemarkablePaperPro.pen_input_device(), "/dev/input/event2");
    assert_eq!(DeviceModel::Remarkable2.touch_input_device(), "/dev/input/event2");
    assert_eq!(DeviceModel::RemarkablePaperPro.touch_input_device(), "/dev/input/event3");
}
