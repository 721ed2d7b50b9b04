use ghostwriter::capture::{
    apply_curves, decode, framebuffer_offset, select_display_process, CaptureError, RawFrame, Screenshot,
};
use ghostwriter::device::DeviceModel;

#[test]
fn tone_curve_exact_values() {
    assert_eq!(apply_curves(0), 0);
    assert_eq!(apply_curves(11), 0);
    assert_eq!(apply_curves(12), 35);
    assert_eq!(apply_curves(13), 101);
    assert_eq!(apply_curves(14), 168);
    assert_eq!(apply_curves(15), 235);
    assert_eq!(apply_curves(16), 255);
    assert_eq!(apply_curves(255), 255);
}

#[test]
fn tone_curve_is_monotone() {
    for v in 0..255u8 {
        assert!(apply_curves(v) <= apply_curves(v + 1));
    }
}

#[test]
fn decode_rejects_wrong_length() {
    let short = RawFrame::new(vec![0u8; 2 * 2 * 2 - 1]);
    assert_eq!(decode(&short, 2, 2).err(), Some(CaptureError::DecodeFailure));
    let long = RawFrame::new(vec![0u8; 2 * 2 * 2 + 2]);
    assert_eq!(decode(&long, 2, 2).err(), Some(CaptureError::DecodeFailure));
    let overflow = RawFrame::new(vec![0u8; 4]);
    assert_eq!(decode(&overflow, usize::MAX, 2).err(), Some(CaptureError::DecodeFailure));
}

#[test]
fn decode_all_zero_frame_is_black() {
    let raw = RawFrame::new(vec![0u8; 1404 * 1872 * 2]);
    let img = decode(&raw, 1404, 1872).unwrap();
    assert_eq!(img.width(), 1404);
    assert_eq!(img.height(), 1872);
    assert_eq!(img.pixels().len(), 1404 * 1872);
    assert!(img.pixels().iter().all(|&p| p == 0));
}

#[test]
fn decode_rotates_and_keeps_high_bytes() {
    // Samples 0..4, each (low, high); the low byte carries nothing.
    let raw = RawFrame::new(vec![200, 255, 200, 0, 200, 12, 200, 14]);
    let img = decode(&raw, 2, 2).unwrap();
    // (0,0) <- sample 3, (1,0) <- sample 1, (0,1) <- sample 2, (1,1) <- sample 0
    assert_eq!(img.pixels(), &vec![168, 0, 35, 255]);
}

#[test]
fn decode_of_a_wide_frame() {
    // width 3, height 1: destination x reads sample (width - 1 - x).
    let raw = RawFrame::new(vec![0, 16, 0, 13, 0, 0]);
    let img = decode(&raw, 3, 1).unwrap();
    assert_eq!(img.pixels(), &vec![0, 101, 255]);
}

#[test]
fn short_read_is_reported() {
    assert_eq!(RawFrame::from_read(vec![1, 2, 3], 4).err(), Some(CaptureError::ShortRead));
    let frame = RawFrame::from_read(vec![1, 2, 3, 4, 5], 4).unwrap();
    assert_eq!(frame.len(), 4);
    let exact = RawFrame::from_read(vec![0, 9, 0, 9], 4).unwrap();
    assert_eq!(decode(&exact, 2, 1).unwrap().pixels(), &vec![0, 0]);
}

const MAPS: &str = "00010000-00020000 r-xp 00000000 b3:02 123 /usr/bin/xochitl\n\
7f0000000-7f1000000 rw-s 00000000 00:06 456 /dev/fb0\n\
7f1000000-7f2000000 rw-p 00000000 00:00 0 \n";

#[test]
fn framebuffer_offset_from_maps() {
    assert_eq!(framebuffer_offset(MAPS.as_bytes(), b"/dev/fb0"), Ok(0x7f0000000 + 7));
}

#[test]
fn framebuffer_offset_takes_first_mapping() {
    let maps = "aB-ff rw-s 0 0 1 /dev/fb0\n10-20 rw-s 0 0 1 /dev/fb0\n";
    assert_eq!(framebuffer_offset(maps.as_bytes(), b"/dev/fb0"), Ok(0xab + 7));
}

#[test]
fn framebuffer_offset_missing_mapping() {
    assert_eq!(framebuffer_offset(MAPS.as_bytes(), b"/dev/fb1"), Err(CaptureError::ProcessNotFound));
    assert_eq!(framebuffer_offset(b"", b"/dev/fb0"), Err(CaptureError::ProcessNotFound));
    // a path that only ends like the device does not name it
    let maps = "10-20 rw-s 0 0 1 /x/dev/fb0\n";
    assert_eq!(framebuffer_offset(maps.as_bytes(), b"/dev/fb0"), Err(CaptureError::ProcessNotFound));
}

#[test]
fn framebuffer_offset_bad_start_address() {
    let maps = "zz-20 rw-s 0 0 1 /dev/fb0\n";
    assert_eq!(framebuffer_offset(maps.as_bytes(), b"/dev/fb0"), Err(CaptureError::ProcessNotFound));
    let maps = "ffffffffffffffff-0 rw-s 0 0 1 /dev/fb0";
    assert_eq!(framebuffer_offset(maps.as_bytes(), b"/dev/fb0"), Err(CaptureError::ProcessNotFound));
    let maps = "fffffffffffffff0-0 rw-s 0 0 1 /dev/fb0";
    assert_eq!(framebuffer_offset(maps.as_bytes(), b"/dev/fb0"), Ok(0xfffffffffffffff7));
}

#[test]
fn display_process_is_first_with_framebuffer() {
    let candidates = vec![
        (10u32, b"10-20 r-xp 0 0 1 /usr/bin/other\n".to_vec()),
        (20u32, MAPS.as_bytes().to_vec()),
        (30u32, MAPS.as_bytes().to_vec()),
    ];
    assert_eq!(select_display_process(&candidates, b"/dev/fb0"), Ok(20));
    assert_eq!(select_display_process(&candidates[..1].to_vec(), b"/dev/fb0"), Err(CaptureError::ProcessNotFound));
    assert_eq!(select_display_process(&Vec::new(), b"/dev/fb0"), Err(CaptureError::ProcessNotFound));
}

#[test]
fn screenshot_of_a_zero_frame_is_a_png() {
    let raw = RawFrame::new(vec![0u8; 1404 * 1872 * 2]);
    let shot = Screenshot::from_frame(&raw, DeviceModel::Remarkable2).unwrap();
    assert_eq!(&shot.data()[..8], &[137, 80, 78, 71, 13, 10, 26, 10]);
    let text = shot.base64();
    assert!(text.starts_with("iVBORw0KGgo"));
    assert_eq!(text.len(), 4 * ((shot.data().len() + 2) / 3));
}

#[test]
fn screenshot_of_a_wrong_frame_fails() {
    let raw = RawFrame::new(vec![0u8; 10]);
    assert_eq!(Screenshot::from_frame(&raw, DeviceModel::Remarkable2).err(), Some(CaptureError::DecodeFailure));
}

#[test]
fn base64_of_given_bytes() {
    let shot = Screenshot::from_png(vec![104, 105]);
    assert_eq!(shot.base64(), "aGk=");
}
