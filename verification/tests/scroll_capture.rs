use gpui_agent::scroll_capture::to_rgba;
use gpui_agent::protocol::ScreenshotMode;
use gpui_agent::scroll_capture::{
    crop_rgba, is_scroll_unavailable, scroll_unavailable, stitch_tiles_vertically, RgbaImage,
    ScreenshotSpec, DEFAULT_MAX_HEIGHT_PX,
};

fn solid(width: u32, height: u32, rgba: [u8; 4]) -> RgbaImage {
    let mut pixels = Vec::with_capacity(width as usize * height as usize * 4);
    for _ in 0..width * height {
        pixels.extend_from_slice(&rgba);
    }
    RgbaImage::new(width, height, pixels).unwrap()
}

#[test]
fn scrolled_requires_target() {
    let spec = ScreenshotSpec {
        path: Some("a.png"),
        mode: ScreenshotMode::Scrolled,
        target: None,
        max_height_px: None,
    };
    let err = spec.validate_request().unwrap_err();
    assert!(err.contains("requires target"), "{err}");
    let spec = ScreenshotSpec {
        path: Some("a.png"),
        mode: ScreenshotMode::Viewport,
        target: None,
        max_height_px: None,
    };
    spec.validate_request().unwrap();
}

#[test]
fn max_height_cap_is_hard() {
    let spec = ScreenshotSpec {
        path: Some("a.png"),
        mode: ScreenshotMode::Scrolled,
        target: Some("s"),
        max_height_px: Some(DEFAULT_MAX_HEIGHT_PX + 1),
    };
    let err = spec.validate_request().unwrap_err();
    assert!(err.contains("exceeds"), "{err}");
    let spec = ScreenshotSpec {
        path: Some("a.png"),
        mode: ScreenshotMode::Scrolled,
        target: Some("s"),
        max_height_px: Some(0),
    };
    assert!(spec.validate_request().unwrap_err().contains("> 0"));
}

#[test]
fn exceeding_cap_message_names_the_value() {
    let spec = ScreenshotSpec {
        path: Some("a.png"),
        mode: ScreenshotMode::Viewport,
        target: None,
        max_height_px: Some(20000),
    };
    assert_eq!(spec.validate_request().unwrap_err(), "max_height_px exceeds 16384 (got 20000)");
    assert_eq!(spec.height_cap(), 20000);
    let spec = ScreenshotSpec { max_height_px: None, ..spec };
    assert_eq!(spec.height_cap(), DEFAULT_MAX_HEIGHT_PX);
}

#[test]
fn scrolled_target_is_trimmed() {
    let spec = ScreenshotSpec {
        path: None,
        mode: ScreenshotMode::Scrolled,
        target: Some("  todo-list-scroll "),
        max_height_px: None,
    };
    assert_eq!(spec.scrolled_target().unwrap(), "todo-list-scroll");
    let blank = ScreenshotSpec { target: Some("   "), ..spec };
    assert!(blank.validate_request().is_err());
}

#[test]
fn stitch_concatenates_without_inventing() {
    let top = solid(2, 1, [10, 20, 30, 255]);
    let bot = solid(2, 2, [40, 50, 60, 255]);
    let out = stitch_tiles_vertically(&[top, bot]).unwrap();
    assert_eq!(out.width, 2);
    assert_eq!(out.height, 3);
    assert_eq!(&out.pixels[0..4], [10, 20, 30, 255]);
    assert_eq!(&out.pixels[8..12], [40, 50, 60, 255]);
}

#[test]
fn stitch_refuses_mismatched_widths_and_empty_input() {
    assert!(stitch_tiles_vertically(&[]).is_err());
    let a = solid(2, 1, [1, 1, 1, 1]);
    let b = solid(3, 1, [2, 2, 2, 2]);
    assert!(stitch_tiles_vertically(&[a, b]).is_err());
}

#[test]
fn rgba_buffer_length_is_checked() {
    let err = RgbaImage::new(2, 2, vec![0; 15]).unwrap_err();
    assert_eq!(err, "rgba buffer length 15 != 16 (2x2)");
}

#[test]
fn crop_takes_the_exact_window() {
    let mut pixels = Vec::new();
    for y in 0..4u8 {
        for x in 0..3u8 {
            pixels.extend_from_slice(&[x, y, 0, 255]);
        }
    }
    let img = RgbaImage::new(3, 4, pixels).unwrap();
    let out = crop_rgba(&img, 1, 2, 2, 2).unwrap();
    assert_eq!(out.width, 2);
    assert_eq!(out.height, 2);
    assert_eq!(out.pixels, vec![1, 2, 0, 255, 2, 2, 0, 255, 1, 3, 0, 255, 2, 3, 0, 255]);
    assert_eq!(img.pixel_index(2, 3), 44);
    assert!(crop_rgba(&img, 2, 0, 2, 1).is_err());
    assert!(crop_rgba(&img, 0, 0, 0, 1).is_err());
}

#[test]
fn scroll_unavailable_prefix() {
    let err = scroll_unavailable("no such id");
    assert!(is_scroll_unavailable(&err));
    assert!(!is_scroll_unavailable("screenshot_unavailable: x"));
}

#[test]
fn png_roundtrip_rgba() {
    let img = solid(3, 2, [1, 2, 3, 4]);
    let bytes = gpui_agent::scroll_capture::encode_png_rgba(&img).unwrap();
    assert!(bytes.starts_with(b"\x89PNG"));
    let back = gpui_agent::scroll_capture::decode_png_rgba(&bytes).unwrap();
    assert_eq!(back, img);
}

#[test]
fn decode_refuses_non_png_and_reads_test_png() {
    let err = gpui_agent::scroll_capture::decode_png_rgba(b"not a png").unwrap_err();
    assert_eq!(err, "screenshot_unavailable: not a PNG");
    let img = gpui_agent::scroll_capture::decode_png_rgba(&gpui_agent::screenshot::TEST_PNG).unwrap();
    assert_eq!((img.width, img.height), (1, 1));
    assert_eq!(img.pixels.len(), 4);
    assert!(gpui_agent::scroll_capture::decode_png_rgba(b"\x89PNG\r\n\x1a\nbroken").is_err());
}

#[test]
fn to_rgba_expands_rgb_and_gray() {
    let rgb = to_rgba(2, 1, 2, 8, &[1, 2, 3, 4, 5, 6]).unwrap();
    assert_eq!(rgb.pixels, vec![1, 2, 3, 255, 4, 5, 6, 255]);
    let gray = to_rgba(1, 2, 0, 8, &[7, 9]).unwrap();
    assert_eq!(gray.pixels, vec![7, 7, 7, 255, 9, 9, 9, 255]);
    let ga = to_rgba(1, 1, 4, 8, &[5, 128]).unwrap();
    assert_eq!(ga.pixels, vec![5, 5, 5, 128]);
    assert_eq!(to_rgba(1, 1, 6, 16, &[0; 8]).unwrap_err(), "unsupported png bit depth Sixteen");
    assert_eq!(to_rgba(1, 1, 3, 8, &[0]).unwrap_err(), "unsupported png color type Indexed");
    assert_eq!(to_rgba(2, 2, 2, 8, &[0; 11]).unwrap_err(), "png rgb size mismatch");
}

#[test]
fn encoded_png_starts_with_signature_and_is_kept() {
    let img = solid(2, 1, [1, 2, 3, 255]);
    let bytes = gpui_agent::scroll_capture::encode_png_rgba(&img).unwrap();
    assert_eq!(&bytes[..8], &[137u8, 80, 78, 71, 13, 10, 26, 10]);
    assert!(gpui_agent::screenshot::written_png_verdict("shot.png", Ok(bytes.clone())).is_ok());
    let back = gpui_agent::scroll_capture::decode_png_rgba(&bytes).unwrap();
    assert_eq!(back.width, 2);
    assert_eq!(back.pixels, img.pixels);
}
