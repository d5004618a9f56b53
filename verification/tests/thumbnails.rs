use base64::Engine;
use bloom::idmap::IdMap;
use bloom::thumbnails::capture;
use bloom::thumbnails::{
    cached, encode_png, focus_time, forget_closed, record_focus, store, thumbnail_of, to_rgba, window_id,
    Capture,
};

fn capture_with(depth: u8, width: u16, height: u16, pixels: Vec<u8>) -> Capture {
    Capture { width, height, depth, pixels }
}

#[test]
fn bgrx_pixels_become_rgba() {
    // Two pixels: blue-green-red ordering, with the padding byte ignored.
    let capture = capture_with(24, 2, 1, vec![0xff, 0x00, 0x00, 0x00, 0x00, 0x00, 0xff, 0x00]);
    let image = to_rgba(&capture).expect("conversion should succeed");
    assert_eq!(image.get_pixel(0, 0), [0, 0, 255, 255]);
    assert_eq!(image.get_pixel(1, 0), [255, 0, 0, 255]);
}

#[test]
fn scanline_padding_is_respected() {
    // A three pixel wide row is padded to 12 bytes, so the second row starts
    // at byte 12 and must not be read from byte 8.
    let mut pixels = vec![0u8; 24];
    pixels[0..4].copy_from_slice(&[0x10, 0x20, 0x30, 0x00]);
    pixels[12..16].copy_from_slice(&[0x40, 0x50, 0x60, 0x00]);
    let image = to_rgba(&capture_with(24, 3, 2, pixels)).expect("conversion should succeed");
    assert_eq!(image.get_pixel(0, 0), [0x30, 0x20, 0x10, 255]);
    assert_eq!(image.get_pixel(0, 1), [0x60, 0x50, 0x40, 255]);
}

#[test]
fn rgb565_pixels_are_expanded() {
    // Pure green in 5-6-5 is 0x07E0. A single 16-bit pixel still occupies a
    // four byte scanline after the server's padding.
    let mut pixels = vec![0u8; 4];
    pixels[0..2].copy_from_slice(&0x07E0u16.to_le_bytes());
    let image = to_rgba(&capture_with(16, 1, 1, pixels)).expect("conversion should succeed");
    let [red, green, blue, _] = image.get_pixel(0, 0);
    assert_eq!((red, blue), (0, 0));
    assert_eq!(green, 0xfc);
}

#[test]
fn depth_32_keeps_alpha_but_depth_24_stays_opaque() {
    let argb = capture_with(32, 1, 1, vec![0x00, 0x00, 0xff, 0x40]);
    assert_eq!(to_rgba(&argb).expect("conversion").get_pixel(0, 0), [255, 0, 0, 0x40]);
    // The same bytes at depth 24 must be treated as opaque.
    let rgb = capture_with(24, 1, 1, vec![0x00, 0x00, 0xff, 0x00]);
    assert_eq!(to_rgba(&rgb).expect("conversion").get_pixel(0, 0), [255, 0, 0, 255]);
}

#[test]
fn unsupported_depths_and_short_buffers_are_rejected() {
    assert_eq!(to_rgba(&capture_with(8, 1, 1, vec![0])).err().unwrap(), "Unsupported window depth 8");
    assert_eq!(
        to_rgba(&capture_with(24, 2, 1, vec![0, 0, 0, 0])).err().unwrap(),
        "Window pixel data is incomplete: 4 of 8 bytes"
    );
}

#[test]
fn resizing_fits_within_the_requested_bounds() {
    let image = bloom::imaging::RgbaImage {
        width: 400,
        height: 200,
        pixels: [1u8, 2, 3, 255].repeat(400 * 200),
    };
    let uri = encode_png(&image, 100, 100).expect("encode should succeed");
    assert!(uri.starts_with("data:image/png;base64,"));
    let bytes = base64::engine::general_purpose::STANDARD
        .decode(uri.trim_start_matches("data:image/png;base64,"))
        .expect("valid base64");
    let decoded = image::load_from_memory(&bytes).expect("valid png");
    assert!(decoded.width() <= 100 && decoded.height() <= 100);
    // Aspect ratio is preserved: 400x200 halves to 100x50.
    assert_eq!((decoded.width(), decoded.height()), (100, 50));
}

#[test]
fn capturing_an_invalid_window_reports_an_error() {
    assert_eq!(window_id(-1).unwrap_err(), "Invalid X11 window id");
    assert_eq!(window_id(0).unwrap_err(), "Invalid X11 window id");
    assert_eq!(window_id(77), Ok(77));
}

#[test]
fn a_stored_thumbnail_is_reused_while_fresh() {
    let mut cache = IdMap::new();
    store(&mut cache, 5, "data:image/png;base64,AAAA", 1_000);
    assert_eq!(cached(&mut cache, 5, 2_000).as_deref(), Some("data:image/png;base64,AAAA"));
    assert_eq!(cached(&mut cache, 5, 2_500), None);
    // The stale entry was dropped.
    assert_eq!(cached(&mut cache, 5, 1_000), None);
}

#[test]
fn closed_windows_lose_their_thumbnails() {
    let mut cache = IdMap::new();
    store(&mut cache, 1, "a", 0);
    store(&mut cache, 2, "b", 0);
    forget_closed(&mut cache, &[2, 3]);
    assert_eq!(cached(&mut cache, 1, 0), None);
    assert_eq!(cached(&mut cache, 2, 0).as_deref(), Some("b"));
}

#[test]
fn focus_times_follow_the_active_window() {
    let mut times = IdMap::new();
    assert_eq!(focus_time(&times, 9), 0);
    record_focus(&mut times, &[9, 10], 9, 1234);
    assert_eq!(focus_time(&times, 9), 1234);
    assert_eq!(focus_time(&times, 10), 0);
}

#[test]
fn a_capture_becomes_a_png_data_uri() {
    let capture = capture_with(32, 1, 1, vec![0x00, 0x00, 0xff, 0xff]);
    let uri = thumbnail_of(&capture, 320, 200).unwrap();
    assert!(uri.starts_with("data:image/png;base64,"));
}

#[test]
fn captures_are_reused_and_invalid_windows_refused() {
    let mut cache = IdMap::new();
    let mut times = IdMap::new();
    record_focus(&mut times, &[7], 7, 99);
    let fresh = capture(&mut cache, &times, 7, 320, 200, 1_000, || {
        Ok(capture_with(32, 1, 1, vec![0, 0, 0xff, 0xff]))
    })
    .unwrap()
    .unwrap();
    assert!(fresh.0.starts_with("data:image/png;base64,"));
    assert_eq!(fresh.1, 99);
    // Within the cache's lifetime the X server is not asked again.
    let again = capture(&mut cache, &times, 7, 320, 200, 1_200, || Err("not asked".to_owned()))
        .unwrap()
        .unwrap();
    assert_eq!(again.0, fresh.0);
    assert_eq!(
        capture(&mut cache, &times, -1, 320, 200, 0, || Err("not asked".to_owned())).unwrap_err(),
        "Invalid X11 window id"
    );
    assert_eq!(
        capture(&mut cache, &times, 8, 320, 200, 0, || Err("gone".to_owned())).unwrap_err(),
        "gone"
    );
}

#[test]
fn a_fresh_capture_is_fitted_within_the_bounds_and_errors_pass_through() {
    let mut cache = IdMap::new();
    let times = IdMap::new();
    let (uri, _) = capture(&mut cache, &times, 9, 2, 3, 0, || {
        Ok(capture_with(32, 8, 4, [0u8, 0, 0xff, 0xff].repeat(32)))
    })
    .unwrap()
    .unwrap();
    let bytes = base64::engine::general_purpose::STANDARD
        .decode(uri.trim_start_matches("data:image/png;base64,"))
        .expect("valid base64");
    let decoded = image::load_from_memory(&bytes).expect("valid png");
    assert!(decoded.width() <= 2 && decoded.height() <= 3);
    assert_eq!(focus_time(&times, 9), 0);
    // A conversion error is reported and nothing is cached.
    assert_eq!(
        capture(&mut cache, &times, 10, 2, 3, 0, || Ok(capture_with(8, 1, 1, vec![0]))).unwrap_err(),
        "Unsupported window depth 8"
    );
    assert_eq!(cached(&mut cache, 10, 0), None);
}
