use base64::Engine;
use bloom::custom_icons::{
    custom_icon_file, custom_icon_key, forget_custom_icons, get_platform, icon_data_uri, icon_keys,
    icon_for_item, icon_payload, open_app_refusal, prepare_custom_icon, record_custom_icon, sanitize_filename,
    unsupported,
};
use bloom::textmap::TextMap;

/// A real PNG, encoded the same way the interface sends one.
fn icon_data_uri_of_size(size: u32) -> String {
    let image = image::RgbaImage::from_pixel(size, size, image::Rgba([220, 40, 60, 255]));
    let mut png = Vec::new();
    image::DynamicImage::ImageRgba8(image)
        .write_to(&mut std::io::Cursor::new(&mut png), image::ImageFormat::Png)
        .unwrap();
    format!(
        "data:image/png;base64,{}",
        base64::engine::general_purpose::STANDARD.encode(&png)
    )
}

#[test]
fn icon_keys_are_ordered_most_specific_first() {
    let keys = icon_keys("/apps/x.desktop", Some("X App"), Some(7));
    assert_eq!(
        keys,
        vec![
            "/apps/x.desktop:x app".to_owned(),
            "/apps/x.desktop-7".to_owned(),
            "/apps/x.desktop".to_owned(),
        ]
    );
}

#[test]
fn filenames_are_flattened_so_keys_cannot_escape_the_directory() {
    assert_eq!(sanitize_filename("a/b:c"), "a_b_c");
    assert!(!sanitize_filename("../../etc/passwd").contains('/'));
}

#[test]
fn custom_icons_survive_a_save_and_load_round_trip() {
    let dir = "/home/user/.config/bloom/custom_icons";
    // A key with path separators must still come back unchanged.
    let key = "/usr/share/applications/code.desktop-1234";
    let png = prepare_custom_icon(&icon_data_uri_of_size(32)).unwrap();
    let stored = icon_data_uri(&png);
    assert!(stored.starts_with("data:image/png;base64,"));
    let file = custom_icon_file(dir, key);
    assert_eq!(
        file,
        "/home/user/.config/bloom/custom_icons/_usr_share_applications_code.desktop-1234.png"
    );
    let mut manifest = TextMap::new();
    record_custom_icon(&mut manifest, key);
    assert_eq!(custom_icon_key(&file, &manifest).as_deref(), Some(key));
}

#[test]
fn removing_an_icon_clears_every_key_shape_for_that_application() {
    let path = "/usr/share/applications/firefox.desktop";
    let hwnd_key = format!("{path}-99");
    let mut manifest = TextMap::new();
    record_custom_icon(&mut manifest, path);
    record_custom_icon(&mut manifest, &hwnd_key);
    // The interface removes by application, without the window id, so the
    // path key is the one it names.
    let cleared = forget_custom_icons(&mut manifest, path, None);
    assert_eq!(cleared, vec![path.to_owned()]);
    assert!(manifest.get(&sanitize_filename(path)).is_none());
    // The window-specific icon is a different key and is left alone.
    assert_eq!(
        manifest.get(&sanitize_filename(&hwnd_key)).map(String::as_str),
        Some(hwnd_key.as_str())
    );
}

#[test]
fn tiny_or_unreadable_icons_are_rejected() {
    assert_eq!(
        prepare_custom_icon(&icon_data_uri_of_size(8)).unwrap_err(),
        "Icon must be at least 16x16 pixels"
    );
    assert!(prepare_custom_icon("data:image/png;base64,bm90LWltYWdl")
        .unwrap_err()
        .starts_with("Invalid image: "));
    assert!(prepare_custom_icon("data:image/png;base64,@@@")
        .unwrap_err()
        .starts_with("Invalid base64: "));
    assert_eq!(prepare_custom_icon("data:image/png").unwrap_err(), "Invalid data URI");
}

#[test]
fn oversized_icons_are_fitted_onto_a_square_canvas() {
    let png = prepare_custom_icon(&icon_data_uri_of_size(512)).unwrap();
    let decoded = image::load_from_memory(&png).unwrap();
    assert_eq!((decoded.width(), decoded.height()), (256, 256));
}

#[test]
fn the_payload_is_taken_from_a_data_uri_or_used_as_is() {
    assert_eq!(icon_payload("data:image/png;base64,QUJD").as_deref(), Some("QUJD"));
    assert_eq!(icon_payload("data:a,b,c").as_deref(), Some("b"));
    assert_eq!(icon_payload("QUJD").as_deref(), Some("QUJD"));
    assert_eq!(icon_payload("data:nothing"), None);
}

#[test]
fn files_that_are_not_pngs_are_not_icons() {
    let manifest: TextMap<String> = TextMap::new();
    assert_eq!(custom_icon_key("/icons/firefox.png", &manifest).as_deref(), Some("firefox"));
    assert_eq!(custom_icon_key("/icons/custom_icons.json", &manifest), None);
}

#[test]
fn the_start_menu_is_reported_unavailable() {
    assert_eq!(
        open_app_refusal("start").as_deref(),
        Some("The Cinnamon application-menu integration is not available yet on Linux; Bloom remains usable without it")
    );
    assert_eq!(open_app_refusal("firefox"), None);
    assert_eq!(unsupported("X"), "X is not available yet on Linux; Bloom remains usable without it");
    assert_eq!(get_platform(), "linux");
}

#[test]
fn a_saved_icon_wins_over_the_theme() {
    let saved = icon_for_item(Some("data:image/png;base64,AA".to_string()), || -> Option<String> {
        panic!("the theme is not asked")
    });
    assert_eq!(saved.as_deref(), Some("data:image/png;base64,AA"));
    assert_eq!(icon_for_item(None, || Some("theme".to_string())).as_deref(), Some("theme"));
}

#[test]
fn small_icons_keep_their_own_colour_type() {
    let image = image::GrayImage::from_pixel(24, 24, image::Luma([90]));
    let mut png = Vec::new();
    image::DynamicImage::ImageLuma8(image)
        .write_to(&mut std::io::Cursor::new(&mut png), image::ImageFormat::Png)
        .unwrap();
    let uri = format!(
        "data:image/png;base64,{}",
        base64::engine::general_purpose::STANDARD.encode(&png)
    );
    let stored = prepare_custom_icon(&uri).unwrap();
    let decoded = image::load_from_memory(&stored).unwrap();
    assert_eq!(decoded.color(), image::ColorType::L8);
    assert_eq!((decoded.width(), decoded.height()), (24, 24));
}

#[test]
fn oversized_icons_are_stored_as_rgba() {
    let image = image::GrayImage::from_pixel(300, 300, image::Luma([90]));
    let mut png = Vec::new();
    image::DynamicImage::ImageLuma8(image)
        .write_to(&mut std::io::Cursor::new(&mut png), image::ImageFormat::Png)
        .unwrap();
    let uri = format!(
        "data:image/png;base64,{}",
        base64::engine::general_purpose::STANDARD.encode(&png)
    );
    let stored = prepare_custom_icon(&uri).unwrap();
    let decoded = image::load_from_memory(&stored).unwrap();
    assert_eq!(decoded.color(), image::ColorType::Rgba8);
}
