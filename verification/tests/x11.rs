use bloom::x11::{alignment_padding, property_text, window_class_parts, xsettings_string_value};

fn string_setting(buffer: &mut Vec<u8>, name: &str, value: &str) {
    buffer.push(1);
    buffer.push(0);
    buffer.extend_from_slice(&(name.len() as u16).to_le_bytes());
    buffer.extend_from_slice(name.as_bytes());
    buffer.extend(std::iter::repeat(0).take(alignment_padding(name.len())));
    buffer.extend_from_slice(&7u32.to_le_bytes());
    buffer.extend_from_slice(&(value.len() as u32).to_le_bytes());
    buffer.extend_from_slice(value.as_bytes());
    buffer.extend(std::iter::repeat(0).take(alignment_padding(value.len())));
}

fn integer_setting(buffer: &mut Vec<u8>, name: &str, value: i32) {
    buffer.push(0);
    buffer.push(0);
    buffer.extend_from_slice(&(name.len() as u16).to_le_bytes());
    buffer.extend_from_slice(name.as_bytes());
    buffer.extend(std::iter::repeat(0).take(alignment_padding(name.len())));
    buffer.extend_from_slice(&7u32.to_le_bytes());
    buffer.extend_from_slice(&value.to_le_bytes());
}

fn settings_blob(settings: &[(&str, &str, bool)]) -> Vec<u8> {
    let mut buffer = vec![0, 0, 0, 0];
    buffer.extend_from_slice(&1u32.to_le_bytes());
    buffer.extend_from_slice(&(settings.len() as u32).to_le_bytes());
    for (name, value, is_string) in settings {
        if *is_string {
            string_setting(&mut buffer, name, value);
        } else {
            integer_setting(&mut buffer, name, value.parse().unwrap_or_default());
        }
    }
    buffer
}

#[test]
fn reads_a_string_setting_from_a_typical_blob() {
    let blob = settings_blob(&[
        ("Gtk/EnableAnimations", "1", false),
        ("Net/IconThemeName", "Mint-L", true),
        ("Net/ThemeName", "Mint-Y", true),
    ]);
    assert_eq!(xsettings_string_value(&blob, "Net/IconThemeName").as_deref(), Some("Mint-L"));
    assert_eq!(xsettings_string_value(&blob, "Net/ThemeName").as_deref(), Some("Mint-Y"));
    assert!(xsettings_string_value(&blob, "Net/NotPresent").is_none());
}

#[test]
fn ignores_integer_and_colour_records() {
    // A colour record sits between two strings and must be skipped by size.
    let mut blob = settings_blob(&[("Net/IconThemeName", "Papirus", true)]);
    blob[8..12].copy_from_slice(&2u32.to_le_bytes());
    blob.extend_from_slice(&[2, 0, 5, 0]);
    blob.extend_from_slice(b"Net/C");
    blob.extend_from_slice(&0u32.to_le_bytes());
    blob.extend_from_slice(&[0, 0, 0, 0, 0xff, 0xff, 0xff, 0xff]);
    assert_eq!(xsettings_string_value(&blob, "Net/IconThemeName").as_deref(), Some("Papirus"));
}

#[test]
fn malformed_blobs_are_rejected_without_panicking() {
    assert!(xsettings_string_value(&[], "Net/IconThemeName").is_none());
    assert!(xsettings_string_value(&[9, 0, 0, 0, 0, 0, 0, 0, 0, 0, 0, 0], "x").is_none());
    assert!(xsettings_string_value(&[0, 0, 0, 0, 0, 0, 0, 0, 5, 0, 0, 0], "x").is_none());
}

#[test]
fn text_properties_lose_their_terminator() {
    assert_eq!(property_text(b"Terminal\0").as_deref(), Some("Terminal"));
    assert_eq!(property_text(b"\0"), None);
    let (instance, class) = window_class_parts("gnome-terminal-server\0Gnome-terminal\0");
    assert_eq!(instance, "gnome-terminal-server");
    assert_eq!(class, "Gnome-terminal");
}
