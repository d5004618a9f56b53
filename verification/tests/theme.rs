use bloom::theme::{accent_color, palette_hex, parse_rgb, setting_value};

#[test]
fn palette_names_map_to_their_colour() {
    assert_eq!(palette_hex("blue").as_deref(), Some("#3584e4"));
    assert_eq!(palette_hex("Purple").as_deref(), Some("#9141ac"));
    assert_eq!(palette_hex("chartreuse"), None);
}

#[test]
fn rgb_values_are_normalised() {
    assert_eq!(parse_rgb("#3584E4").as_deref(), Some("#3584e4"));
    assert_eq!(parse_rgb("3584e4").as_deref(), Some("#3584e4"));
    // Short form expands rather than erroring.
    assert_eq!(parse_rgb("#abc").as_deref(), Some("#aabbcc"));
    assert_eq!(parse_rgb("53, 132, 228").as_deref(), Some("#3584e4"));
}

#[test]
fn unusable_rgb_values_are_rejected() {
    assert_eq!(parse_rgb(""), None);
    assert_eq!(parse_rgb("#12345"), None);
    assert_eq!(parse_rgb("zzzzzz"), None);
    // Out of range channels are not silently wrapped.
    assert_eq!(parse_rgb("300,0,0"), None);
}

#[test]
fn the_accent_comes_from_the_most_authoritative_setting() {
    assert_eq!(accent_color(Some("teal"), Some("#000000"), Some("blue")).as_deref(), Ok("#2190a4"));
    assert_eq!(accent_color(Some("nonsense"), None, Some("blue")).as_deref(), Ok("#3584e4"));
    assert_eq!(accent_color(None, Some("'#ABC'"), None).as_deref(), Ok("#aabbcc"));
    // The portal's RGB value outranks GNOME's accent name.
    assert_eq!(accent_color(None, Some("53, 132, 228"), Some("teal")).as_deref(), Ok("#3584e4"));
    assert_eq!(
        accent_color(None, None, None).unwrap_err(),
        "This desktop does not expose an accent colour"
    );
    assert_eq!(setting_value(true, "'blue'\n").as_deref(), Some("blue"));
    assert_eq!(setting_value(false, "'blue'\n"), None);
}
