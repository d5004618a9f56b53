use bloom::system::{
    memory_reading,
    backlight_name, backlight_values, brightness, brightness_percent, brightness_raw, disk_free_space,
    network_delta, BrightnessWatch,
};

#[test]
fn free_space_is_summed_over_disks() {
    assert_eq!(disk_free_space(&[100, 250, 0]), 350);
    assert_eq!(disk_free_space(&[]), 0);
}

#[test]
fn traffic_is_summed_and_saturates() {
    // Pairs are (received, transmitted); the result is upload then download.
    assert_eq!(network_delta(&[(10, 1), (20, 2)]), (3, 30));
    assert_eq!(network_delta(&[(u64::MAX, 0), (5, 0)]), (0, u64::MAX));
}

#[test]
fn brightness_is_read_from_the_backlight_files() {
    assert_eq!(brightness("96000\n", "96000\n"), Ok(100));
    assert_eq!(brightness(" 48000 ", "96000"), Ok(50));
    assert_eq!(brightness("7", "9"), Ok(77));
    assert_eq!(brightness("abc", "96000").unwrap_err(), "Kernel backlight brightness is invalid");
    assert_eq!(brightness("1", "").unwrap_err(), "Kernel backlight maximum is invalid");
    assert_eq!(brightness("1", "0").unwrap_err(), "Kernel backlight maximum is zero");
    assert_eq!(backlight_values("+5", "10"), Ok((5, 10)));
}

#[test]
fn brightness_never_exceeds_one_hundred_percent() {
    assert_eq!(brightness_percent(200, 100), 100);
    assert_eq!(brightness_percent(u32::MAX, 1), 100);
    assert_eq!(brightness_percent(u32::MAX, u32::MAX), 1);
}

#[test]
fn raw_levels_are_scaled_from_percentages() {
    assert_eq!(brightness_raw(50, 96000), 48000);
    assert_eq!(brightness_raw(150, 255), 255);
    assert_eq!(brightness_raw(100, u32::MAX), u32::MAX / 100);
}

#[test]
fn the_backlight_is_named_by_its_directory() {
    assert_eq!(backlight_name("/sys/class/backlight/intel_backlight").as_deref(), Ok("intel_backlight"));
    assert_eq!(backlight_name("/").unwrap_err(), "The kernel backlight device has no name");
}

#[test]
fn bloom_does_not_announce_its_own_changes() {
    let mut watch = BrightnessWatch::new(Some(40));
    // Unchanged readings are never announced.
    assert!(!watch.observe(40, 10_000, 0));
    // A change right after Bloom set the level is its own echo.
    assert!(!watch.observe(60, 10_000, 9_000));
    // ...and is not announced late either.
    assert!(!watch.observe(60, 20_000, 9_000));
    // A change from elsewhere is.
    assert!(watch.observe(70, 20_000, 9_000));
    assert_eq!(watch.previous, Some(70));
}

#[test]
fn brightness_keys_move_in_tens() {
    assert_eq!(bloom::system::brightness_step(95, true), 100);
    assert_eq!(bloom::system::brightness_step(40, true), 50);
    assert_eq!(bloom::system::brightness_step(5, false), 0);
    assert_eq!(bloom::system::brightness_step(40, false), 30);
}

#[test]
fn a_memory_reading_needs_a_known_total() {
    assert_eq!(memory_reading(512, 2048), Ok((512, 2048)));
    assert_eq!(
        memory_reading(512, 0).unwrap_err(),
        "System memory total is unavailable"
    );
}
