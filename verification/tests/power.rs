use bloom::power::{display_device_state, enumerated_battery, is_charging, power_saver_enabled, state, BatteryState, DeviceReading};

#[test]
fn charge_state_prefers_the_reported_upower_state() {
    assert!(is_charging(1, true)); // charging
    assert!(is_charging(4, false)); // fully charged
    assert!(!is_charging(2, false)); // discharging
    assert!(!is_charging(3, false)); // empty
    // Unknown state falls back to whether the system is on battery.
    assert!(is_charging(0, false));
    assert!(!is_charging(0, true));
}

#[test]
fn reading_battery_never_panics_without_upower() {
    // Without UPower both readings fail; the result is an error and never a
    // claimed battery.
    let display = display_device_state(Err("no bus".into()), Err("no bus".into()), None, false);
    assert!(display.is_err());
    let result = state(Err("no bus".into()), Err("no bus".into()), None, false, Err("no bus".into()));
    if let Ok(state) = result {
        assert!(state.level <= 100);
        assert!(state.present);
    }
    assert_eq!(
        state(Ok(false), Ok(0), None, false, Err("no bus".into())).unwrap_err(),
        "no bus"
    );
}

#[test]
fn the_composite_device_is_preferred() {
    let display = display_device_state(Ok(true), Ok(57), Some(2), true);
    assert_eq!(display, Ok(BatteryState { level: 57, charging: false, present: true }));
    assert_eq!(
        display_device_state(Ok(false), Ok(57), Some(2), true).unwrap_err(),
        "No battery is present"
    );
    let devices = vec![DeviceReading { device_type: 2, present: true, level: 10, state: 1 }];
    assert_eq!(state(Ok(true), Ok(57), Some(2), true, Ok(devices)), display);
    // A reading above full is shown as full.
    assert_eq!(
        display_device_state(Ok(true), Ok(130), Some(1), false),
        Ok(BatteryState { level: 100, charging: true, present: true })
    );
}

#[test]
fn the_first_present_battery_is_the_fallback() {
    let devices = vec![
        DeviceReading { device_type: 1, present: true, level: 100, state: 0 },
        DeviceReading { device_type: 2, present: false, level: 90, state: 0 },
        DeviceReading { device_type: 2, present: true, level: 42, state: 4 },
        DeviceReading { device_type: 2, present: true, level: 7, state: 2 },
    ];
    assert_eq!(
        enumerated_battery(Ok(devices)),
        Ok(BatteryState { level: 42, charging: true, present: true })
    );
    assert_eq!(
        enumerated_battery(Ok(Vec::new())).unwrap_err(),
        "No battery device is available"
    );
}

#[test]
fn only_the_power_saver_profile_counts() {
    assert!(power_saver_enabled("power-saver"));
    assert!(!power_saver_enabled("balanced"));
}
