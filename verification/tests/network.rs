use bloom::network::{bus_unreachable, open_settings, set_wifi_enabled, wifi_enabled};

#[test]
fn reading_wifi_state_never_panics() {
    // Without NetworkManager the state is an error, never a panic.
    assert_eq!(
        wifi_enabled(Err("no such service".into()), None).unwrap_err(),
        "NetworkManager Wi-Fi state is unavailable: no such service"
    );
}

#[test]
fn the_hardware_switch_overrides_the_software_one() {
    assert_eq!(wifi_enabled(Ok(true), Some(true)), Ok(true));
    assert_eq!(wifi_enabled(Ok(true), Some(false)), Ok(false));
    assert_eq!(wifi_enabled(Ok(true), None), Ok(true));
    assert_eq!(wifi_enabled(Ok(false), Some(true)), Ok(false));
}

#[test]
fn refusals_are_explained() {
    assert_eq!(set_wifi_enabled(Ok(())), Ok(()));
    assert_eq!(
        set_wifi_enabled(Err("denied".into())).unwrap_err(),
        "NetworkManager refused the Wi-Fi change (authorization may be required): denied"
    );
    assert_eq!(bus_unreachable("gone"), "Cannot reach the system bus: gone");
}

#[test]
fn network_settings_fall_back_to_the_connection_editor() {
    let candidates = open_settings();
    assert_eq!(candidates.len(), 2);
    assert_eq!(candidates[0].program, "cinnamon-settings");
    assert_eq!(candidates[0].args, vec!["network"]);
    assert_eq!(candidates[1].program, "nm-connection-editor");
    assert!(candidates[1].args.is_empty());
}
