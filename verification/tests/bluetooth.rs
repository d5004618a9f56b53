use bloom::bluetooth::{adapter_path, bluez_unavailable, enabled, open_airplane_mode_settings, open_settings, set_enabled, ManagedObject};

fn object(path: &str, interfaces: &[&str]) -> ManagedObject {
    ManagedObject {
        path: path.to_owned(),
        interfaces: interfaces.iter().map(|s| s.to_string()).collect(),
    }
}

#[test]
fn reading_bluetooth_state_never_panics() {
    // Without BlueZ the state is an error, never a panic.
    assert_eq!(
        enabled(Err("no adapter".into())).unwrap_err(),
        "Bluetooth power state is unavailable: no adapter"
    );
    assert_eq!(enabled(Ok(true)), Ok(true));
}

#[test]
fn the_adapter_is_found_among_managed_objects() {
    let objects = vec![
        object("/org/bluez", &["org.bluez.AgentManager1"]),
        object("/org/bluez/hci0", &["org.freedesktop.DBus.Properties", "org.bluez.Adapter1"]),
        object("/org/bluez/hci1", &["org.bluez.Adapter1"]),
    ];
    assert_eq!(adapter_path(Ok(objects)).as_deref(), Ok("/org/bluez/hci0"));
    assert_eq!(
        adapter_path(Ok(vec![object("/org/bluez", &[])])).unwrap_err(),
        "No Bluetooth adapter was found"
    );
    assert_eq!(
        adapter_path(Err("timeout".into())).unwrap_err(),
        "BlueZ did not report its objects: timeout"
    );
    assert_eq!(bluez_unavailable("x"), "BlueZ is unavailable: x");
}

#[test]
fn power_changes_report_refusals() {
    assert_eq!(set_enabled(Ok(())), Ok(()));
    assert_eq!(
        set_enabled(Err("not authorized".into())).unwrap_err(),
        "BlueZ refused the Bluetooth change (authorization may be required): not authorized"
    );
}

#[test]
fn settings_prefer_blueman() {
    let candidates = open_settings();
    assert_eq!(candidates[0].program, "blueman-manager");
    assert_eq!(candidates[1].program, "cinnamon-settings");
    assert_eq!(candidates[1].args, vec!["bluetooth"]);
    let airplane = open_airplane_mode_settings();
    assert_eq!(airplane.len(), 1);
    assert_eq!(airplane[0].args, vec!["network"]);
}
