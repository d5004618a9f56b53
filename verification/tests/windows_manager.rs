use bloom::idmap::IdMap;
use bloom::windows_manager::{close, focus, prettify, signature_changed, window_signature, WindowWatch};

#[test]
fn class_names_are_prettified_for_display() {
    assert_eq!(prettify("google-chrome"), "Google chrome");
    assert_eq!(prettify("jetbrains_idea"), "Jetbrains idea");
    assert_eq!(prettify(""), "");
}

#[test]
fn invalid_window_ids_are_rejected() {
    assert!(focus(-1, 0).is_err());
    assert!(close(0).is_err());
}

#[test]
fn valid_windows_get_a_message() {
    let m = close(42).unwrap();
    assert_eq!(m.window, 42);
    assert!(focus(42, 7).is_ok());
}

#[test]
fn the_window_list_is_resent_only_when_it_changes() {
    let first = window_signature(&[3, 1, 2], 1);
    assert!(signature_changed(None, &first));
    assert!(!signature_changed(Some(first.as_slice()), &window_signature(&[3, 1, 2], 1)));
    assert!(signature_changed(Some(first.as_slice()), &window_signature(&[3, 1, 2], 2)));
}

#[test]
fn the_window_watcher_reports_and_prunes_only_on_change() {
    let mut watch = WindowWatch::new();
    let mut times = IdMap::new();
    let mut cache = IdMap::new();
    times.insert(5, 1);
    cache.insert(5, ("old".to_string(), 1));
    cache.insert(7, ("seven".to_string(), 1));
    assert!(watch.tick(&[7, 8], 7, &mut times, &mut cache, 100));
    assert_eq!(times.get(7), Some(&100));
    assert_eq!(times.get(5), None);
    assert!(cache.get(5).is_none());
    assert!(cache.get(7).is_some());
    // Nothing changed: nothing is reported or stamped.
    assert!(!watch.tick(&[7, 8], 7, &mut times, &mut cache, 200));
    assert_eq!(times.get(7), Some(&100));
    // A new active window is a change.
    assert!(watch.tick(&[7, 8], 8, &mut times, &mut cache, 300));
    assert_eq!(times.get(8), Some(&300));
}
