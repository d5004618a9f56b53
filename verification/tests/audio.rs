use bloom::audio::{after_subscription_exit, backend, capture_command, is_sink_event, parse_pactl_mute, Backend};

#[test]
fn parses_pulseaudio_mute_output() {
    assert_eq!(parse_pactl_mute("Mute: yes\n"), Some(true));
    assert_eq!(parse_pactl_mute("Mute: no\n"), Some(false));
    assert_eq!(parse_pactl_mute("nope"), None);
}

#[test]
fn capture_never_panics_when_audio_tools_are_absent() {
    // Either a tool is found or the visualizer reports itself unavailable;
    // in both cases this must not panic.
    assert!(capture_command(None, None).is_none());
    let parec = capture_command(None, Some("/usr/bin/parec".to_owned())).unwrap();
    assert_eq!(parec.program, "/usr/bin/parec");
    assert_eq!(parec.args.len(), 4);
    let pw = capture_command(Some("/usr/bin/pw-record".to_owned()), Some("/usr/bin/parec".to_owned()))
        .unwrap();
    assert_eq!(pw.program, "/usr/bin/pw-record");
    assert_eq!(
        pw.args,
        vec!["--format=s16", "--rate=44100", "--channels=1", "-P", "stream.capture.sink=true", "-"]
    );
}

#[test]
fn wireplumber_is_preferred_over_pulseaudio() {
    assert_eq!(backend(true, true), Some(Backend::WirePlumber));
    assert_eq!(backend(false, true), Some(Backend::PulseAudio));
    assert_eq!(backend(false, false), None);
}

#[test]
fn sink_and_server_events_trigger_a_reread() {
    assert!(is_sink_event("Event 'change' on sink #53"));
    assert!(is_sink_event("Event 'change' on server #0"));
    assert!(!is_sink_event("Event 'new' on client #9"));
}

#[test]
fn two_quick_subscription_failures_stop_the_watcher() {
    assert_eq!(after_subscription_exit(0, true), Some(1));
    assert_eq!(after_subscription_exit(1, true), None);
    assert_eq!(after_subscription_exit(1, false), Some(0));
}
