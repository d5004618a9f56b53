use bloom::media::{
    artwork_file, artwork_fits, best_snapshot, choose_player, empty_snapshot, media_changed,
    percent_decode, send, send_through, snapshot, MediaChannel, transport_call, MediaCommand, MprisCall, PlayerReply, Snapshot,
};

fn reply(status: &str, title: Option<&str>) -> PlayerReply {
    PlayerReply {
        status: status.to_owned(),
        title: title.map(str::to_owned),
        track_id: Some("/org/mpris/MediaPlayer2/Track/1".to_owned()),
        artists: vec!["First".to_owned(), "Second".to_owned()],
        album_artist: None,
        length_us: Some(135_000_000),
        artwork: None,
        position_us: Some(61_500_000),
        can_seek: Some(true),
    }
}

fn player(name: &str, status: &str) -> Snapshot {
    snapshot(name, reply(status, Some(name)), 5).unwrap()
}

#[test]
fn percent_encoded_paths_are_decoded() {
    assert_eq!(percent_decode("/music/My%20Song.png"), "/music/My Song.png");
    assert_eq!(percent_decode("/plain/path.png"), "/plain/path.png");
    assert_eq!(percent_decode("/odd/%zz.png"), "/odd/%zz.png");
}

#[test]
fn send_reports_a_useful_error_before_start() {
    // Before the media thread starts, transport commands must fail explicitly.
    assert_eq!(
        send(&mut None, MediaCommand::PlayPause).unwrap_err(),
        "Media control is not available"
    );
}

#[test]
fn send_reaches_a_running_media_thread() {
    let (sender, receiver) = std::sync::mpsc::channel();
    let mut channel = Some(MediaChannel::new(sender));
    assert!(send(&mut channel, MediaCommand::Next).is_ok());
    assert!(matches!(receiver.recv().unwrap(), MediaCommand::Next));
    assert!(send(&mut channel, MediaCommand::Seek(1500)).is_ok());
    assert!(matches!(receiver.recv().unwrap(), MediaCommand::Seek(1500)));
    drop(receiver);
    assert_eq!(
        send(&mut channel, MediaCommand::Previous).unwrap_err(),
        "Media control has stopped"
    );
    assert!(channel.is_some());
}

#[test]
fn a_reply_becomes_a_snapshot() {
    let s = snapshot("org.mpris.MediaPlayer2.vlc", reply("Playing", Some("Song")), 42).unwrap();
    assert_eq!(s.player, "org.mpris.MediaPlayer2.vlc");
    assert_eq!(s.info.title, "Song");
    assert_eq!(s.info.artist, "First, Second");
    assert!(s.info.is_playing);
    assert!(s.info.has_media);
    assert_eq!(s.info.duration_ms, 135_000);
    assert_eq!(s.info.position_ms, 61_500);
    assert!(s.info.seek_enabled);
    assert_eq!(s.info.position_updated_at, 42);
    // A player without a title has nothing to show.
    assert!(snapshot("p", reply("Playing", Some("")), 0).is_none());
    assert!(snapshot("p", reply("Playing", None), 0).is_none());
}

#[test]
fn the_album_artist_stands_in_for_missing_artists() {
    let mut r = reply("Paused", Some("Song"));
    r.artists = Vec::new();
    r.album_artist = Some("Band".to_owned());
    r.length_us = Some(-5);
    r.position_us = None;
    let s = snapshot("p", r, 0).unwrap();
    assert_eq!(s.info.artist, "Band");
    assert!(!s.info.is_playing);
    assert_eq!(s.info.duration_ms, 0);
    assert_eq!(s.info.position_ms, 0);
}

#[test]
fn playing_players_win_then_the_first_with_metadata() {
    let best = best_snapshot(vec![
        player("a", "Paused"),
        player("b", "Playing"),
        player("c", "Playing"),
    ]);
    assert_eq!(best.player, "b");
    let best = best_snapshot(vec![player("a", "Paused"), player("b", "Stopped")]);
    assert_eq!(best.player, "a");
    let none = best_snapshot(Vec::new());
    assert!(!none.info.has_media);
    assert_eq!(none.player, "");
    assert_eq!(choose_player(None, player("x", "Paused")).unwrap().player, "x");
    assert!(!empty_snapshot().info.is_playing);
}

#[test]
fn only_visible_changes_are_reported() {
    let first = player("a", "Playing");
    assert!(media_changed(None, &first.info));
    let mut moved = player("a", "Playing");
    moved.info.position_ms += 900;
    assert!(!media_changed(Some(&first.info), &moved.info));
    moved.info.position_ms += 200;
    assert!(media_changed(Some(&first.info), &moved.info));
    let mut paused = player("a", "Paused");
    paused.info.position_ms = first.info.position_ms;
    assert!(media_changed(Some(&first.info), &paused.info));
}

#[test]
fn transport_requests_become_mpris_calls() {
    let active = player("a", "Playing");
    assert!(transport_call(None, MediaCommand::Next).is_none());
    assert!(matches!(
        transport_call(Some(&active), MediaCommand::PlayPause),
        Some(MprisCall::PlayPause)
    ));
    match transport_call(Some(&active), MediaCommand::Seek(1500)) {
        Some(MprisCall::SetPosition { track, position_us }) => {
            assert_eq!(track, "/org/mpris/MediaPlayer2/Track/1");
            assert_eq!(position_us, 1_500_000);
        }
        _ => panic!("expected a seek"),
    }
    let mut odd = player("a", "Playing");
    odd.track_id = Some("not a path".to_owned());
    assert!(transport_call(Some(&odd), MediaCommand::Seek(1)).is_none());
}

#[test]
fn only_local_artwork_of_known_types_is_inlined() {
    assert_eq!(
        artwork_file("file:///music/My%20Cover.JPG"),
        Some(("/music/My Cover.JPG".to_owned(), "image/jpeg".to_owned()))
    );
    assert_eq!(artwork_file("https://example.com/cover.png"), None);
    assert_eq!(artwork_file("file:///music/cover.bmp"), None);
    assert!(artwork_fits(8 * 1024 * 1024));
    assert!(!artwork_fits(8 * 1024 * 1024 + 1));
}

#[test]
fn a_channel_carries_the_command_it_is_given() {
    let (sender, receiver) = std::sync::mpsc::channel();
    let mut channel = MediaChannel::new(sender);
    assert!(send_through(&mut channel, MediaCommand::PlayPause).is_ok());
    assert!(send_through(&mut channel, MediaCommand::Previous).is_ok());
    assert!(matches!(receiver.recv().unwrap(), MediaCommand::PlayPause));
    assert!(matches!(receiver.recv().unwrap(), MediaCommand::Previous));
    drop(receiver);
    assert_eq!(
        send_through(&mut channel, MediaCommand::Next).unwrap_err(),
        "Media control has stopped"
    );
}
