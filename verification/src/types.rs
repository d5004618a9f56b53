//! Records exchanged with Bloom's interface.
use vstd::prelude::*;

verus! {

/// A dock item: an installed application or a group of running windows.
pub struct AppInfo {
    pub name: String,
    pub path: String,
    pub icon: Option<String>,
    pub is_running: bool,
    pub hwnd: Option<isize>,
    pub executable: Option<String>,
    /// Every window of the application, with its title.
    pub all_hwnds: Option<Vec<(isize, String)>>,
}

/// A rectangle the interface reports, in CSS pixels relative to its window.
#[derive(Clone, Copy, Debug, PartialEq, Eq, Structural)]
pub struct IntRect {
    pub x: i32,
    pub y: i32,
    pub width: i32,
    pub height: i32,
}

/// What the interface shows of the current media player.
pub struct MediaInfo {
    pub title: String,
    pub artist: String,
    pub is_playing: bool,
    pub has_media: bool,
    /// The cover art as a data URI, when the player offers a local file.
    pub artwork: Option<Vec<String>>,
    pub position_ms: i64,
    pub duration_ms: i64,
    pub seek_enabled: bool,
    /// When `position_ms` was read, in milliseconds since the Unix epoch.
    pub position_updated_at: u64,
}

} // verus!
