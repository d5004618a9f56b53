use bloom::idmap::IdMap;
use bloom::visibility::Rect;
use bloom::windows_desktop::{
    add_listed, add_scanned, focus_action, group_windows, is_bloom_class, is_known_shell, is_self_updating,
    keeps_shell_item, known_program_paths, media_source_process, is_media_source_process, latest_version_dir, listed_window, scanned_name, sort_by_recency,
    start_menu_roots, system_accent_color, web_app_icons, web_app_id, CursorWatch, DockScene, ListedWindow,
    ScaledRect, ScannedApp, ShellForeground, ShellWatch, WinFocusAction, MAX_SCAN_DEPTH,
};

fn palette(r: u8, g: u8, b: u8) -> [u8; 32] {
    let mut p = [0u8; 32];
    p[12] = r;
    p[13] = g;
    p[14] = b;
    p
}

#[test]
fn the_accent_palette_wins_when_it_was_read_whole() {
    let accent = system_accent_color(Some((palette(0x35, 0x84, 0xe4), 32)), Some(0x0000_00ff), None);
    assert_eq!(accent.as_deref(), Ok("#3584e4"));
}

#[test]
fn a_short_palette_falls_back_to_the_dwm_accent_colour() {
    // AABBGGRR: red 0x35, green 0x84, blue 0xe4.
    let accent = system_accent_color(Some((palette(1, 2, 3), 10)), Some(0xffe4_8435), Some(0));
    assert_eq!(accent.as_deref(), Ok("#3584e4"));
}

#[test]
fn the_colorization_colour_is_read_as_argb() {
    let accent = system_accent_color(None, None, Some(0xff35_84e4));
    assert_eq!(accent.as_deref(), Ok("#3584e4"));
    let missing = system_accent_color(None, None, None);
    assert_eq!(missing, Err("Failed to query colorization color".to_string()));
}

#[test]
fn shell_windows_are_recognised_by_class_and_title() {
    assert!(is_bloom_class("Tauri Bloom Window"));
    assert!(!is_bloom_class("Chrome_WidgetWin_1"));
    assert!(is_known_shell("Progman", ""));
    assert!(is_known_shell("Shell_SecondaryTrayWnd", "anything"));
    assert!(is_known_shell("Windows.UI.Core.CoreWindow", "Search"));
    assert!(!is_known_shell("Windows.UI.Core.CoreWindow", "Settings"));
    assert!(!is_known_shell("Notepad", "Start"));
}

fn screen() -> Rect {
    Rect { left: 0, top: 0, right: 1920, bottom: 1080 }
}

fn window(frame: Rect) -> ShellForeground {
    ShellForeground {
        iconic: false,
        tool_window: false,
        frame: Some(frame),
        monitor: Some(screen()),
        maximized: false,
        dock: Some((700, 1220, 56)),
    }
}

#[test]
fn a_fullscreen_window_covers_the_dock_and_hides_the_chrome() {
    let mut watch = ShellWatch::new();
    let report = watch.tick(42, false, window(screen()), false);
    assert!(report.overlap);
    assert_eq!(report.emit_dock, Some(true));
    assert_eq!(report.toggle_visibility, Some(false));
    assert!(!watch.last_visible);

    // A small window elsewhere uncovers the dock and brings the chrome back.
    let small = Rect { left: 100, top: 100, right: 500, bottom: 400 };
    let report = watch.tick(43, false, window(small), false);
    assert!(!report.overlap);
    assert_eq!(report.emit_dock, Some(false));
    assert_eq!(report.toggle_visibility, Some(true));

    // Nothing changed: nothing is sent until the resync interval passes.
    let report = watch.tick(43, false, window(small), false);
    assert_eq!(report.emit_dock, None);
    assert_eq!(report.toggle_visibility, None);
    let report = watch.tick(43, false, window(small), true);
    assert_eq!(report.emit_dock, Some(false));
}

#[test]
fn a_window_reaching_into_the_dock_band_covers_it() {
    let mut watch = ShellWatch::new();
    let low = Rect { left: 800, top: 500, right: 1000, bottom: 1060 };
    let report = watch.tick(7, false, window(low), false);
    assert!(report.overlap);
    assert_eq!(report.toggle_visibility, None);
}

#[test]
fn the_shell_and_missing_windows_never_cover_the_dock() {
    let mut watch = ShellWatch::new();
    assert!(!watch.tick(9, true, window(screen()), false).overlap);
    assert!(!watch.tick(0, false, window(screen()), false).overlap);
    // The classification of a window is kept until it changes or a resync.
    let mut watch = ShellWatch::new();
    assert!(!watch.tick(9, true, window(screen()), false).overlap);
    assert!(!watch.tick(9, false, window(screen()), false).overlap);
    assert!(watch.tick(9, false, window(screen()), true).overlap);
}

#[test]
fn an_unreadable_frame_keeps_the_previous_verdict() {
    let mut watch = ShellWatch::new();
    watch.tick(5, false, window(screen()), false);
    let mut unknown = window(screen());
    unknown.frame = None;
    let report = watch.tick(5, false, unknown, false);
    assert!(report.overlap);
    assert_eq!(report.toggle_visibility, None);
}

#[test]
fn enumerated_windows_are_named_and_filtered() {
    assert_eq!(
        listed_window("notes.txt - Notepad", false, "C:\\Windows\\System32\\notepad.exe").as_deref(),
        Some("notepad")
    );
    assert_eq!(
        listed_window("YouTube - Google Chrome", false, "C:\\Program Files\\Google\\Chrome\\Application\\chrome.exe")
            .as_deref(),
        Some("YouTube")
    );
    assert_eq!(listed_window("", false, "C:\\x\\app.exe"), None);
    assert_eq!(listed_window("Tools", true, "C:\\x\\app.exe"), None);
    assert_eq!(listed_window("Bloom Dock", false, "C:\\x\\bloom.exe"), None);
    assert_eq!(listed_window("Downloads", false, "C:\\Windows\\Explorer.EXE"), None);
}

fn listed(name: &str, path: &str, hwnd: isize) -> ListedWindow {
    ListedWindow { name: name.to_string(), path: path.to_string(), hwnd }
}

#[test]
fn the_enumeration_keeps_one_window_per_process_image() {
    let mut windows = Vec::new();
    add_listed(&mut windows, listed("a", "C:\\a.exe", 1));
    add_listed(&mut windows, listed("a again", "C:\\a.exe", 2));
    add_listed(&mut windows, listed("b", "C:\\b.exe", 3));
    let handles: Vec<isize> = windows.iter().map(|w| w.hwnd).collect();
    assert_eq!(handles, vec![1, 3]);
}

#[test]
fn windows_are_grouped_per_application_most_recent_first() {
    let windows = vec![
        listed("Editor", "C:\\Apps\\Editor.exe", 10),
        listed("App One", "C:\\Edge\\msedge.exe", 11),
        listed("Editor", "c:\\apps\\editor.exe", 12),
        listed("App Two", "C:\\Edge\\msedge.exe", 13),
    ];
    let mut times = IdMap::new();
    times.insert(10, 100);
    times.insert(12, 300);
    let apps = group_windows(&windows, &times);
    assert_eq!(apps.len(), 3);
    assert_eq!(apps[0].name, "Editor");
    assert_eq!(apps[0].hwnd, Some(10));
    assert!(apps[0].is_running);
    let members: Vec<isize> = apps[0].all_hwnds.as_ref().unwrap().iter().map(|m| m.0).collect();
    assert_eq!(members, vec![12, 10]);
    assert_eq!(apps[1].name, "App One");
    assert_eq!(apps[2].name, "App Two");
}

#[test]
fn recency_ordering_is_stable() {
    let mut times = IdMap::new();
    times.insert(2, 50);
    let sorted = sort_by_recency(vec![(1, "a".to_string()), (2, "b".to_string()), (3, "c".to_string())], &times);
    let order: Vec<isize> = sorted.iter().map(|m| m.0).collect();
    assert_eq!(order, vec![2, 1, 3]);
}

#[test]
fn the_start_menu_scan_skips_uninstallers_and_installers() {
    assert!(keeps_shell_item("Firefox"));
    assert!(!keeps_shell_item("Uninstall Firefox"));
    assert!(!keeps_shell_item("Unknown"));
    assert!(!keeps_shell_item(""));
    assert_eq!(scanned_name("C:\\Start Menu\\Firefox.lnk").as_deref(), Some("Firefox"));
    assert_eq!(scanned_name("C:\\Tools\\App.EXE").as_deref(), Some("App"));
    assert_eq!(scanned_name("C:\\Start Menu\\Uninstall Firefox.lnk"), None);
    assert_eq!(scanned_name("C:\\Start Menu\\Installer.exe"), None);
    assert_eq!(scanned_name("C:\\Start Menu\\readme.txt"), None);
    assert_eq!(MAX_SCAN_DEPTH, 10);
}

#[test]
fn scanned_applications_are_kept_once_by_path_and_name() {
    let mut apps = Vec::new();
    let app = |name: &str, path: &str| ScannedApp { name: name.to_string(), path: path.to_string() };
    add_scanned(&mut apps, app("Firefox", "C:\\a\\Firefox.lnk"));
    add_scanned(&mut apps, app("Firefox", "C:\\b\\Firefox.lnk"));
    add_scanned(&mut apps, app("Other", "C:\\a\\Firefox.lnk"));
    add_scanned(&mut apps, app("Notepad", "C:\\a\\Notepad.lnk"));
    let names: Vec<&str> = apps.iter().map(|a| a.name.as_str()).collect();
    assert_eq!(names, vec!["Firefox", "Notepad"]);
}

#[test]
fn start_menu_roots_follow_the_environment() {
    let roots = start_menu_roots(Some("C:\\Users\\me\\AppData\\Roaming"), None, Some("C:\\Users\\me"));
    assert_eq!(
        roots,
        vec![
            "C:\\ProgramData\\Microsoft\\Windows\\Start Menu\\Programs".to_string(),
            "C:\\Users\\me\\AppData\\Roaming\\Microsoft\\Windows\\Start Menu\\Programs".to_string(),
            "C:\\Users\\me\\AppData\\Roaming\\Microsoft\\Internet Explorer\\Quick Launch\\User Pinned\\TaskBar"
                .to_string(),
            "C:\\Users\\Public\\Desktop".to_string(),
            "C:\\Users\\me\\Desktop".to_string(),
        ]
    );
    assert_eq!(start_menu_roots(None, None, None).len(), 2);
}

#[test]
fn the_latest_version_folder_is_the_last_by_name() {
    assert!(is_self_updating("discord.exe"));
    assert!(!is_self_updating("notepad.exe"));
    let entries = vec![
        ("app-1.0.9".to_string(), true),
        ("app-1.0.10".to_string(), true),
        ("packages".to_string(), true),
        ("current".to_string(), false),
    ];
    // Names sort as text, so 1.0.9 comes after 1.0.10.
    assert_eq!(latest_version_dir(&entries), Some(0));
    assert_eq!(latest_version_dir(&vec![("packages".to_string(), true)]), None);
}

#[test]
fn web_app_shortcuts_name_their_application() {
    let id = web_app_id(
        "C:\\Program Files\\Google\\Chrome\\Application\\chrome_proxy.exe",
        "--profile-directory=Default --app-id=abcdef  --other",
    );
    assert_eq!(id.as_deref(), Some("abcdef"));
    assert_eq!(web_app_id("C:\\app.exe", "--flag"), None);
    assert_eq!(web_app_id("C:\\app.exe", "--app-id=   "), None);
    assert_eq!(web_app_id("C:\\app.exe", "--app-id=xyz").as_deref(), Some("xyz"));
    let icons = web_app_icons("C:\\Local", "abc");
    assert_eq!(
        icons,
        vec![
            "C:\\Local\\Google\\Chrome\\User Data\\Default\\Web Applications\\_crx_abc\\icon_256.png".to_string(),
            "C:\\Local\\Microsoft\\Edge\\User Data\\Default\\Web Applications\\_crx_abc\\icon_256.png".to_string(),
        ]
    );
}

#[test]
fn bare_program_names_are_looked_for_in_their_usual_places() {
    assert_eq!(
        known_program_paths("Code.exe", Some("C:\\Users\\me")),
        vec!["C:\\Users\\me\\AppData\\Local\\Programs\\Microsoft VS Code\\Code.exe".to_string()]
    );
    assert!(known_program_paths("code", None).is_empty());
    assert_eq!(known_program_paths("notepad", None).len(), 2);
    assert_eq!(known_program_paths("EXPLORER", None), vec!["C:\\Windows\\explorer.exe".to_string()]);
    assert!(known_program_paths("firefox", None).is_empty());
}

#[test]
fn clicking_a_dock_item_toggles_its_window() {
    let mut times = IdMap::new();
    assert_eq!(focus_action(false, false, 5, 0, 0, 0, 1, &times, 10_000), WinFocusAction::Show);
    assert_eq!(focus_action(true, true, 5, 5, 0, 0, 1, &times, 10_000), WinFocusAction::Restore);
    assert_eq!(focus_action(true, false, 5, 5, 0, 0, 1, &times, 10_000), WinFocusAction::Minimize);
    assert_eq!(focus_action(true, false, 5, 6, 77, 77, 1, &times, 10_000), WinFocusAction::Minimize);
    assert_eq!(focus_action(true, false, 5, 6, 1, 1, 1, &times, 10_000), WinFocusAction::Activate);
    assert_eq!(focus_action(true, false, 5, 6, 2, 3, 1, &times, 10_000), WinFocusAction::Activate);
    times.insert(5, 9_000);
    assert_eq!(focus_action(true, false, 5, 6, 2, 3, 1, &times, 10_000), WinFocusAction::Minimize);
    assert_eq!(focus_action(true, false, 5, 6, 2, 3, 1, &times, 11_000), WinFocusAction::Activate);
}

fn dock_scene(hovered: bool) -> DockScene {
    DockScene {
        window: Some((0, 480, 1920, 600)),
        dock: Some(ScaledRect { x: 700, y: 540, width: 520, height: 56 }),
        menu: None,
        menu_open: false,
        monitor: Some((0, 0, 1920, 1080)),
        dock_hovered: hovered,
    }
}

#[test]
fn the_windows_dock_lingers_and_takes_clicks_over_its_items() {
    let mut watch = CursorWatch::new();
    // At the bottom edge: hovered, and the window lets clicks through.
    let report = watch.dock_tick((100, 1079), dock_scene(false), 1_000);
    assert_eq!(report.edge_hover, Some(true));
    assert_eq!(report.ignore, Some(true));
    // Over the dock's items, within the linger: still hovered, now clickable.
    let report = watch.dock_tick((960, 1030), dock_scene(false), 1_200);
    assert_eq!(report.edge_hover, None);
    assert_eq!(report.ignore, Some(false));
    // Away from everything after the linger.
    let report = watch.dock_tick((100, 100), dock_scene(false), 2_000);
    assert_eq!(report.edge_hover, Some(false));
    assert_eq!(report.ignore, Some(true));
}

#[test]
fn the_windows_top_bar_stays_interactive_briefly() {
    let mut watch = CursorWatch::new();
    assert_eq!(watch.main_tick((10, 10), Some((0, 0, 1920, 420)), 1_000), Some(false));
    assert_eq!(watch.main_tick((10, 900), Some((0, 0, 1920, 420)), 1_200), None);
    assert_eq!(watch.main_tick((10, 900), Some((0, 0, 1920, 420)), 1_600), Some(true));
}

#[test]
fn a_media_session_is_matched_to_its_process() {
    assert_eq!(media_source_process("Spotify.Player.App"), "spotify");
    assert_eq!(media_source_process("VLC"), "vlc");
    assert!(is_media_source_process("C:\\Program Files\\Spotify\\Spotify.exe", "spotify"));
    assert!(!is_media_source_process("C:\\Program Files\\Other\\other.exe", "spotify"));
}
