//! Decisions of the Windows backend, apart from the Win32 calls that feed
//! them: the accent colour read from the registry, when the foreground
//! window hides Bloom's chrome or covers the dock, which top-level windows
//! are applications, what the start-menu scan keeps, and which copy of a
//! self-updating application to start.
use vstd::prelude::*;
use crate::text::{
    chars_of, string_of, str_eq, contains_seq, contains_chars, lowercase, to_lowercase, trim, trim_chars,
    first_occurrence, find_text, slice_chars, extend_chars, owned, starts_with, has_prefix, text_le, chars_le,
    lemma_text_le_total, lemma_text_le_transitive, is_white, is_whitespace,
};
use crate::path::{file_name, path_file_name, file_stem, extension, path_file_stem, path_extension};
use crate::theme::{hex2, push_hex2};
use crate::visibility::Rect;
use crate::windows_apps::shared_host;
use crate::thumbnails::FocusTimes;
use crate::types::AppInfo;

verus! {

broadcast use vstd::array::group_array_axioms;

/// `#rrggbb` for three channels.
pub open spec fn hex_colour(r: u8, g: u8, b: u8) -> Seq<char> {
    seq!['#'] + hex2(r) + hex2(g) + hex2(b)
}

fn colour_text(r: u8, g: u8, b: u8) -> (s: String)
    ensures
        s@ == hex_colour(r, g, b),
{
    let mut out: Vec<char> = Vec::new();
    out.push('#');
    push_hex2(&mut out, r);
    push_hex2(&mut out, g);
    push_hex2(&mut out, b);
    assert(out@ =~= hex_colour(r, g, b));
    string_of(&out)
}

/// The lowest byte of a packed colour.
pub open spec fn byte0(c: u32) -> u8 {
    (c % 256) as u8
}

/// The second byte of a packed colour.
pub open spec fn byte1(c: u32) -> u8 {
    ((c / 256) % 256) as u8
}

/// The third byte of a packed colour.
pub open spec fn byte2(c: u32) -> u8 {
    ((c / 65536) % 256) as u8
}

/// A colour packed as `0xAABBGGRR`, as `DWM\AccentColor` holds it.
pub open spec fn abgr_hex(c: u32) -> Seq<char> {
    hex_colour(byte0(c), byte1(c), byte2(c))
}

/// A colour packed as `0xAARRGGBB`, as `DwmGetColorizationColor` gives it.
pub open spec fn argb_hex(c: u32) -> Seq<char> {
    hex_colour(byte2(c), byte1(c), byte0(c))
}

/// The accent colour without the palette: the DWM accent colour, else the
/// colorization colour.
pub open spec fn dwm_accent_of(accent: Option<u32>, colorization: Option<u32>) -> Result<Seq<char>, Seq<char>> {
    match accent {
        Some(c) => Ok(abgr_hex(c)),
        None => match colorization {
            Some(c) => Ok(argb_hex(c)),
            None => Err("Failed to query colorization color"@),
        },
    }
}

/// The system accent colour on Windows, in order of authority: bytes 12 to
/// 14 of `Explorer\Accent\AccentPalette` when at least 15 bytes of it were
/// read, then `DWM\AccentColor`, then the colorization colour. Each source
/// is `None` when it could not be read.
pub open spec fn windows_accent_of(
    palette: Option<(Seq<u8>, u32)>,
    accent: Option<u32>,
    colorization: Option<u32>,
) -> Result<Seq<char>, Seq<char>> {
    match palette {
        Some((p, size)) => if size >= 15 {
            Ok(hex_colour(p[12], p[13], p[14]))
        } else {
            dwm_accent_of(accent, colorization)
        },
        None => dwm_accent_of(accent, colorization),
    }
}

/// The system accent colour as `#rrggbb`, from what the registry and DWM
/// gave: the 32-byte palette buffer with the size read into it, the DWM
/// accent colour and the colorization colour.
pub fn system_accent_color(palette: Option<([u8; 32], u32)>, accent: Option<u32>, colorization: Option<u32>) -> (r:
    Result<String, String>)
    ensures
        ({
            let read = match palette {
                Some((p, size)) => Some((p@, size)),
                None => None,
            };
            match r {
                Ok(h) => windows_accent_of(read, accent, colorization) == Ok::<Seq<char>, Seq<char>>(h@),
                Err(e) => windows_accent_of(read, accent, colorization) == Err::<Seq<char>, Seq<char>>(e@),
            }
        }),
{
    if let Some((p, size)) = palette {
        if size >= 15 {
            return Ok(colour_text(p[12], p[13], p[14]));
        }
    }
    match accent {
        Some(c) => Ok(colour_text((c % 256) as u8, ((c / 256) % 256) as u8, ((c / 65536) % 256) as u8)),
        None => match colorization {
            Some(c) => Ok(colour_text(((c / 65536) % 256) as u8, ((c / 256) % 256) as u8, (c % 256) as u8)),
            None => Err(crate::text::owned("Failed to query colorization color")),
        },
    }
}

/// Bloom's own windows, which the foreground check looks past.
pub fn is_bloom_class(class: &str) -> (r: bool)
    ensures
        r == contains_seq(class@, "Bloom"@),
{
    let chars = chars_of(class);
    let bloom = chars_of("Bloom");
    contains_chars(&chars, &bloom)
}

/// The desktop, the taskbars, and the start menu or search.
pub open spec fn known_shell(class: Seq<char>, title: Seq<char>) -> bool {
    ||| class == "Progman"@
    ||| class == "WorkerW"@
    ||| class == "Shell_TrayWnd"@
    ||| class == "Shell_SecondaryTrayWnd"@
    ||| (class == "Windows.UI.Core.CoreWindow"@ || class == "SimpleWindow"@) && (title == "Start"@ || title
        == "Search"@)
}

/// Whether a window, by its class and title, is part of the shell.
pub fn is_known_shell(class: &str, title: &str) -> (r: bool)
    ensures
        r == known_shell(class@, title@),
{
    str_eq(class, "Progman") || str_eq(class, "WorkerW") || str_eq(class, "Shell_TrayWnd") || str_eq(
        class,
        "Shell_SecondaryTrayWnd",
    ) || ((str_eq(class, "Windows.UI.Core.CoreWindow") || str_eq(class, "SimpleWindow")) && (str_eq(
        title,
        "Start",
    ) || str_eq(title, "Search")))
}

/// What the Windows backend reads of the foreground window.
pub struct ShellForeground {
    pub iconic: bool,
    /// Whether it has the tool-window style, as popups and palettes do.
    pub tool_window: bool,
    /// Its frame on screen, when it could be read.
    pub frame: Option<Rect>,
    /// The monitor it is on, when it could be read.
    pub monitor: Option<Rect>,
    /// Whether it is zoomed or has the maximize style.
    pub maximized: bool,
    /// The dock's left and right edges and the height of its band, in
    /// physical pixels, when the interface has reported the dock.
    pub dock: Option<(i32, i32, i32)>,
}

/// A frame that covers the whole monitor.
pub open spec fn covers_monitor(frame: Rect, monitor: Rect) -> bool {
    &&& frame.left <= monitor.left
    &&& frame.top <= monitor.top
    &&& frame.right >= monitor.right
    &&& frame.bottom >= monitor.bottom
}

/// A frame that overlaps the dock's span and reaches into its band at the
/// bottom of the monitor, with four pixels of slack.
pub open spec fn reaches_dock(frame: Rect, monitor: Rect, dock: (i32, i32, i32)) -> bool {
    &&& frame.left < dock.1 - 4
    &&& frame.right > dock.0 + 4
    &&& frame.bottom > monitor.bottom - dock.2 + 4
}

/// Whether the foreground window covers the dock and whether it is
/// fullscreen. A shell window, a minimized one and a tool window do
/// neither; a fullscreen or maximized one covers the dock; when the frame
/// or the monitor cannot be read, the previous verdict stands.
pub open spec fn verdict_of(w: ShellForeground, shell: bool, previous: (bool, bool)) -> (bool, bool) {
    if shell || w.iconic || w.tool_window {
        (false, false)
    } else {
        match (w.frame, w.monitor) {
            (Some(f), Some(m)) => {
                let full = covers_monitor(f, m);
                if full || w.maximized {
                    (true, full)
                } else {
                    (
                        match w.dock {
                            Some(d) => reaches_dock(f, m, d),
                            None => false,
                        },
                        false,
                    )
                }
            },
            _ => previous,
        }
    }
}

fn verdict(w: &ShellForeground, shell: bool, previous: (bool, bool)) -> (r: (bool, bool))
    ensures
        r == verdict_of(*w, shell, previous),
{
    if shell || w.iconic || w.tool_window {
        return (false, false);
    }
    match (w.frame, w.monitor) {
        (Some(f), Some(m)) => {
            let full = f.left <= m.left && f.top <= m.top && f.right >= m.right && f.bottom >= m.bottom;
            if full || w.maximized {
                (true, full)
            } else {
                let covered = match w.dock {
                    Some((left, right, band)) => (f.left as i64) < (right as i64) - 4 && (f.right as i64) > (
                    left as i64) + 4 && (f.bottom as i64) > (m.bottom as i64) - (band as i64) + 4,
                    None => false,
                };
                (covered, false)
            }
        },
        _ => previous,
    }
}

/// The Windows backend's foreground watcher: what it last reported and
/// which window it last classified.
pub struct ShellWatch {
    /// Whether Bloom's chrome was last shown.
    pub last_visible: bool,
    /// The dock overlap last sent.
    pub last_dock_overlap: Option<bool>,
    /// The foreground window last seen, 0 for none.
    pub last_window: isize,
    /// Whether that window is part of the shell.
    pub known_shell: bool,
}

/// What one tick of the watcher does.
pub struct ShellReport {
    /// The dock overlap Bloom records.
    pub overlap: bool,
    /// `dock-overlap` to emit, if any; emitting restarts the resync timer.
    pub emit_dock: Option<bool>,
    /// Bloom's chrome to show (`true`) or hide (`false`), if it changes.
    pub toggle_visibility: Option<bool>,
}

/// The shell classification after a tick: a new foreground window, or the
/// resync interval passing, takes the classification read now; no window
/// is no shell.
pub open spec fn classified(old: ShellWatch, window: isize, shell: bool, resync: bool) -> (isize, bool) {
    if window == 0 {
        (0, false)
    } else if window != old.last_window || resync {
        (window, shell)
    } else {
        (old.last_window, old.known_shell)
    }
}

/// The verdict of a tick: nothing covers the dock without a foreground
/// window.
pub open spec fn tick_verdict(old: ShellWatch, window: isize, shell: bool, facts: ShellForeground, resync: bool) -> (
    bool,
    bool,
) {
    if window == 0 {
        (false, false)
    } else {
        verdict_of(
            facts,
            classified(old, window, shell, resync).1,
            (
                match old.last_dock_overlap {
                    Some(o) => o,
                    None => false,
                },
                !old.last_visible,
            ),
        )
    }
}

impl ShellWatch {
    /// Chrome shown, nothing sent, no window seen.
    pub fn new() -> (w: Self)
        ensures
            w.last_visible,
            w.last_dock_overlap is None,
            w.last_window == 0,
            !w.known_shell,
    {
        ShellWatch { last_visible: true, last_dock_overlap: None, last_window: 0, known_shell: false }
    }

    /// One tick: `window` is the foreground window past Bloom's own (0 for
    /// none), `shell` whether it is part of the shell as read now, `facts`
    /// what was read of it, and `resync` whether three seconds have passed
    /// since the dock overlap was last sent.
    pub fn tick(&mut self, window: isize, shell: bool, facts: ShellForeground, resync: bool) -> (r: ShellReport)
        ensures
            (final(self).last_window, final(self).known_shell) == classified(*old(self), window, shell, resync),
            ({
                let (overlap, full) = tick_verdict(*old(self), window, shell, facts, resync);
                &&& r.overlap == overlap
                &&& r.emit_dock == if old(self).last_dock_overlap != Some(overlap) || resync {
                    Some(overlap)
                } else {
                    None::<bool>
                }
                &&& final(self).last_dock_overlap == if r.emit_dock is Some {
                    Some(overlap)
                } else {
                    old(self).last_dock_overlap
                }
                &&& r.toggle_visibility == if full && old(self).last_visible {
                    Some(false)
                } else if !full && !old(self).last_visible {
                    Some(true)
                } else {
                    None::<bool>
                }
                &&& final(self).last_visible == !full
            }),
    {
        let previous = (
            match self.last_dock_overlap {
                Some(o) => o,
                None => false,
            },
            !self.last_visible,
        );
        let (overlap, full) = if window == 0 {
            self.last_window = 0;
            self.known_shell = false;
            (false, false)
        } else {
            if window != self.last_window || resync {
                self.last_window = window;
                self.known_shell = shell;
            }
            verdict(&facts, self.known_shell, previous)
        };
        let emit_dock = if self.last_dock_overlap != Some(overlap) || resync {
            self.last_dock_overlap = Some(overlap);
            Some(overlap)
        } else {
            None
        };
        let toggle_visibility = if full && self.last_visible {
            self.last_visible = false;
            Some(false)
        } else if !full && !self.last_visible {
            self.last_visible = true;
            Some(true)
        } else {
            None
        };
        ShellReport { overlap, emit_dock, toggle_visibility }
    }
}

/// A Windows path with its separators written as `/`: Windows takes `\\`
/// and `/` alike.
pub open spec fn slash_form(p: Seq<char>) -> Seq<char> {
    p.map_values(|c: char| if c == '\\' { '/' } else { c })
}

fn slash_chars(p: &[char]) -> (r: Vec<char>)
    ensures
        r@ == slash_form(p@),
{
    let mut out: Vec<char> = Vec::new();
    let mut i: usize = 0;
    while i < p.len()
        invariant
            i <= p.len(),
            out@ == slash_form(p@.take(i as int)),
        decreases p.len() - i,
    {
        out.push(if p[i] == '\\' { '/' } else { p[i] });
        assert(out@ =~= slash_form(p@.take(i + 1)));
        i = i + 1;
    }
    assert(p@.take(p.len() as int) =~= p@);
    out
}

/// The file name of a Windows path, its components separated by `\\` or
/// `/`.
pub open spec fn win_file_name(p: Seq<char>) -> Option<Seq<char>> {
    file_name(slash_form(p))
}

/// Titles of windows that are never applications: the desktop's and Bloom's.
pub open spec fn skipped_title(title: Seq<char>) -> bool {
    title == "Program Manager"@ || title == "Bloom"@ || title == "Bloom Dock"@
}

/// Processes whose windows the dock never lists, by their lowercase image
/// path: Bloom itself and parts of the shell.
pub open spec fn background_process(path_lower: Seq<char>) -> bool {
    ||| contains_seq(path_lower, "bloom.exe"@)
    ||| contains_seq(path_lower, "conhost.exe"@)
    ||| contains_seq(path_lower, "explorer.exe"@)
    ||| contains_seq(path_lower, "shellexperiencehost.exe"@)
    ||| contains_seq(path_lower, "searchhost.exe"@)
    ||| contains_seq(path_lower, "applicationframehost.exe"@)
    ||| contains_seq(path_lower, "textinputhost.exe"@)
    ||| contains_seq(path_lower, "systemsettings.exe"@)
}

fn is_background_process(path_lower: &[char]) -> (r: bool)
    ensures
        r == background_process(path_lower@),
{
    contains_chars(path_lower, &chars_of("bloom.exe")) || contains_chars(path_lower, &chars_of("conhost.exe"))
        || contains_chars(path_lower, &chars_of("explorer.exe")) || contains_chars(
        path_lower,
        &chars_of("shellexperiencehost.exe"),
    ) || contains_chars(path_lower, &chars_of("searchhost.exe")) || contains_chars(
        path_lower,
        &chars_of("applicationframehost.exe"),
    ) || contains_chars(path_lower, &chars_of("textinputhost.exe")) || contains_chars(
        path_lower,
        &chars_of("systemsettings.exe"),
    )
}

/// The text with every `.exe` taken out, left to right, as `str::replace`
/// does.
pub open spec fn without_exe(s: Seq<char>) -> Seq<char>
    decreases s.len(),
{
    if s.len() < 4 {
        s
    } else if s.take(4) == ".exe"@ {
        without_exe(s.skip(4))
    } else {
        seq![s[0]] + without_exe(s.skip(1))
    }
}

fn strip_exe(s: &[char]) -> (r: Vec<char>)
    ensures
        r@ == without_exe(s@),
{
    let exe = chars_of(".exe");
    proof {
        reveal_strlit(".exe");
    }
    let mut out: Vec<char> = Vec::new();
    let mut i: usize = 0;
    assert(s@.skip(0) =~= s@);
    while i < s.len()
        invariant
            i <= s.len(),
            exe@ == ".exe"@,
            out@ + without_exe(s@.skip(i as int)) == without_exe(s@),
        decreases s.len() - i,
    {
        let rest = Ghost(s@.skip(i as int));
        if s.len() - i >= 4 && crate::text::chars_eq(&slice_chars(s, i, i + 4), &exe) {
            assert(rest@.take(4) =~= s@.subrange(i as int, i + 4));
            assert(rest@.skip(4) =~= s@.skip(i + 4));
            i = i + 4;
        } else {
            if s.len() - i >= 4 {
                assert(rest@.take(4) =~= s@.subrange(i as int, i + 4));
            }
            assert(rest@.skip(1) =~= s@.skip(i + 1));
            out.push(s[i]);
            i = i + 1;
        }
    }
    assert(s@.skip(i as int) =~= Seq::<char>::empty());
    assert(out@ + Seq::<char>::empty() =~= out@);
    out
}

/// A window title up to its first ` - `, as browsers and the frame host put
/// the application's name first.
pub open spec fn first_part(title: Seq<char>) -> Seq<char> {
    match first_occurrence(title, " - "@) {
        Some(i) => title.take(i),
        None => title,
    }
}

/// The name a window is listed under: its process's executable name
/// without `.exe` (the title when the path has no file name), except that
/// browser and frame-host windows are named by their title and an untitled
/// Explorer window is "File Explorer".
pub open spec fn window_name_of(path: Seq<char>, title: Seq<char>) -> Seq<char> {
    let base = match win_file_name(path) {
        Some(n) => n,
        None => title,
    };
    let name = without_exe(base);
    if (name == "msedge"@ || name == "chrome"@ || name == "ApplicationFrameHost"@) && title.len() > 0 {
        trim(first_part(title))
    } else if name == "explorer"@ && title.len() == 0 {
        "File Explorer"@
    } else {
        name
    }
}

/// The name a window is listed under, or `None` for a window the dock
/// leaves out: an untitled one, a tool window, the desktop's or Bloom's
/// own, or one of a background process.
pub open spec fn listed_window_of(title: Seq<char>, tool_window: bool, path: Seq<char>) -> Option<Seq<char>> {
    if title.len() == 0 || tool_window || skipped_title(title) || background_process(lowercase(path)) {
        None
    } else {
        Some(window_name_of(path, title))
    }
}

/// Whether a visible top-level window is an application, and its name: the
/// rules of the Windows backend's window enumeration, given the window's
/// title, whether it is a tool window, and its process's image path.
pub fn listed_window(title: &str, tool_window: bool, process_path: &str) -> (r: Option<String>)
    ensures
        match r {
            Some(n) => listed_window_of(title@, tool_window, process_path@) == Some(n@),
            None => listed_window_of(title@, tool_window, process_path@) is None,
        },
{
    if title.is_empty() || tool_window || str_eq(title, "Program Manager") || str_eq(title, "Bloom")
        || str_eq(title, "Bloom Dock") {
        return None;
    }
    let lower = to_lowercase(process_path);
    if is_background_process(&chars_of(lower.as_str())) {
        return None;
    }
    let title_chars = chars_of(title);
    let base = match path_file_name(&slash_chars(&chars_of(process_path))) {
        Some(n) => n,
        None => title_chars.clone(),
    };
    let name = strip_exe(&base);
    let name_text = string_of(&name);
    if str_eq(name_text.as_str(), "msedge") || str_eq(name_text.as_str(), "chrome") || str_eq(
        name_text.as_str(),
        "ApplicationFrameHost",
    ) {
        let dash = chars_of(" - ");
        let head = match find_text(&title_chars, &dash) {
            Some(i) => slice_chars(&title_chars, 0, i),
            None => title_chars.clone(),
        };
        proof {
            if let Some(i) = first_occurrence(title@, " - "@) {
                assert(title_chars@.subrange(0, i) =~= title@.take(i));
            }
        }
        return Some(string_of(&trim_chars(&head)));
    }
    Some(name_text)
}

/// A window the enumeration keeps: its name, its process's image path and
/// its handle.
pub struct ListedWindow {
    pub name: String,
    pub path: String,
    pub hwnd: isize,
}

/// Whether a listing already holds a window of this image path.
pub open spec fn has_path(windows: Seq<ListedWindow>, path: Seq<char>) -> bool {
    exists|i: int| 0 <= i < windows.len() && (#[trigger] windows[i]).path@ == path
}

/// Add a window to the listing unless one of the same process image is
/// already there: the enumeration keeps the first window of each.
pub fn add_listed(windows: &mut Vec<ListedWindow>, window: ListedWindow)
    ensures
        has_path(old(windows)@, window.path@) ==> final(windows)@ == old(windows)@,
        !has_path(old(windows)@, window.path@) ==> final(windows)@ == old(windows)@.push(window),
{
    let mut i: usize = 0;
    while i < windows.len()
        invariant
            i <= windows.len(),
            forall|j: int| 0 <= j < i ==> (#[trigger] windows@[j]).path@ != window.path@,
        decreases windows.len() - i,
    {
        if str_eq(windows[i].path.as_str(), window.path.as_str()) {
            return;
        }
        i = i + 1;
    }
    windows.push(window);
}

/// The dock item a window belongs to: browsers and the frame host show
/// many applications, so their windows are told apart by name as well as
/// by the lowercase image path.
pub open spec fn group_key_of(path: Seq<char>, name: Seq<char>) -> Seq<char> {
    let p = lowercase(path);
    if shared_host(p) {
        p + seq![':'] + lowercase(name)
    } else {
        p
    }
}

fn group_key(path: &str, name: &str) -> (r: Vec<char>)
    ensures
        r@ == group_key_of(path@, name@),
{
    let p = to_lowercase(path);
    let mut key = chars_of(p.as_str());
    if crate::windows_apps::is_shared_host(&key) {
        key.push(':');
        let n = to_lowercase(name);
        extend_chars(&mut key, &chars_of(n.as_str()));
    }
    key
}

/// A dock item of the Windows backend: its key, the first window's name,
/// path and handle, and every window with its name, in listing order.
pub struct WinGroup {
    pub key: Seq<char>,
    pub name: Seq<char>,
    pub path: Seq<char>,
    pub hwnd: isize,
    pub windows: Seq<(isize, Seq<char>)>,
}

/// Where the group with `key` is among `groups`, or -1.
pub open spec fn win_group_index(groups: Seq<WinGroup>, key: Seq<char>) -> int
    decreases groups.len(),
{
    if groups.len() == 0 {
        -1
    } else if groups.last().key == key {
        groups.len() - 1
    } else {
        win_group_index(groups.drop_last(), key)
    }
}

proof fn lemma_win_group_index(groups: Seq<WinGroup>, key: Seq<char>)
    ensures
        -1 <= win_group_index(groups, key) < groups.len(),
        win_group_index(groups, key) >= 0 ==> groups[win_group_index(groups, key)].key == key,
        win_group_index(groups, key) == -1 ==> forall|j: int| 0 <= j < groups.len() ==> groups[j].key != key,
    decreases groups.len(),
{
    if groups.len() > 0 && groups.last().key != key {
        lemma_win_group_index(groups.drop_last(), key);
        assert forall|j: int| win_group_index(groups, key) == -1 && 0 <= j < groups.len() implies groups[j].key
            != key by {
            if j < groups.len() - 1 {
                assert(groups.drop_last()[j] == groups[j]);
            }
        }
    }
}

/// The dock items for a listing, in the order each first appears: a window
/// joins the item of the earlier windows with its key, or starts one.
pub open spec fn win_groups(windows: Seq<ListedWindow>) -> Seq<WinGroup>
    decreases windows.len(),
{
    if windows.len() == 0 {
        seq![]
    } else {
        let groups = win_groups(windows.drop_last());
        let w = windows.last();
        let key = group_key_of(w.path@, w.name@);
        let g = win_group_index(groups, key);
        if g >= 0 {
            groups.update(g, WinGroup { windows: groups[g].windows.push((w.hwnd, w.name@)), ..groups[g] })
        } else {
            groups.push(WinGroup { key, name: w.name@, path: w.path@, hwnd: w.hwnd, windows: seq![(w.hwnd, w.name@)] })
        }
    }
}

/// No two of the Windows backend's dock items share a key.
pub open spec fn distinct_win_keys(groups: Seq<WinGroup>) -> bool {
    forall|i: int, j: int| 0 <= i < j < groups.len() ==> (#[trigger] groups[i]).key != (#[trigger] groups[j]).key
}

/// Some dock item with `key` lists `member` among its windows.
pub open spec fn win_listed_in(groups: Seq<WinGroup>, key: Seq<char>, member: (isize, Seq<char>)) -> bool {
    exists|g: int| 0 <= g < groups.len() && (#[trigger] groups[g]).key == key && groups[g].windows.contains(member)
}

/// The windows of one application collapse into a single dock item: no two
/// items share a key, and every listed window is among the windows of the
/// item of its key.
pub proof fn lemma_one_win_item_per_application(windows: Seq<ListedWindow>)
    ensures
        distinct_win_keys(win_groups(windows)),
        forall|k: int| 0 <= k < windows.len() ==> win_listed_in(
            win_groups(windows),
            group_key_of((#[trigger] windows[k]).path@, windows[k].name@),
            (windows[k].hwnd, windows[k].name@),
        ),
    decreases windows.len(),
{
    if windows.len() > 0 {
        let rest = windows.drop_last();
        lemma_one_win_item_per_application(rest);
        let before = win_groups(rest);
        let after = win_groups(windows);
        let w = windows.last();
        let key = group_key_of(w.path@, w.name@);
        let member = (w.hwnd, w.name@);
        let g = win_group_index(before, key);
        lemma_win_group_index(before, key);
        assert forall|i: int| 0 <= i < before.len() implies (#[trigger] after[i]).key == before[i].key
            && before[i].windows.subrange(0, before[i].windows.len() as int) =~= after[i].windows.subrange(
            0,
            before[i].windows.len() as int,
        ) && after[i].windows.len() >= before[i].windows.len() by {
        }
        assert forall|i: int, j: int| 0 <= i < j < after.len() implies (#[trigger] after[i]).key != (
        #[trigger] after[j]).key by {
            if j < before.len() {
                assert(before[i].key != before[j].key);
            }
        }
        assert forall|k: int| 0 <= k < windows.len() implies win_listed_in(
            after,
            group_key_of((#[trigger] windows[k]).path@, windows[k].name@),
            (windows[k].hwnd, windows[k].name@),
        ) by {
            if k < windows.len() - 1 {
                assert(rest[k] == windows[k]);
                let m = (windows[k].hwnd, windows[k].name@);
                let gk = choose|gk: int| 0 <= gk < before.len() && (#[trigger] before[gk]).key == group_key_of(
                    windows[k].path@,
                    windows[k].name@,
                ) && before[gk].windows.contains(m);
                let idx = choose|idx: int| 0 <= idx < before[gk].windows.len() && before[gk].windows[idx] == m;
                assert(after[gk].windows[idx] == before[gk].windows.subrange(0, before[gk].windows.len() as int)[idx]);
                assert(after[gk].windows.contains(m));
            } else if g >= 0 {
                assert(after[g].windows.last() == member);
                assert(after[g].windows.contains(member));
            } else {
                assert(after[before.len() as int].windows[0] == member);
                assert(after[before.len() as int].windows.contains(member));
            }
        }
    }
}

/// When a window was last focused, 0 when it never was.
pub open spec fn time_of(times: Map<isize, i64>, hwnd: isize) -> i64 {
    if times.contains_key(hwnd) {
        times[hwnd]
    } else {
        0
    }
}

/// How many windows at the front of `s` were focused at `t` or later.
pub open spec fn leading_at_least(s: Seq<(isize, Seq<char>)>, t: i64, times: Map<isize, i64>) -> nat
    decreases s.len(),
{
    if s.len() == 0 {
        0
    } else if time_of(times, s[0].0) >= t {
        1 + leading_at_least(s.skip(1), t, times)
    } else {
        0
    }
}

/// `s` ordered most recently focused first; windows focused at the same
/// time keep their order, as a stable sort keeps them.
pub open spec fn by_recency(s: Seq<(isize, Seq<char>)>, times: Map<isize, i64>) -> Seq<(isize, Seq<char>)>
    decreases s.len(),
{
    if s.len() == 0 {
        s
    } else {
        let sorted = by_recency(s.drop_last(), times);
        sorted.insert(leading_at_least(sorted, time_of(times, s.last().0), times) as int, s.last())
    }
}

proof fn lemma_leading_at_least(s: Seq<(isize, Seq<char>)>, t: i64, times: Map<isize, i64>)
    ensures
        leading_at_least(s, t, times) <= s.len(),
        forall|j: int| 0 <= j < leading_at_least(s, t, times) ==> time_of(times, #[trigger] s[j].0) >= t,
        leading_at_least(s, t, times) < s.len() ==> time_of(times, s[leading_at_least(s, t, times) as int].0)
            < t,
    decreases s.len(),
{
    if s.len() > 0 && time_of(times, s[0].0) >= t {
        lemma_leading_at_least(s.skip(1), t, times);
        assert forall|j: int| 0 <= j < leading_at_least(s, t, times) implies time_of(times, #[trigger] s[j].0)
            >= t by {
            if j > 0 {
                assert(s.skip(1)[j - 1] == s[j]);
            }
        }
    }
}

/// Whether `s` runs from the most recently focused window to the least.
pub open spec fn recency_ordered(s: Seq<(isize, Seq<char>)>, times: Map<isize, i64>) -> bool {
    forall|i: int, j: int| 0 <= i < j < s.len() ==> time_of(times, #[trigger] s[i].0) >= time_of(times, #[trigger] s[j].0)
}

/// A dock item's windows are listed most recently focused first, and they
/// are the item's windows, each as often as before.
pub proof fn lemma_windows_most_recent_first(s: Seq<(isize, Seq<char>)>, times: Map<isize, i64>)
    ensures
        recency_ordered(by_recency(s, times), times),
        by_recency(s, times).to_multiset() == s.to_multiset(),
    decreases s.len(),
{
    broadcast use vstd::seq_lib::to_multiset_insert, vstd::seq_lib::to_multiset_build;

    if s.len() > 0 {
        let sorted = by_recency(s.drop_last(), times);
        lemma_windows_most_recent_first(s.drop_last(), times);
        let x = s.last();
        let t = time_of(times, x.0);
        let k = leading_at_least(sorted, t, times) as int;
        lemma_leading_at_least(sorted, t, times);
        let r = sorted.insert(k, x);
        assert forall|i: int, j: int| 0 <= i < j < r.len() implies time_of(times, #[trigger] r[i].0) >= time_of(
            times,
            #[trigger] r[j].0,
        ) by {
            if j < k {
                assert(r[i] == sorted[i] && r[j] == sorted[j]);
            } else if j == k {
                assert(r[i] == sorted[i] && r[j] == x);
            } else if i < k {
                assert(r[i] == sorted[i] && r[j] == sorted[j - 1]);
            } else if i == k {
                assert(r[i] == x && r[j] == sorted[j - 1]);
                assert(time_of(times, sorted[k].0) >= time_of(times, sorted[j - 1].0) || j - 1 == k);
            } else {
                assert(r[i] == sorted[i - 1] && r[j] == sorted[j - 1]);
            }
        }
        assert(s =~= s.drop_last().push(x));
    }
}

/// The views of some windows with their names.
pub open spec fn member_views(s: Seq<(isize, String)>) -> Seq<(isize, Seq<char>)> {
    s.map_values(|m: (isize, String)| (m.0, m.1@))
}

fn recency(times: &FocusTimes, hwnd: isize) -> (t: i64)
    ensures
        t == time_of(times@, hwnd),
{
    match times.get(hwnd) {
        Some(t) => *t,
        None => 0,
    }
}

/// Order a dock item's windows most recently focused first.
pub fn sort_by_recency(members: Vec<(isize, String)>, times: &FocusTimes) -> (r: Vec<(isize, String)>)
    ensures
        member_views(r@) == by_recency(member_views(members@), times@),
{
    let ghost all = member_views(members@);
    let mut sorted: Vec<(isize, String)> = Vec::new();
    let mut i: usize = 0;
    let n = members.len();
    let mut rest = members;
    assert(member_views(sorted@) =~= by_recency(all.take(0), times@));
    while rest.len() > 0
        invariant
            i <= n,
            all.len() == n,
            member_views(rest@) == all.skip(i as int),
            member_views(sorted@) == by_recency(all.take(i as int), times@),
        decreases rest.len(),
    {
        let ghost before = rest@;
        let x = rest.remove(0);
        proof {
            assert(member_views(before).len() == before.len());
            assert(member_views(before)[0] == all.skip(i as int)[0]);
            assert(member_views(rest@) =~= member_views(before).skip(1));
            assert(member_views(rest@) =~= all.skip(i + 1));
            assert(all.take(i + 1).drop_last() =~= all.take(i as int));
            assert(all.take(i + 1).last() == (x.0, x.1@));
        }
        let t = recency(times, x.0);
        let ghost views = member_views(sorted@);
        let mut k: usize = 0;
        assert(views.skip(0) =~= views);
        while k < sorted.len() && recency(times, sorted[k].0) >= t
            invariant
                k <= sorted.len(),
                views == member_views(sorted@),
                leading_at_least(views, t, times@) == k + leading_at_least(views.skip(k as int), t, times@),
            decreases sorted.len() - k,
        {
            proof {
                assert(views.skip(k as int)[0] == views[k as int]);
                assert(views.skip(k as int).skip(1) =~= views.skip(k + 1));
            }
            k = k + 1;
        }
        proof {
            if k < sorted.len() {
                assert(views.skip(k as int)[0] == views[k as int]);
            } else {
                assert(views.skip(k as int) =~= Seq::<(isize, Seq<char>)>::empty());
            }
        }
        sorted.insert(k, x);
        assert(member_views(sorted@) =~= views.insert(k as int, (x.0, x.1@)));
        i = i + 1;
    }
    assert(all.take(i as int) =~= all);
    sorted
}

/// A dock item as the Windows backend reports it.
pub open spec fn shows_win_group(a: AppInfo, g: WinGroup, times: Map<isize, i64>) -> bool {
    &&& a.name@ == g.name
    &&& a.path@ == g.path
    &&& a.icon is None
    &&& a.is_running
    &&& a.hwnd == Some(g.hwnd)
    &&& a.executable is None
    &&& a.all_hwnds matches Some(list) && member_views(list@) == by_recency(g.windows, times)
}

/// What the grouping loop has gathered matches the groups of the windows
/// seen so far.
spec fn group_matches(key: Vec<char>, first: (String, String, isize), list: Vec<(isize, String)>, g: WinGroup) -> bool {
    &&& key@ == g.key
    &&& first.0@ == g.name
    &&& first.1@ == g.path
    &&& first.2 == g.hwnd
    &&& member_views(list@) == g.windows
}

spec fn group_state(
    keys: Seq<Vec<char>>,
    firsts: Seq<(String, String, isize)>,
    members: Seq<Vec<(isize, String)>>,
    groups: Seq<WinGroup>,
) -> bool {
    &&& keys.len() == groups.len()
    &&& firsts.len() == groups.len()
    &&& members.len() == groups.len()
    &&& forall|m: int| 0 <= m < groups.len() ==> #[trigger] group_matches(keys[m], firsts[m], members[m], groups[m])
}

/// The Windows backend's dock items from its window listing: grouped per
/// application in the order each first appears, each group's windows
/// ordered most recently focused first.
pub fn group_windows(windows: &Vec<ListedWindow>, times: &FocusTimes) -> (apps: Vec<AppInfo>)
    ensures
        apps@.len() == win_groups(windows@).len(),
        forall|i: int| 0 <= i < apps@.len() ==> shows_win_group(#[trigger] apps@[i], win_groups(windows@)[i], times@),
{
    let mut keys: Vec<Vec<char>> = Vec::new();
    let mut firsts: Vec<(String, String, isize)> = Vec::new();
    let mut members: Vec<Vec<(isize, String)>> = Vec::new();
    let mut i: usize = 0;
    while i < windows.len()
        invariant
            i <= windows.len(),
            group_state(keys@, firsts@, members@, win_groups(windows@.take(i as int))),
        decreases windows.len() - i,
    {
        let ghost before = win_groups(windows@.take(i as int));
        proof {
            assert(windows@.take(i + 1).drop_last() =~= windows@.take(i as int));
            assert(windows@.take(i + 1).last() == windows@[i as int]);
        }
        let w = &windows[i];
        let key = group_key(w.path.as_str(), w.name.as_str());
        let mut g: usize = keys.len();
        let mut found: Option<usize> = None;
        proof {
            assert(before.take(keys@.len() as int) =~= before);
        }
        while g > 0
            invariant
                g <= keys@.len(),
                group_state(keys@, firsts@, members@, before),
                match found {
                    Some(f) => f < keys@.len() && win_group_index(before, key@) == f as int,
                    None => win_group_index(before, key@) == win_group_index(before.take(g as int), key@),
                },
            decreases g,
        {
            proof {
                assert(before.take(g as int).drop_last() =~= before.take(g - 1));
                assert(before.take(g as int).last() == before[g - 1]);
                assert(group_matches(keys@[g - 1], firsts@[g - 1], members@[g - 1], before[g - 1]));
            }
            if found.is_none() && crate::text::chars_eq(&keys[g - 1], &key) {
                found = Some(g - 1);
            }
            g = g - 1;
        }
        proof {
            lemma_win_group_index(before, key@);
            assert(before.take(0) =~= Seq::<WinGroup>::empty());
        }
        let member = (w.hwnd, owned(w.name.as_str()));
        let ghost old_members = members@;
        let ghost old_keys = keys@;
        let ghost old_firsts = firsts@;
        let ghost after = win_groups(windows@.take(i + 1));
        match found {
            Some(f) => {
                let mut list = members.remove(f);
                let ghost old_list = list@;
                list.push(member);
                members.insert(f, list);
                proof {
                    assert(members@ =~= old_members.update(f as int, list));
                    assert(member_views(old_list).len() == old_list.len());
                    assert(member_views(list@) =~= member_views(old_list).push((w.hwnd, w.name@)));
                    assert(group_matches(old_keys[f as int], old_firsts[f as int], old_members[f as int], before[f as int]));
                    assert forall|m: int| 0 <= m < after.len() implies #[trigger] group_matches(
                        keys@[m],
                        firsts@[m],
                        members@[m],
                        after[m],
                    ) by {
                        if m != f {
                            assert(group_matches(old_keys[m], old_firsts[m], old_members[m], before[m]));
                            assert(members@[m] == old_members[m]);
                        }
                    }
                }
            },
            None => {
                keys.push(key);
                firsts.push((owned(w.name.as_str()), owned(w.path.as_str()), w.hwnd));
                let mut first: Vec<(isize, String)> = Vec::new();
                first.push(member);
                members.push(first);
                proof {
                    assert(after =~= before.push(
                        WinGroup { key: key@, name: w.name@, path: w.path@, hwnd: w.hwnd, windows: seq![(w.hwnd, w.name@)] },
                    ));
                    assert(member_views(first@) =~= seq![(w.hwnd, w.name@)]);
                    assert forall|m: int| 0 <= m < after.len() implies #[trigger] group_matches(
                        keys@[m],
                        firsts@[m],
                        members@[m],
                        after[m],
                    ) by {
                        if m < after.len() - 1 {
                            assert(group_matches(old_keys[m], old_firsts[m], old_members[m], before[m]));
                            assert(members@[m] == old_members[m]);
                            assert(keys@[m] == old_keys[m]);
                            assert(firsts@[m] == old_firsts[m]);
                        }
                    }
                }
            },
        }
        i = i + 1;
    }
    assert(windows@.take(windows.len() as int) =~= windows@);
    let ghost groups = win_groups(windows@);
    let mut apps: Vec<AppInfo> = Vec::new();
    let mut g: usize = 0;
    while g < keys.len()
        invariant
            g <= keys@.len(),
            group_state(keys@, firsts@, members@, groups),
            apps@.len() == g,
            forall|m: int| 0 <= m < g ==> shows_win_group(#[trigger] apps@[m], groups[m], times@),
        decreases keys@.len() - g,
    {
        proof {
            assert(group_matches(keys@[g as int], firsts@[g as int], members@[g as int], groups[g as int]));
        }
        let list = sort_by_recency(clone_members(&members[g]), times);
        let app = AppInfo {
            name: owned(firsts[g].0.as_str()),
            path: owned(firsts[g].1.as_str()),
            icon: None,
            is_running: true,
            hwnd: Some(firsts[g].2),
            executable: None,
            all_hwnds: Some(list),
        };
        assert(shows_win_group(app, groups[g as int], times@));
        apps.push(app);
        g = g + 1;
    }
    apps
}

fn clone_members(members: &Vec<(isize, String)>) -> (r: Vec<(isize, String)>)
    ensures
        member_views(r@) == member_views(members@),
{
    let mut r: Vec<(isize, String)> = Vec::new();
    let mut i: usize = 0;
    while i < members.len()
        invariant
            i <= members.len(),
            member_views(r@) == member_views(members@).take(i as int),
        decreases members.len() - i,
    {
        let name = owned(members[i].1.as_str());
        let ghost before = r@;
        r.push((members[i].0, name));
        proof {
            assert(r@ == before.push((members@[i as int].0, name)));
            assert(member_views(before).len() == before.len());
            assert forall|j: int| 0 <= j < i + 1 implies member_views(r@)[j] == member_views(members@)[j] by {
                if j < i {
                    assert(r@[j] == before[j]);
                    assert(member_views(before)[j] == member_views(members@).take(i as int)[j]);
                }
            }
            assert(member_views(r@) =~= member_views(members@).take(i + 1));
        }
        i = i + 1;
    }
    assert(member_views(members@).take(i as int) =~= member_views(members@));
    r
}

/// Whether the start-menu scan keeps an item of the shell's applications
/// folder, by its display name: not an uninstaller, and named (the scan
/// names an item it cannot read "Unknown").
pub open spec fn shell_item_kept(name: Seq<char>) -> bool {
    !contains_seq(lowercase(name), "uninstall"@) && name.len() > 0 && name != "Unknown"@
}

/// Whether to keep an item of the applications folder.
pub fn keeps_shell_item(name: &str) -> (r: bool)
    ensures
        r == shell_item_kept(name@),
{
    let lower = to_lowercase(name);
    !contains_chars(&chars_of(lower.as_str()), &chars_of("uninstall")) && !name.is_empty() && !str_eq(
        name,
        "Unknown",
    )
}

/// The directories scanned for shortcuts and programs: the shared start
/// menu, the user's start menu and pinned taskbar items, the user's local
/// start menu and packaged-app aliases, and both desktops, each where its
/// environment variable is set.
pub open spec fn start_menu_roots_of(
    appdata: Option<Seq<char>>,
    local: Option<Seq<char>>,
    profile: Option<Seq<char>>,
) -> Seq<Seq<char>> {
    seq!["C:\\ProgramData\\Microsoft\\Windows\\Start Menu\\Programs"@] + (match appdata {
        Some(a) => seq![
            a + "\\Microsoft\\Windows\\Start Menu\\Programs"@,
            a + "\\Microsoft\\Internet Explorer\\Quick Launch\\User Pinned\\TaskBar"@,
        ],
        None => Seq::<Seq<char>>::empty(),
    }) + (match local {
        Some(l) => seq![l + "\\Microsoft\\Windows\\Start Menu\\Programs"@, l + "\\Microsoft\\WindowsApps"@],
        None => Seq::<Seq<char>>::empty(),
    }) + seq!["C:\\Users\\Public\\Desktop"@] + (match profile {
        Some(h) => seq![h + "\\Desktop"@],
        None => Seq::<Seq<char>>::empty(),
    })
}

fn appended(head: &str, tail: &str) -> (r: String)
    ensures
        r@ == head@ + tail@,
{
    crate::text::prefixed(head, tail)
}

/// The roots of the start-menu scan, given `APPDATA`, `LOCALAPPDATA` and
/// `USERPROFILE`.
pub fn start_menu_roots(appdata: Option<&str>, local: Option<&str>, profile: Option<&str>) -> (r: Vec<String>)
    ensures
        r@.map_values(|t: String| t@) == start_menu_roots_of(
            match appdata {
                Some(a) => Some(a@),
                None => None,
            },
            match local {
                Some(l) => Some(l@),
                None => None,
            },
            match profile {
                Some(h) => Some(h@),
                None => None,
            },
        ),
{
    let mut roots: Vec<String> = Vec::new();
    roots.push(owned("C:\\ProgramData\\Microsoft\\Windows\\Start Menu\\Programs"));
    if let Some(a) = appdata {
        roots.push(appended(a, "\\Microsoft\\Windows\\Start Menu\\Programs"));
        roots.push(appended(a, "\\Microsoft\\Internet Explorer\\Quick Launch\\User Pinned\\TaskBar"));
    }
    if let Some(l) = local {
        roots.push(appended(l, "\\Microsoft\\Windows\\Start Menu\\Programs"));
        roots.push(appended(l, "\\Microsoft\\WindowsApps"));
    }
    roots.push(owned("C:\\Users\\Public\\Desktop"));
    if let Some(h) = profile {
        roots.push(appended(h, "\\Desktop"));
    }
    assert(roots@.map_values(|t: String| t@) =~= start_menu_roots_of(
        match appdata {
            Some(a) => Some(a@),
            None => None,
        },
        match local {
            Some(l) => Some(l@),
            None => None,
        },
        match profile {
            Some(h) => Some(h@),
            None => None,
        },
    ));
    roots
}

/// How deep below a root the scan descends.
pub const MAX_SCAN_DEPTH: i32 = 10;

/// The application a scanned file stands for, by its name: shortcuts and
/// programs (`.lnk`, `.exe`, in any case), except uninstallers and
/// installers.
pub open spec fn scanned_name_of(path: Seq<char>) -> Option<Seq<char>> {
    match extension(slash_form(path)) {
        Some(ext) => {
            let e = lowercase(ext);
            if e == "lnk"@ || e == "exe"@ {
                match file_stem(slash_form(path)) {
                    Some(name) => if contains_seq(lowercase(name), "uninstall"@) || starts_with(name, "Install"@) {
                        None
                    } else {
                        Some(name)
                    },
                    None => None,
                }
            } else {
                None
            }
        },
        None => None,
    }
}

/// The name a file found by the scan is listed under, if it is listed.
pub fn scanned_name(path: &str) -> (r: Option<String>)
    ensures
        match r {
            Some(n) => scanned_name_of(path@) == Some(n@),
            None => scanned_name_of(path@) is None,
        },
{
    let slashed = slash_chars(&chars_of(path));
    let ext = match path_extension(&slashed) {
        Some(e) => e,
        None => return None,
    };
    let e = to_lowercase(string_of(&ext).as_str());
    if !(str_eq(e.as_str(), "lnk") || str_eq(e.as_str(), "exe")) {
        return None;
    }
    let name = match path_file_stem(&slashed) {
        Some(n) => n,
        None => return None,
    };
    let name_text = string_of(&name);
    let lower = to_lowercase(name_text.as_str());
    if contains_chars(&chars_of(lower.as_str()), &chars_of("uninstall")) || has_prefix(&name, &chars_of("Install")) {
        return None;
    }
    Some(name_text)
}

/// An application found by the start-menu scan.
pub struct ScannedApp {
    pub name: String,
    pub path: String,
}

/// Whether the scan already holds an application with this path or name.
pub open spec fn already_scanned(apps: Seq<ScannedApp>, name: Seq<char>, path: Seq<char>) -> bool {
    exists|i: int| 0 <= i < apps.len() && ((#[trigger] apps[i]).path@ == path || apps[i].name@ == name)
}

/// Add a scanned file's application unless one with the same path or the
/// same name is already there.
pub fn add_scanned(apps: &mut Vec<ScannedApp>, app: ScannedApp)
    ensures
        already_scanned(old(apps)@, app.name@, app.path@) ==> final(apps)@ == old(apps)@,
        !already_scanned(old(apps)@, app.name@, app.path@) ==> final(apps)@ == old(apps)@.push(app),
{
    let mut i: usize = 0;
    while i < apps.len()
        invariant
            i <= apps.len(),
            forall|j: int| 0 <= j < i ==> (#[trigger] apps@[j]).path@ != app.path@ && apps@[j].name@ != app.name@,
        decreases apps.len() - i,
    {
        if str_eq(apps[i].path.as_str(), app.path.as_str()) || str_eq(apps[i].name.as_str(), app.name.as_str()) {
            return;
        }
        i = i + 1;
    }
    apps.push(app);
}

/// Programs that update themselves into versioned folders next to a stub.
pub open spec fn self_updating(file_name_lower: Seq<char>) -> bool {
    ||| file_name_lower == "discord.exe"@
    ||| file_name_lower == "slack.exe"@
    ||| file_name_lower == "githubdesktop.exe"@
    ||| file_name_lower == "zentwilight.exe"@
}

/// Whether a missing program is one whose latest copy is looked for in its
/// versioned folders, by its lowercase file name.
pub fn is_self_updating(file_name_lower: &str) -> (r: bool)
    ensures
        r == self_updating(file_name_lower@),
{
    str_eq(file_name_lower, "discord.exe") || str_eq(file_name_lower, "slack.exe") || str_eq(
        file_name_lower,
        "githubdesktop.exe",
    ) || str_eq(file_name_lower, "zentwilight.exe")
}

/// A folder holding a version of a self-updating program.
pub open spec fn version_dir(name: Seq<char>, is_dir: bool) -> bool {
    is_dir && (starts_with(name, "app-"@) || starts_with(name, "current"@))
}

/// The latest version folder among a folder's entries (name, is a
/// directory): the last one by name, as sorting them and taking the last
/// finds it.
pub fn latest_version_dir(entries: &Vec<(String, bool)>) -> (r: Option<usize>)
    ensures
        match r {
            Some(b) => b < entries@.len() && version_dir(entries@[b as int].0@, entries@[b as int].1) && forall|j: int|
                0 <= j < entries@.len() && version_dir(entries@[j].0@, entries@[j].1) ==> text_le(
                    (#[trigger] entries@[j]).0@,
                    entries@[b as int].0@,
                ),
            None => forall|j: int| 0 <= j < entries@.len() ==> !version_dir((#[trigger] entries@[j]).0@, entries@[j].1),
        },
{
    let app = chars_of("app-");
    let current = chars_of("current");
    let mut best: Option<usize> = None;
    let mut i: usize = 0;
    while i < entries.len()
        invariant
            i <= entries@.len(),
            app@ == "app-"@,
            current@ == "current"@,
            match best {
                Some(b) => b < i && version_dir(entries@[b as int].0@, entries@[b as int].1) && forall|j: int|
                    0 <= j < i && version_dir(entries@[j].0@, entries@[j].1) ==> text_le(
                        (#[trigger] entries@[j]).0@,
                        entries@[b as int].0@,
                    ),
                None => forall|j: int| 0 <= j < i ==> !version_dir((#[trigger] entries@[j]).0@, entries@[j].1),
            },
        decreases entries@.len() - i,
    {
        let name = chars_of(entries[i].0.as_str());
        if entries[i].1 && (has_prefix(&name, &app) || has_prefix(&name, &current)) {
            match best {
                None => {
                    best = Some(i);
                    proof {
                        assert forall|j: int| 0 <= j < i + 1 && version_dir(entries@[j].0@, entries@[j].1) implies text_le(
                            (#[trigger] entries@[j]).0@,
                            entries@[i as int].0@,
                        ) by {
                            crate::text::lemma_text_le_reflexive(entries@[j].0@);
                        }
                    }
                },
                Some(b) => {
                    let current_best = chars_of(entries[b].0.as_str());
                    if chars_le(&current_best, &name) {
                        proof {
                            assert forall|j: int| 0 <= j < i + 1 && version_dir(entries@[j].0@, entries@[j].1) implies text_le(
                                (#[trigger] entries@[j]).0@,
                                entries@[i as int].0@,
                            ) by {
                                if j < i {
                                    lemma_text_le_transitive(entries@[j].0@, entries@[b as int].0@, entries@[i as int].0@);
                                } else {
                                    crate::text::lemma_text_le_reflexive(entries@[j].0@);
                                }
                            }
                        }
                        best = Some(i);
                    } else {
                        proof {
                            lemma_text_le_total(current_best@, name@);
                        }
                    }
                },
            }
        }
        i = i + 1;
    }
    best
}

/// The first whitespace-separated word of a text, as `split_whitespace`
/// yields it first.
pub open spec fn first_word(s: Seq<char>) -> Seq<char> {
    let rest = crate::text::strip_start(s, |c: char| is_white(c));
    rest.take(word_length(rest))
}

/// How many characters at the front of `s` are not whitespace.
pub open spec fn word_length(s: Seq<char>) -> int
    decreases s.len(),
{
    if s.len() == 0 || is_white(s[0]) {
        0
    } else {
        1 + word_length(s.drop_first())
    }
}

/// The web application a shortcut starts, when it is a browser's web-app
/// proxy or passes `--app-id=`: the first word after `--app-id=` in its
/// arguments, when there is one.
pub open spec fn web_app_id_of(target: Seq<char>, args: Seq<char>) -> Option<Seq<char>> {
    let lower = lowercase(target);
    if contains_seq(lower, "chrome_proxy.exe"@) || contains_seq(lower, "msedge_proxy.exe"@) || contains_seq(
        args,
        "--app-id="@,
    ) {
        match first_occurrence(args, "--app-id="@) {
            Some(i) => {
                let id = first_word(args.skip(i + 9));
                if id.len() > 0 {
                    Some(id)
                } else {
                    None
                }
            },
            None => None,
        }
    } else {
        None
    }
}

fn word_after(s: &[char], from: usize) -> (r: Vec<char>)
    requires
        from <= s.len(),
    ensures
        r@ == first_word(s@.skip(from as int)),
{
    let ghost rest = s@.skip(from as int);
    let mut start = from;
    while start < s.len() && is_whitespace(s[start])
        invariant
            from <= start <= s.len(),
            rest == s@.skip(from as int),
            crate::text::strip_start(rest, |c: char| is_white(c)) == crate::text::strip_start(
                s@.skip(start as int),
                |c: char| is_white(c),
            ),
        decreases s.len() - start,
    {
        proof {
            assert(s@.skip(start as int).drop_first() =~= s@.skip(start + 1));
            assert(s@.skip(start as int)[0] == s@[start as int]);
        }
        start = start + 1;
    }
    let ghost stripped = s@.skip(start as int);
    proof {
        if start < s.len() {
            assert(stripped[0] == s@[start as int]);
        }
        assert(crate::text::strip_start(stripped, |c: char| is_white(c)) == stripped);
    }
    let mut end = start;
    while end < s.len() && !is_whitespace(s[end])
        invariant
            start <= end <= s.len(),
            stripped == s@.skip(start as int),
            word_length(stripped) == (end - start) + word_length(s@.skip(end as int)),
        decreases s.len() - end,
    {
        proof {
            assert(s@.skip(end as int).drop_first() =~= s@.skip(end + 1));
            assert(s@.skip(end as int)[0] == s@[end as int]);
        }
        end = end + 1;
    }
    proof {
        if end < s.len() {
            assert(s@.skip(end as int)[0] == s@[end as int]);
        }
    }
    let word = slice_chars(s, start, end);
    assert(word@ =~= stripped.take(word_length(stripped)));
    word
}

/// The web application id of a shortcut's target and arguments.
pub fn web_app_id(target: &str, args: &str) -> (r: Option<String>)
    ensures
        match r {
            Some(id) => web_app_id_of(target@, args@) == Some(id@),
            None => web_app_id_of(target@, args@) is None,
        },
{
    let lower = chars_of(to_lowercase(target).as_str());
    let arg_chars = chars_of(args);
    let marker = chars_of("--app-id=");
    proof {
        reveal_strlit("--app-id=");
    }
    if !(contains_chars(&lower, &chars_of("chrome_proxy.exe")) || contains_chars(&lower, &chars_of("msedge_proxy.exe"))
        || contains_chars(&arg_chars, &marker)) {
        return None;
    }
    match find_text(&arg_chars, &marker) {
        Some(i) => {
            let id = word_after(&arg_chars, i + 9);
            if id.len() > 0 {
                Some(string_of(&id))
            } else {
                None
            }
        },
        None => None,
    }
}

/// Where Chrome and then Edge keep a web application's icon, under
/// `LOCALAPPDATA`.
pub open spec fn web_app_icons_of(local: Seq<char>, id: Seq<char>) -> Seq<Seq<char>> {
    seq![
        local + "\\Google\\Chrome\\User Data\\Default\\Web Applications\\_crx_"@ + id + "\\icon_256.png"@,
        local + "\\Microsoft\\Edge\\User Data\\Default\\Web Applications\\_crx_"@ + id + "\\icon_256.png"@,
    ]
}

/// The icon files of a web application, Chrome's first.
pub fn web_app_icons(local: &str, id: &str) -> (r: Vec<String>)
    ensures
        r@.map_values(|t: String| t@) == web_app_icons_of(local@, id@),
{
    let mut r: Vec<String> = Vec::new();
    let chrome = appended(
        appended(appended(local, "\\Google\\Chrome\\User Data\\Default\\Web Applications\\_crx_").as_str(), id).as_str(),
        "\\icon_256.png",
    );
    let edge = appended(
        appended(appended(local, "\\Microsoft\\Edge\\User Data\\Default\\Web Applications\\_crx_").as_str(), id).as_str(),
        "\\icon_256.png",
    );
    r.push(chrome);
    r.push(edge);
    assert(r@.map_values(|t: String| t@) =~= web_app_icons_of(local@, id@));
    r
}

/// Where a program named without a path is looked for, in order: VS Code
/// under the user's profile, Edge, Notepad and Explorer in their usual
/// places; nothing for other names.
pub open spec fn known_program_paths_of(name: Seq<char>, profile: Option<Seq<char>>) -> Seq<Seq<char>> {
    let lower = lowercase(name);
    if lower == "code"@ || lower == "code.exe"@ {
        match profile {
            Some(h) => seq![h + "\\AppData\\Local\\Programs\\Microsoft VS Code\\Code.exe"@],
            None => Seq::<Seq<char>>::empty(),
        }
    } else if lower == "msedge"@ || lower == "msedge.exe"@ {
        seq![
            "C:\\Program Files (x86)\\Microsoft\\Edge\\Application\\msedge.exe"@,
            "C:\\Program Files\\Microsoft\\Edge\\Application\\msedge.exe"@,
        ]
    } else if lower == "notepad"@ || lower == "notepad.exe"@ {
        seq!["C:\\Windows\\System32\\notepad.exe"@, "C:\\Windows\\notepad.exe"@]
    } else if lower == "explorer"@ || lower == "explorer.exe"@ {
        seq!["C:\\Windows\\explorer.exe"@]
    } else {
        Seq::<Seq<char>>::empty()
    }
}

/// The places a program named without a path is looked for.
pub fn known_program_paths(name: &str, profile: Option<&str>) -> (r: Vec<String>)
    ensures
        r@.map_values(|t: String| t@) == known_program_paths_of(
            name@,
            match profile {
                Some(h) => Some(h@),
                None => None,
            },
        ),
{
    let lower = to_lowercase(name);
    let l = lower.as_str();
    let mut r: Vec<String> = Vec::new();
    if str_eq(l, "code") || str_eq(l, "code.exe") {
        if let Some(h) = profile {
            r.push(appended(h, "\\AppData\\Local\\Programs\\Microsoft VS Code\\Code.exe"));
        }
    } else if str_eq(l, "msedge") || str_eq(l, "msedge.exe") {
        r.push(owned("C:\\Program Files (x86)\\Microsoft\\Edge\\Application\\msedge.exe"));
        r.push(owned("C:\\Program Files\\Microsoft\\Edge\\Application\\msedge.exe"));
    } else if str_eq(l, "notepad") || str_eq(l, "notepad.exe") {
        r.push(owned("C:\\Windows\\System32\\notepad.exe"));
        r.push(owned("C:\\Windows\\notepad.exe"));
    } else if str_eq(l, "explorer") || str_eq(l, "explorer.exe") {
        r.push(owned("C:\\Windows\\explorer.exe"));
    }
    assert(r@.map_values(|t: String| t@) =~= known_program_paths_of(
        name@,
        match profile {
            Some(h) => Some(h@),
            None => None,
        },
    ));
    r
}

/// What clicking a window's dock item does on Windows.
#[derive(Clone, Copy, Debug, PartialEq, Eq, Structural)]
pub enum WinFocusAction {
    /// Show a hidden window, restore it and bring it forward.
    Show,
    /// Restore a minimized window and bring it forward.
    Restore,
    /// Minimize the window.
    Minimize,
    /// Bring the window forward.
    Activate,
}

/// Whether a window counts as focused when its dock item is clicked: it is
/// the foreground window, or another window of its process is (Bloom's own
/// process aside), or it was focused within the last two seconds.
pub open spec fn counts_as_focused(
    target: isize,
    foreground: isize,
    foreground_pid: u32,
    target_pid: u32,
    own_pid: u32,
    focused_at: Option<i64>,
    now: i64,
) -> bool {
    ||| foreground != 0 && foreground == target
    ||| foreground != 0 && foreground_pid == target_pid && foreground_pid != 0 && foreground_pid != own_pid
    ||| focused_at matches Some(t) && now - t < 2000
}

/// The Windows dock's click on a window: show a hidden one, restore a
/// minimized one, minimize a focused one, otherwise bring it forward.
/// `foreground` is 0 when there is no foreground window; `times` holds when
/// each window was last focused.
pub fn focus_action(
    visible: bool,
    iconic: bool,
    target: isize,
    foreground: isize,
    foreground_pid: u32,
    target_pid: u32,
    own_pid: u32,
    times: &FocusTimes,
    now: i64,
) -> (r: WinFocusAction)
    ensures
        r == if !visible {
            WinFocusAction::Show
        } else if iconic {
            WinFocusAction::Restore
        } else if counts_as_focused(
            target,
            foreground,
            foreground_pid,
            target_pid,
            own_pid,
            if times@.contains_key(target) {
                Some(times@[target])
            } else {
                None
            },
            now,
        ) {
            WinFocusAction::Minimize
        } else {
            WinFocusAction::Activate
        },
{
    if !visible {
        return WinFocusAction::Show;
    }
    if iconic {
        return WinFocusAction::Restore;
    }
    let recent = match times.get(target) {
        Some(t) => (now as i128) - (*t as i128) < 2000,
        None => false,
    };
    if (foreground != 0 && foreground == target) || (foreground != 0 && foreground_pid == target_pid
        && foreground_pid != 0 && foreground_pid != own_pid) || recent {
        WinFocusAction::Minimize
    } else {
        WinFocusAction::Activate
    }
}

/// A rectangle on screen by position and size.
pub open spec fn within(p: (i32, i32), x: int, y: int, w: int, h: int) -> bool {
    p.0 >= x && p.0 <= x + w && p.1 >= y && p.1 <= y + h
}

/// A region the interface reports, already multiplied by its window's
/// scale: position relative to the window, and size, in physical pixels.
#[derive(Clone, Copy, Debug, PartialEq, Eq, Structural)]
pub struct ScaledRect {
    pub x: i32,
    pub y: i32,
    pub width: i32,
    pub height: i32,
}

/// Whether the pointer is over a reported region of a window at `origin`,
/// with `slack` pixels around it.
pub open spec fn over_region(p: (i32, i32), origin: (i32, i32), r: ScaledRect, slack: int) -> bool {
    within(p, origin.0 + r.x - slack, origin.1 + r.y - slack, r.width + 2 * slack, r.height + 2 * slack)
}

fn over_region_exec(p: (i32, i32), origin: (i32, i32), r: ScaledRect, slack: i64) -> (b: bool)
    requires
        0 <= slack <= 10,
    ensures
        b == over_region(p, origin, r, slack as int),
{
    let x = origin.0 as i64 + r.x as i64 - slack;
    let y = origin.1 as i64 + r.y as i64 - slack;
    let w = r.width as i64 + 2 * slack;
    let h = r.height as i64 + 2 * slack;
    (p.0 as i64) >= x && (p.0 as i64) <= x + w && (p.1 as i64) >= y && (p.1 as i64) <= y + h
}

/// The Windows backend's pointer watcher: what it last applied and reported,
/// and until when the dock and the top bar stay interactive after the
/// pointer leaves them (milliseconds on a monotonic clock).
pub struct CursorWatch {
    pub last_main_ignore: Option<bool>,
    pub last_dock_ignore: Option<bool>,
    pub last_edge_hover: Option<bool>,
    pub dock_until: Option<u64>,
    pub top_until: Option<u64>,
}

/// What one poll does to the dock window.
pub struct DockReport {
    /// `dock-edge-hover` to emit, if it changed.
    pub edge_hover: Option<bool>,
    /// Click-through to apply to the dock window, if it changed.
    pub ignore: Option<bool>,
}

/// The dock window's state as the Windows pointer watcher sees it: the
/// window's position and size, the dock's and an open menu's regions, and
/// the primary monitor.
pub struct DockScene {
    pub window: Option<(i32, i32, i32, i32)>,
    pub dock: Option<ScaledRect>,
    pub menu: Option<ScaledRect>,
    pub menu_open: bool,
    pub monitor: Option<(i32, i32, i32, i32)>,
    pub dock_hovered: bool,
}

/// Whether the pointer is over something in the dock window that takes
/// clicks: the dock's items (ten pixels of slack), or an open menu (five).
pub open spec fn dock_clickable(p: (i32, i32), s: DockScene) -> bool {
    match s.window {
        Some((wx, wy, ww, wh)) => {
            let over_dock = match s.dock {
                Some(d) => over_region(p, (wx, wy), d, 10),
                None => false,
            };
            let over_menu = match s.menu {
                Some(m) => s.menu_open && over_region(p, (wx, wy), m, 5),
                None => false,
            };
            within(p, wx as int, wy as int, ww as int, wh as int) && (over_dock || over_menu)
        },
        None => false,
    }
}

/// Whether the pointer is at the monitor's bottom edge (two pixels) or over
/// the dock, which keeps the dock revealed; nothing counts while the
/// monitor is unknown.
pub open spec fn dock_hot(p: (i32, i32), s: DockScene) -> bool {
    match s.monitor {
        Some((mx, my, mw, mh)) => (p.1 >= my + mh - 2 && p.0 >= mx && p.0 <= mx + mw) || s.dock_hovered,
        None => false,
    }
}

impl CursorWatch {
    /// Nothing applied or reported; both windows past their grace.
    pub fn new() -> (w: Self)
        ensures
            w.last_main_ignore is None,
            w.last_dock_ignore is None,
            w.last_edge_hover is None,
            w.dock_until is None,
            w.top_until is None,
    {
        CursorWatch { last_main_ignore: None, last_dock_ignore: None, last_edge_hover: None, dock_until: None, top_until: None }
    }

    /// One poll of the visible dock window at time `now`.
    pub fn dock_tick(&mut self, p: (i32, i32), scene: DockScene, now: u64) -> (r: DockReport)
        requires
            now + 500 <= u64::MAX,
        ensures
            ({
                let hot = dock_hot(p, scene);
                let until = if hot {
                    Some((now + 500) as u64)
                } else {
                    old(self).dock_until
                };
                let hover = hot || (until matches Some(u) && now < u);
                let ignore = !dock_clickable(p, scene) && !scene.menu_open;
                &&& final(self).dock_until == until
                &&& r.edge_hover == if old(self).last_edge_hover != Some(hover) {
                    Some(hover)
                } else {
                    None::<bool>
                }
                &&& final(self).last_edge_hover == Some(hover)
                &&& r.ignore == if old(self).last_dock_ignore != Some(ignore) {
                    Some(ignore)
                } else {
                    None::<bool>
                }
                &&& final(self).last_dock_ignore == Some(ignore)
            }),
            final(self).last_main_ignore == old(self).last_main_ignore,
            final(self).top_until == old(self).top_until,
    {
        let clickable = match scene.window {
            Some((wx, wy, ww, wh)) => {
                let inside = (p.0 as i64) >= (wx as i64) && (p.0 as i64) <= (wx as i64) + (ww as i64) && (p.1 as i64)
                    >= (wy as i64) && (p.1 as i64) <= (wy as i64) + (wh as i64);
                let over_dock = match scene.dock {
                    Some(d) => over_region_exec(p, (wx, wy), d, 10),
                    None => false,
                };
                let over_menu = scene.menu_open && match scene.menu {
                    Some(m) => over_region_exec(p, (wx, wy), m, 5),
                    None => false,
                };
                inside && (over_dock || over_menu)
            },
            None => false,
        };
        let hot = match scene.monitor {
            Some((mx, my, mw, mh)) => ((p.1 as i64) >= (my as i64) + (mh as i64) - 2 && p.0 >= mx && (p.0 as i64)
                <= (mx as i64) + (mw as i64)) || scene.dock_hovered,
            None => false,
        };
        if hot {
            self.dock_until = Some(now + 500);
        }
        let hover = hot || match self.dock_until {
            Some(u) => now < u,
            None => false,
        };
        let edge_hover = if self.last_edge_hover != Some(hover) {
            self.last_edge_hover = Some(hover);
            Some(hover)
        } else {
            None
        };
        let ignore = !clickable && !scene.menu_open;
        let ignore_change = if self.last_dock_ignore != Some(ignore) {
            self.last_dock_ignore = Some(ignore);
            Some(ignore)
        } else {
            None
        };
        DockReport { edge_hover, ignore: ignore_change }
    }

    /// One poll of the visible top bar at time `now`: it takes clicks while
    /// the pointer is inside its window (`window` as position and size, when
    /// known) and for half a second after. The click-through to apply is
    /// returned when it changed.
    pub fn main_tick(&mut self, p: (i32, i32), window: Option<(i32, i32, i32, i32)>, now: u64) -> (r: Option<bool>)
        requires
            now + 500 <= u64::MAX,
        ensures
            ({
                let interactive = match window {
                    Some((x, y, w, h)) => within(p, x as int, y as int, w as int, h as int),
                    None => false,
                };
                let until = if interactive {
                    Some((now + 500) as u64)
                } else {
                    old(self).top_until
                };
                let ignore = !interactive && !(until matches Some(u) && now < u);
                &&& final(self).top_until == until
                &&& r == if old(self).last_main_ignore != Some(ignore) {
                    Some(ignore)
                } else {
                    None::<bool>
                }
                &&& final(self).last_main_ignore == Some(ignore)
            }),
            final(self).last_dock_ignore == old(self).last_dock_ignore,
            final(self).last_edge_hover == old(self).last_edge_hover,
            final(self).dock_until == old(self).dock_until,
    {
        let interactive = match window {
            Some((x, y, w, h)) => (p.0 as i64) >= (x as i64) && (p.0 as i64) <= (x as i64) + (w as i64) && (p.1 as i64)
                >= (y as i64) && (p.1 as i64) <= (y as i64) + (h as i64),
            None => false,
        };
        if interactive {
            self.top_until = Some(now + 500);
        }
        let ignore = !interactive && !match self.top_until {
            Some(u) => now < u,
            None => false,
        };
        if self.last_main_ignore != Some(ignore) {
            self.last_main_ignore = Some(ignore);
            Some(ignore)
        } else {
            None
        }
    }
}

/// The process a media session's application id names: its text up to the
/// first `.`, in lowercase.
pub open spec fn media_source_process_of(app_id: Seq<char>) -> Seq<char> {
    let dot = crate::text::first_index_of(app_id, '.');
    lowercase(if dot < 0 {
        app_id
    } else {
        app_id.take(dot)
    })
}

/// The process name to look for when raising a media session's
/// application by its id.
pub fn media_source_process(app_id: &str) -> (r: String)
    ensures
        r@ == media_source_process_of(app_id@),
{
    let chars = chars_of(app_id);
    assert(chars@.skip(0) =~= chars@);
    let head = match crate::text::find_char_from(&chars, '.', 0) {
        Some(i) => {
            proof {
                crate::text::lemma_first_index_bounds(chars@, '.');
            }
            slice_chars(&chars, 0, i)
        },
        None => {
            assert(chars@.subrange(0, chars.len() as int) =~= chars@);
            slice_chars(&chars, 0, chars.len())
        },
    };
    proof {
        let dot = crate::text::first_index_of(app_id@, '.');
        if dot >= 0 {
            assert(head@ =~= app_id@.take(dot));
        }
    }
    to_lowercase(string_of(&head).as_str())
}

/// A process image's name as the media-source search compares it: the
/// path after its last `\\`, in lowercase, with every `.exe` taken out.
pub open spec fn image_process_name_of(path: Seq<char>) -> Seq<char> {
    let sep = crate::path::last_index_of(path, '\\');
    without_exe(lowercase(path.skip(sep + 1)))
}

/// Whether a window's process image is the media session's application.
pub fn is_media_source_process(path: &str, process_name: &str) -> (r: bool)
    ensures
        r == (image_process_name_of(path@) == process_name@),
{
    let chars = chars_of(path);
    proof {
        crate::path::lemma_last_index_bounds(chars@, '\\');
    }
    let start = match crate::path::rfind_char(&chars, '\\') {
        Some(i) => i + 1,
        None => 0,
    };
    let tail = slice_chars(&chars, start, chars.len());
    assert(tail@ =~= path@.skip(crate::path::last_index_of(path@, '\\') + 1));
    let lower = to_lowercase(string_of(&tail).as_str());
    let name = strip_exe(&chars_of(lower.as_str()));
    crate::text::chars_eq(&name, &chars_of(process_name))
}

} // verus!
