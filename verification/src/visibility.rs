//! Foreground-window awareness, so Bloom's dock and notch know when they are
//! covered: the geometry tests, the choice of the window that counts, and
//! when the watcher reports to the interface.
use vstd::prelude::*;

verus! {

/// Slack in pixels so a window edge resting exactly on a band does not flip
/// the dock in and out.
pub const PAD: i32 = 4;

/// Overlap flags are re-sent this often even when unchanged, in
/// milliseconds.
pub const RESYNC_MS: u64 = 3000;

/// A screen rectangle by its edges.
#[derive(Clone, Copy, Debug, PartialEq, Eq, Structural)]
pub struct Rect {
    pub left: i32,
    pub top: i32,
    pub right: i32,
    pub bottom: i32,
}

impl Rect {
    /// The rectangle at `(x, y)` with the given size.
    pub fn from_xywh(x: i32, y: i32, width: u32, height: u32) -> (r: Self)
        requires
            i32::MIN <= x + (width as i32) <= i32::MAX,
            i32::MIN <= y + (height as i32) <= i32::MAX,
        ensures
            r.left == x,
            r.top == y,
            r.right == x + (width as i32),
            r.bottom == y + (height as i32),
    {
        Rect { left: x, top: y, right: x + width as i32, bottom: y + height as i32 }
    }
}

/// Whether `window` reaches into the dock's band at the bottom of the screen
/// and overlaps the dock's span.
pub open spec fn covers_dock_spec(window: Rect, dock: Rect, screen: Rect, band: int) -> bool {
    &&& window.left < dock.right - PAD
    &&& window.right > dock.left + PAD
    &&& window.bottom > screen.bottom - band + PAD
}

/// Whether `window` reaches into the notch's band at the top of the screen
/// and overlaps the notch's span.
pub open spec fn covers_notch_spec(window: Rect, notch: Rect, screen: Rect, band: int) -> bool {
    &&& window.left < notch.right - PAD
    &&& window.right > notch.left + PAD
    &&& window.top < screen.top + band - PAD
}

/// A window filling the screen covers the dock and the notch, wherever on
/// the screen they sit, as long as each is wider than the slack on both
/// sides and each band is deeper than the slack.
pub proof fn lemma_full_screen_window_covers_both(screen: Rect, dock: Rect, notch: Rect, dock_band: int, notch_band: int)
    requires
        screen.left <= dock.left,
        dock.right <= screen.right,
        dock.right - dock.left > 2 * PAD,
        screen.left <= notch.left,
        notch.right <= screen.right,
        notch.right - notch.left > 2 * PAD,
        dock_band > PAD,
        notch_band > PAD,
    ensures
        covers_dock_spec(screen, dock, screen, dock_band),
        covers_notch_spec(screen, notch, screen, notch_band),
{
}

/// Whether `window` reaches into the dock's band at the bottom of the screen.
pub fn covers_dock(window: Rect, dock: Rect, screen: Rect, band: i32) -> (r: bool)
    ensures
        r == covers_dock_spec(window, dock, screen, band as int),
{
    let pad = PAD as i64;
    (window.left as i64) < (dock.right as i64) - pad && (window.right as i64) > (dock.left as i64)
        + pad && (window.bottom as i64) > (screen.bottom as i64) - (band as i64) + pad
}

/// Whether `window` reaches into the notch's band at the top of the screen.
pub fn covers_notch(window: Rect, notch: Rect, screen: Rect, band: i32) -> (r: bool)
    ensures
        r == covers_notch_spec(window, notch, screen, band as int),
{
    let pad = PAD as i64;
    (window.left as i64) < (notch.right as i64) - pad && (window.right as i64) > (notch.left as i64)
        + pad && (window.top as i64) < (screen.top as i64) + (band as i64) - pad
}

/// A window only covers the dock when it overlaps the dock's span on both
/// sides and reaches down into the dock's band, each by more than the slack:
/// a window lying to the right of the dock, to its left, or above its band
/// leaves it uncovered, and a window doing all three covers it.
pub proof fn lemma_dock_cover_needs_overlap(window: Rect, dock: Rect, screen: Rect, band: int)
    ensures
        window.left >= dock.right - PAD ==> !covers_dock_spec(window, dock, screen, band),
        window.right <= dock.left + PAD ==> !covers_dock_spec(window, dock, screen, band),
        window.bottom <= screen.bottom - band + PAD ==> !covers_dock_spec(window, dock, screen, band),
        dock.left + PAD < window.right && window.left < dock.right - PAD && screen.bottom - band
            + PAD < window.bottom ==> covers_dock_spec(window, dock, screen, band),
{
}

/// Likewise the notch: a window to either side of its span, or below its
/// band, leaves it uncovered, and one overlapping both sides and reaching
/// up into the band covers it.
pub proof fn lemma_notch_cover_needs_overlap(window: Rect, notch: Rect, screen: Rect, band: int)
    ensures
        window.left >= notch.right - PAD ==> !covers_notch_spec(window, notch, screen, band),
        window.right <= notch.left + PAD ==> !covers_notch_spec(window, notch, screen, band),
        window.top >= screen.top + band - PAD ==> !covers_notch_spec(window, notch, screen, band),
        notch.left + PAD < window.right && window.left < notch.right - PAD && window.top
            < screen.top + band - PAD ==> covers_notch_spec(window, notch, screen, band),
{
}

/// Growing a window never uncovers the dock or the notch: a window that
/// contains a covering window covers too.
pub proof fn lemma_larger_window_still_covers(small: Rect, large: Rect, region: Rect, screen: Rect, band: int)
    requires
        large.left <= small.left,
        large.top <= small.top,
        small.right <= large.right,
        small.bottom <= large.bottom,
    ensures
        covers_dock_spec(small, region, screen, band) ==> covers_dock_spec(large, region, screen, band),
        covers_notch_spec(small, region, screen, band) ==> covers_notch_spec(large, region, screen, band),
{
}

/// The screen and the two regions Bloom places on it, with the band heights
/// at the current scale.
pub struct Regions {
    pub screen: Rect,
    pub dock: Option<Rect>,
    pub notch: Option<Rect>,
    pub dock_band: i32,
    pub notch_band: i32,
}

/// What the dock and notch should react to.
#[derive(Clone, Copy, Debug, PartialEq, Eq, Structural)]
pub struct Flags {
    pub dock: bool,
    pub notch: bool,
    pub fullscreen: bool,
}

/// What is known about the foreground window.
pub struct ForegroundState {
    pub fullscreen: bool,
    pub maximized_horizontally: bool,
    pub maximized_vertically: bool,
    /// Root-relative `(x, y, width, height)`, when it could be read.
    pub geometry: Option<(i32, i32, u32, u32)>,
}

/// The window the dock and notch react to: a real window other than the
/// root, on screen, not Bloom's own, not skipping the taskbar, and not the
/// desktop, a panel or a splash screen.
pub open spec fn counts_as_foreground(
    window: u32,
    root: u32,
    on_screen: bool,
    pid: Option<u32>,
    own_pid: u32,
    skips_taskbar: bool,
    shell_type: bool,
) -> bool {
    &&& window != 0
    &&& window != root
    &&& on_screen
    &&& pid != Some(own_pid)
    &&& !skips_taskbar
    &&& !shell_type
}

/// Whether the active window is one the dock and notch should react to.
pub fn is_foreground(
    window: u32,
    root: u32,
    on_screen: bool,
    pid: Option<u32>,
    own_pid: u32,
    skips_taskbar: bool,
    shell_type: bool,
) -> (r: bool)
    ensures
        r == counts_as_foreground(window, root, on_screen, pid, own_pid, skips_taskbar, shell_type),
{
    window != 0 && window != root && on_screen && pid != Some(own_pid) && !skips_taskbar && !shell_type
}

/// The flags for a foreground window: a fullscreen or maximized window
/// covers both; otherwise its geometry decides, and nothing is covered
/// when there is no foreground window or no geometry.
pub open spec fn flags_of(foreground: Option<ForegroundState>, regions: Regions) -> Flags {
    match foreground {
        None => Flags { dock: false, notch: false, fullscreen: false },
        Some(f) => if f.fullscreen || (f.maximized_horizontally && f.maximized_vertically) {
            Flags { dock: true, notch: true, fullscreen: f.fullscreen }
        } else {
            match f.geometry {
                None => Flags { dock: false, notch: false, fullscreen: false },
                Some((x, y, w, h)) => {
                    let window = Rect {
                        left: x,
                        top: y,
                        right: (x + (w as i32)) as i32,
                        bottom: (y + (h as i32)) as i32,
                    };
                    Flags {
                        dock: match regions.dock {
                            Some(d) => covers_dock_spec(window, d, regions.screen, regions.dock_band as int),
                            None => false,
                        },
                        notch: match regions.notch {
                            Some(n) => covers_notch_spec(
                                window,
                                n,
                                regions.screen,
                                regions.notch_band as int,
                            ),
                            None => false,
                        },
                        fullscreen: false,
                    }
                },
            }
        },
    }
}

/// Decide the overlap flags for the foreground window.
pub fn compute(foreground: Option<ForegroundState>, regions: &Regions) -> (f: Flags)
    requires
        foreground matches Some(s) ==> (s.geometry matches Some((x, y, w, h)) ==> (i32::MIN <= x
            + (w as i32) <= i32::MAX && i32::MIN <= y + (h as i32) <= i32::MAX)),
    ensures
        f == flags_of(foreground, *regions),
{
    match foreground {
        None => Flags { dock: false, notch: false, fullscreen: false },
        Some(state) => {
            let maximized = state.maximized_horizontally && state.maximized_vertically;
            if state.fullscreen || maximized {
                return Flags { dock: true, notch: true, fullscreen: state.fullscreen };
            }
            match state.geometry {
                None => Flags { dock: false, notch: false, fullscreen: false },
                Some((x, y, width, height)) => {
                    let window = Rect::from_xywh(x, y, width, height);
                    let dock = match regions.dock {
                        Some(d) => covers_dock(window, d, regions.screen, regions.dock_band),
                        None => false,
                    };
                    let notch = match regions.notch {
                        Some(n) => covers_notch(window, n, regions.screen, regions.notch_band),
                        None => false,
                    };
                    Flags { dock, notch, fullscreen: false }
                },
            }
        },
    }
}

/// What the overlap watcher has last reported.
pub struct OverlapWatch {
    pub last_dock: Option<bool>,
    pub last_notch: Option<bool>,
    pub last_chrome: Option<bool>,
    /// Set at start and never cleared, so the dock and notch flags are sent
    /// on every tick.
    pub first_tick: bool,
}

/// What one tick of the overlap watcher publishes.
pub struct OverlapReport {
    /// The dock overlap Bloom records: covered and the dock is showing.
    pub dock_overlap: bool,
    /// `dock-overlap` to emit, if any; emitting restarts the resync timer.
    pub emit_dock: Option<bool>,
    /// `notch-overlap` to emit, if any.
    pub emit_notch: Option<bool>,
    /// `visibility-change` to emit, if any: whether Bloom's chrome shows.
    pub emit_chrome: Option<bool>,
}

impl OverlapWatch {
    /// A watcher that has reported nothing yet.
    pub fn new() -> (w: Self)
        ensures
            w.last_dock is None,
            w.last_notch is None,
            w.last_chrome is None,
            w.first_tick,
    {
        OverlapWatch { last_dock: None, last_notch: None, last_chrome: None, first_tick: true }
    }

    /// One tick: `resync` tells whether the resync interval has passed since
    /// the dock flag was last sent.
    pub fn tick(&mut self, flags: Flags, dock_visible: bool, resync: bool) -> (r: OverlapReport)
        ensures
            r.dock_overlap == (flags.dock && dock_visible),
            r.emit_dock == if old(self).first_tick || old(self).last_dock != Some(r.dock_overlap)
                || resync {
                Some(r.dock_overlap)
            } else {
                None::<bool>
            },
            r.emit_notch == if old(self).first_tick || old(self).last_notch != Some(flags.notch)
                || resync {
                Some(flags.notch)
            } else {
                None::<bool>
            },
            r.emit_chrome == if old(self).last_chrome != Some(!flags.fullscreen) {
                Some(!flags.fullscreen)
            } else {
                None::<bool>
            },
            final(self).first_tick == old(self).first_tick,
            final(self).last_dock == if r.emit_dock is Some {
                Some(r.dock_overlap)
            } else {
                old(self).last_dock
            },
            final(self).last_notch == if r.emit_notch is Some {
                Some(flags.notch)
            } else {
                old(self).last_notch
            },
            final(self).last_chrome == Some(!flags.fullscreen),
    {
        let dock_overlap = flags.dock && dock_visible;
        let emit_dock = if self.first_tick || self.last_dock != Some(dock_overlap) || resync {
            self.last_dock = Some(dock_overlap);
            Some(dock_overlap)
        } else {
            None
        };
        let emit_notch = if self.first_tick || self.last_notch != Some(flags.notch) || resync {
            self.last_notch = Some(flags.notch);
            Some(flags.notch)
        } else {
            None
        };
        let chrome = !flags.fullscreen;
        let emit_chrome = if self.last_chrome != Some(chrome) {
            self.last_chrome = Some(chrome);
            Some(chrome)
        } else {
            None
        };
        OverlapReport { dock_overlap, emit_dock, emit_notch, emit_chrome }
    }
}

} // verus!
