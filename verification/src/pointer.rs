//! Pointer handling for Bloom's oversized transparent windows: screen-edge
//! hover with a short linger, and which windows accept pointer input.
//!
//! Times are milliseconds on a monotonic clock.
use vstd::prelude::*;

verus! {

/// Thickness of the hot border at each screen edge.
pub const EDGE: i32 = 8;

/// How long an edge stays hot after the pointer leaves it.
pub const EDGE_LINGER_MS: u64 = 500;

/// A window only becomes safe to control this long after it is first seen
/// visible.
pub const REALIZE_GRACE_MS: u64 = 500;

/// A hot edge with a short linger, plus the last value reported to the
/// interface.
pub struct Latch {
    pub until: Option<u64>,
    pub reported: Option<bool>,
}

impl Latch {
    /// A cold latch that has reported nothing.
    pub fn new() -> (l: Self)
        ensures
            l.until is None,
            l.reported is None,
    {
        Latch { until: None, reported: None }
    }

    /// `hot` is the instantaneous edge test. The result stays true for
    /// `EDGE_LINGER_MS` after it drops, so an approach is not cancelled
    /// partway.
    pub fn value(&mut self, hot: bool, now: u64) -> (r: bool)
        requires
            hot ==> now + EDGE_LINGER_MS <= u64::MAX,
        ensures
            ({
                let until = if hot {
                    Some((now + EDGE_LINGER_MS) as u64)
                } else {
                    old(self).until
                };
                &&& r == (until matches Some(u) && now < u)
                &&& final(self).until == if r {
                    until
                } else {
                    None
                }
            }),
            final(self).reported == old(self).reported,
    {
        if hot {
            self.until = Some(now + EDGE_LINGER_MS);
        }
        match self.until {
            Some(until) if now < until => true,
            _ => {
                self.until = None;
                false
            },
        }
    }

    /// True only when the value differs from the last one reported; the
    /// value becomes the last one reported.
    pub fn changed(&mut self, value: bool) -> (r: bool)
        ensures
            r == (old(self).reported != Some(value)),
            final(self).reported == Some(value),
            final(self).until == old(self).until,
    {
        if self.reported == Some(value) {
            return false;
        }
        self.reported = Some(value);
        true
    }
}

/// Whether the pointer is on the monitor `(x, y, width, height)`, edges
/// included.
pub open spec fn on_monitor_spec(pointer: (i32, i32), monitor: (i32, i32, i32, i32)) -> bool {
    let (x, y) = pointer;
    let (mx, my, mw, mh) = monitor;
    x >= mx && x <= mx + mw && y >= my && y <= my + mh
}

/// Pointer coordinates are reported in the same space as the monitor
/// geometry, so the edge tests compare directly.
pub fn on_monitor(pointer: (i32, i32), monitor: (i32, i32, i32, i32)) -> (r: bool)
    ensures
        r == on_monitor_spec(pointer, monitor),
{
    let (x, y) = pointer;
    let (mx, my, mw, mh) = monitor;
    x >= mx && (x as i64) <= (mx as i64) + (mw as i64) && y >= my && (y as i64) <= (my as i64) + (
    mh as i64)
}

/// The instantaneous edge tests.
pub struct EdgeHeat {
    pub dock: bool,
    pub notch: bool,
    pub volume: bool,
    pub brightness: bool,
}

/// The edges the pointer is at: the bottom edge (or hovering the dock)
/// reveals the dock; the top edge (or hovering the notch) the notch; the
/// left edge the volume display and the right edge the brightness display.
/// Everything but the dock is suppressed while a window is fullscreen.
pub open spec fn heat_of(
    pointer: (i32, i32),
    monitor: (i32, i32, i32, i32),
    fullscreen: bool,
    dock_hovered: bool,
    notch_hovered: bool,
) -> EdgeHeat {
    let (x, y) = pointer;
    let (mx, my, mw, mh) = monitor;
    let on = on_monitor_spec(pointer, monitor);
    EdgeHeat {
        dock: on && (y >= my + mh - EDGE || dock_hovered),
        notch: !fullscreen && on && (y <= my + EDGE || notch_hovered),
        volume: !fullscreen && on && y >= my && y <= my + mh && x <= mx + EDGE,
        brightness: !fullscreen && on && y >= my && y <= my + mh && x >= mx + mw - EDGE,
    }
}

/// The instantaneous edge tests for a pointer position.
pub fn edge_heat(
    pointer: (i32, i32),
    monitor: (i32, i32, i32, i32),
    fullscreen: bool,
    dock_hovered: bool,
    notch_hovered: bool,
) -> (h: EdgeHeat)
    ensures
        h == heat_of(pointer, monitor, fullscreen, dock_hovered, notch_hovered),
{
    let (x, y) = pointer;
    let (mx, my, mw, mh) = monitor;
    let on = on_monitor(pointer, monitor);
    let (x, y, mx, my, mw, mh) = (x as i64, y as i64, mx as i64, my as i64, mw as i64, mh as i64);
    let edge = EDGE as i64;
    EdgeHeat {
        dock: on && (y >= my + mh - edge || dock_hovered),
        notch: !fullscreen && on && (y <= my + edge || notch_hovered),
        volume: !fullscreen && on && y >= my && y <= my + mh && x <= mx + edge,
        brightness: !fullscreen && on && y >= my && y <= my + mh && x >= mx + mw - edge,
    }
}

/// What reveals each edge. Off the monitor nothing is hot. On it, hovering
/// the dock, or reaching the bottom edge, makes the dock hot, fullscreen or
/// not; hovering the notch or reaching the top edge makes the notch hot
/// unless a window is fullscreen; and while one is, only the dock can be hot.
pub proof fn lemma_what_reveals_each_edge(
    pointer: (i32, i32),
    monitor: (i32, i32, i32, i32),
    fullscreen: bool,
    dock_hovered: bool,
    notch_hovered: bool,
)
    ensures
        ({
            let h = heat_of(pointer, monitor, fullscreen, dock_hovered, notch_hovered);
            &&& !on_monitor_spec(pointer, monitor) ==> !h.dock && !h.notch && !h.volume && !h.brightness
            &&& on_monitor_spec(pointer, monitor) && dock_hovered ==> h.dock
            &&& on_monitor_spec(pointer, monitor) && pointer.1 >= monitor.1 + monitor.3 - EDGE ==> h.dock
            &&& on_monitor_spec(pointer, monitor) && !fullscreen && notch_hovered ==> h.notch
            &&& on_monitor_spec(pointer, monitor) && !fullscreen && pointer.1 <= monitor.1 + EDGE ==> h.notch
            &&& fullscreen ==> !h.notch && !h.volume && !h.brightness
            &&& h.dock && !dock_hovered ==> pointer.1 >= monitor.1 + monitor.3 - EDGE
            &&& h.notch && !notch_hovered ==> pointer.1 <= monitor.1 + EDGE
            &&& h.volume ==> pointer.0 <= monitor.0 + EDGE
            &&& h.brightness ==> pointer.0 >= monitor.0 + monitor.2 - EDGE
        }),
{
}

/// Hovering never cools an edge: with the dock or the notch hovered, every
/// edge that was hot without the hover is still hot.
pub proof fn lemma_hover_only_adds_heat(
    pointer: (i32, i32),
    monitor: (i32, i32, i32, i32),
    fullscreen: bool,
    dock_hovered: bool,
    notch_hovered: bool,
)
    ensures
        heat_of(pointer, monitor, fullscreen, false, notch_hovered).dock ==> heat_of(
            pointer,
            monitor,
            fullscreen,
            dock_hovered,
            notch_hovered,
        ).dock,
        heat_of(pointer, monitor, fullscreen, dock_hovered, false).notch ==> heat_of(
            pointer,
            monitor,
            fullscreen,
            dock_hovered,
            notch_hovered,
        ).notch,
{
}

/// The four edge latches.
pub struct Edges {
    pub dock: Latch,
    pub notch: Latch,
    pub volume: Latch,
    pub brightness: Latch,
}

/// The hover events one poll reports, each only when it changed.
pub struct EdgeEvents {
    pub dock: Option<bool>,
    pub notch: Option<bool>,
    pub volume: Option<bool>,
    pub brightness: Option<bool>,
}

/// When a latch stops being hot, given the instantaneous edge test at `now`.
pub open spec fn latch_until(l: Latch, hot: bool, now: u64) -> Option<u64> {
    if hot {
        Some((now + EDGE_LINGER_MS) as u64)
    } else {
        l.until
    }
}

/// A latch's lingering value at `now`.
pub open spec fn latch_value(l: Latch, hot: bool, now: u64) -> bool {
    latch_until(l, hot, now) matches Some(u) && now < u
}

/// A latch after a reading at `now`, its value reported.
pub open spec fn latch_after(l: Latch, hot: bool, now: u64) -> Latch {
    let v = latch_value(l, hot, now);
    Latch {
        until: if v {
            latch_until(l, hot, now)
        } else {
            None
        },
        reported: Some(v),
    }
}

/// Run one latch: its lingering value, and the event to report if that
/// value differs from the last one reported.
pub open spec fn latch_report(l: Latch, hot: bool, now: u64) -> Option<bool> {
    let v = latch_value(l, hot, now);
    if l.reported != Some(v) {
        Some(v)
    } else {
        None
    }
}

/// An edge stays hot for `EDGE_LINGER_MS` after the pointer leaves it:
/// after a hot reading at `t`, a cold reading at `later` still reads hot
/// exactly while `later` is within the linger.
pub proof fn lemma_edge_lingers(l: Latch, t: u64, later: u64)
    requires
        t + EDGE_LINGER_MS <= u64::MAX,
    ensures
        latch_value(latch_after(l, true, t), false, later) == (later < t + EDGE_LINGER_MS),
        latch_value(l, true, t),
{
}

/// Only transitions are reported: a reading whose value equals the one just
/// reported reports nothing.
pub proof fn lemma_latch_reports_only_transitions(l: Latch, hot: bool, now: u64, hot2: bool, now2: u64)
    requires
        latch_value(l, hot, now) == latch_value(latch_after(l, hot, now), hot2, now2),
    ensures
        latch_report(latch_after(l, hot, now), hot2, now2) is None,
{
}

fn run_latch(latch: &mut Latch, hot: bool, now: u64) -> (r: Option<bool>)
    requires
        now + EDGE_LINGER_MS <= u64::MAX,
    ensures
        r == latch_report(*old(latch), hot, now),
        *final(latch) == latch_after(*old(latch), hot, now),
{
    let v = latch.value(hot, now);
    if latch.changed(v) {
        Some(v)
    } else {
        None
    }
}

impl Edges {
    /// Cold edges that have reported nothing.
    pub fn new() -> (e: Self)
        ensures
            e.dock.until is None && e.dock.reported is None,
            e.notch.until is None && e.notch.reported is None,
            e.volume.until is None && e.volume.reported is None,
            e.brightness.until is None && e.brightness.reported is None,
    {
        Edges { dock: Latch::new(), notch: Latch::new(), volume: Latch::new(), brightness: Latch::new() }
    }

    /// Report each edge transition the interface listens for. The dock and
    /// notch edges are only tracked while their windows are visible.
    pub fn apply(
        &mut self,
        heat: EdgeHeat,
        dock_visible: bool,
        notch_visible: bool,
        now: u64,
    ) -> (r: EdgeEvents)
        requires
            now + EDGE_LINGER_MS <= u64::MAX,
        ensures
            r.dock == if dock_visible {
                latch_report(old(self).dock, heat.dock, now)
            } else {
                None::<bool>
            },
            r.notch == if notch_visible {
                latch_report(old(self).notch, heat.notch, now)
            } else {
                None::<bool>
            },
            r.volume == latch_report(old(self).volume, heat.volume, now),
            r.brightness == latch_report(old(self).brightness, heat.brightness, now),
            final(self).dock == if dock_visible {
                latch_after(old(self).dock, heat.dock, now)
            } else {
                old(self).dock
            },
            final(self).notch == if notch_visible {
                latch_after(old(self).notch, heat.notch, now)
            } else {
                old(self).notch
            },
            final(self).volume == latch_after(old(self).volume, heat.volume, now),
            final(self).brightness == latch_after(old(self).brightness, heat.brightness, now),
    {
        let dock = if dock_visible {
            run_latch(&mut self.dock, heat.dock, now)
        } else {
            None
        };
        let notch = if notch_visible {
            run_latch(&mut self.notch, heat.notch, now)
        } else {
            None
        };
        let volume = run_latch(&mut self.volume, heat.volume, now);
        let brightness = run_latch(&mut self.brightness, heat.brightness, now);
        EdgeEvents { dock, notch, volume, brightness }
    }
}

/// Pointer-region state of one of Bloom's windows.
pub struct Region {
    /// When the window was first seen visible.
    pub realized_at: Option<u64>,
    /// The click-through value last applied.
    pub applied: Option<bool>,
}

impl Region {
    /// A window not yet seen.
    pub fn new() -> (r: Self)
        ensures
            r.realized_at is None,
            r.applied is None,
    {
        Region { realized_at: None, applied: None }
    }

    /// Whether to change the window's click-through setting, and to what.
    ///
    /// Hidden windows are left alone; a window is first left alone for the
    /// realize grace period after it appears; and an unchanged value is not
    /// sent again. `interactive` is whether the pointer is over a region
    /// that accepts input.
    pub fn decide(&mut self, visible: bool, interactive: bool, now: u64) -> (r: Option<bool>)
        ensures
            !visible ==> r is None && *final(self) == *old(self),
            visible ==> final(self).realized_at == Some(
                match old(self).realized_at {
                    Some(t) => t,
                    None => now,
                },
            ),
            visible ==> r == {
                let first = match old(self).realized_at {
                    Some(t) => t,
                    None => now,
                };
                if now < first + REALIZE_GRACE_MS {
                    None
                } else if old(self).applied == Some(!interactive) {
                    None
                } else {
                    Some(!interactive)
                }
            },
            final(self).applied == old(self).applied,
    {
        if !visible {
            return None;
        }
        let first = match self.realized_at {
            Some(t) => t,
            None => {
                self.realized_at = Some(now);
                now
            },
        };
        if (now as u128) < (first as u128) + (REALIZE_GRACE_MS as u128) {
            return None;
        }
        let ignore = !interactive;
        if self.applied == Some(ignore) {
            return None;
        }
        Some(ignore)
    }

    /// Record a click-through value that was applied successfully.
    pub fn confirm(&mut self, ignore: bool)
        ensures
            final(self).applied == Some(ignore),
            final(self).realized_at == old(self).realized_at,
    {
        self.applied = Some(ignore);
    }
}

/// Whether a window accepts pointer input: when the pointer is on the
/// screen edge its controls sit against, over its control region, or over
/// an open menu's region.
pub open spec fn interactive_spec(at_edge: bool, over_control: bool, menu_open: bool, over_menu: bool) -> bool {
    at_edge || over_control || (menu_open && over_menu)
}

/// Whether a window accepts pointer input.
pub fn interactive(at_edge: bool, over_control: bool, menu_open: bool, over_menu: bool) -> (r: bool)
    ensures
        r == interactive_spec(at_edge, over_control, menu_open, over_menu),
{
    at_edge || over_control || (menu_open && over_menu)
}

/// Whether the pointer is on the bottom edge of the monitor.
pub fn at_bottom(pointer_y: i32, monitor: (i32, i32, i32, i32)) -> (r: bool)
    ensures
        r == (pointer_y >= monitor.1 + monitor.3 - EDGE),
{
    (pointer_y as i64) >= (monitor.1 as i64) + (monitor.3 as i64) - (EDGE as i64)
}

/// Whether the pointer is on the top edge of the monitor.
pub fn at_top(pointer_y: i32, monitor: (i32, i32, i32, i32)) -> (r: bool)
    ensures
        r == (pointer_y <= monitor.1 + EDGE),
{
    (pointer_y as i64) <= (monitor.1 as i64) + (EDGE as i64)
}

} // verus!
