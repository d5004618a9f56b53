//! Taskbar decisions over X11 windows: which windows belong in the dock,
//! how they are grouped per application, and the EWMH requests that focus,
//! minimize and close them.
use vstd::prelude::*;
use crate::apps::{DesktopEntry, EntryIndex, matched, opt_view, opt_str};
use crate::text::{slice_chars, chars_of, string_of, owned, chars_eq, trim, trim_chars, extend_chars, lowercase, lowercase_chars};
use crate::thumbnails::{window_id, valid_window_id, FocusTimes, ThumbnailCache, record_focus, forget_closed};
use crate::types::AppInfo;

verus! {

broadcast use vstd::string::group_string_axioms;

/// EWMH source indication meaning "pager/taskbar", which is what Bloom is.
pub const SOURCE_PAGER: u32 = 2;

/// ICCCM `IconicState`, used to request that a window is minimized.
pub const ICONIC_STATE: u32 = 3;

/// What is known about one managed window.
pub struct WindowFacts {
    pub id: u32,
    pub title: String,
    pub instance: String,
    pub class: String,
    pub executable: Option<String>,
}

/// Whether a window belongs in a taskbar: not Bloom's own, not marked
/// `_NET_WM_STATE_SKIP_TASKBAR`, and either declaring no type or declaring a
/// normal or dialog type. `types` is `None` when the type atoms could not be
/// interned.
pub open spec fn taskbar_window(
    pid: Option<u32>,
    own_pid: u32,
    skips_taskbar: bool,
    types: Option<Seq<u32>>,
    normal: u32,
    dialog: u32,
) -> bool {
    &&& pid != Some(own_pid)
    &&& !skips_taskbar
    &&& match types {
        None => false,
        Some(t) => t.len() == 0 || t.contains(normal) || t.contains(dialog),
    }
}

/// Only ordinary top-level application windows belong in a taskbar.
pub fn is_taskbar_window(
    pid: Option<u32>,
    own_pid: u32,
    skips_taskbar: bool,
    types: Option<&[u32]>,
    normal: u32,
    dialog: u32,
) -> (r: bool)
    ensures
        r == taskbar_window(
            pid,
            own_pid,
            skips_taskbar,
            match types {
                Some(t) => Some(t@),
                None => None,
            },
            normal,
            dialog,
        ),
{
    if pid == Some(own_pid) {
        return false;
    }
    if skips_taskbar {
        return false;
    }
    match types {
        None => false,
        Some(t) => {
            if t.len() == 0 {
                return true;
            }
            crate::idmap::contains_u32(t, normal) || crate::idmap::contains_u32(t, dialog)
        },
    }
}

/// Which windows belong in the taskbar. Bloom's own windows, windows that
/// skip the taskbar and windows whose types could not be read never do.
/// Any other window does when it declares the normal or the dialog type, or
/// declares no type at all; one that declares only other types (a dock, a
/// menu, a splash screen) does not.
pub proof fn lemma_taskbar_windows(
    pid: Option<u32>,
    own_pid: u32,
    skips_taskbar: bool,
    types: Option<Seq<u32>>,
    normal: u32,
    dialog: u32,
)
    ensures
        pid == Some(own_pid) ==> !taskbar_window(pid, own_pid, skips_taskbar, types, normal, dialog),
        skips_taskbar ==> !taskbar_window(pid, own_pid, skips_taskbar, types, normal, dialog),
        types is None ==> !taskbar_window(pid, own_pid, skips_taskbar, types, normal, dialog),
        pid != Some(own_pid) && !skips_taskbar && (types matches Some(t) && t.contains(dialog))
            ==> taskbar_window(pid, own_pid, skips_taskbar, types, normal, dialog),
        pid != Some(own_pid) && !skips_taskbar && (types matches Some(t) && t.contains(normal))
            ==> taskbar_window(pid, own_pid, skips_taskbar, types, normal, dialog),
        pid != Some(own_pid) && !skips_taskbar && types == Some(Seq::<u32>::empty())
            ==> taskbar_window(pid, own_pid, skips_taskbar, types, normal, dialog),
        (types matches Some(t) && t.len() > 0 && forall|i: int|
            0 <= i < t.len() ==> t[i] != normal && t[i] != dialog) ==> !taskbar_window(
            pid,
            own_pid,
            skips_taskbar,
            types,
            normal,
            dialog,
        ),
{
    if let Some(t) = types {
        if t.len() > 0 && forall|i: int| 0 <= i < t.len() ==> t[i] != normal && t[i] != dialog {
            assert(!t.contains(normal));
            assert(!t.contains(dialog));
        }
    }
}

/// What `char::to_uppercase` yields for a character: its full Unicode
/// uppercase mapping, which may be several characters.
pub uninterp spec fn uppercase_of(c: char) -> Seq<char>;

/// `char::to_uppercase`, collected.
#[verifier::external_body]
pub(crate) fn char_to_uppercase(c: char) -> (out: String)
    ensures
        out@ == uppercase_of(c),
{
    c.to_uppercase().collect::<String>()
}

/// `-`, `_` and `.` read as spaces.
pub open spec fn spaced(s: Seq<char>) -> Seq<char> {
    s.map_values(|c: char| if c == '-' || c == '_' || c == '.' { ' ' } else { c })
}

/// A class or executable name as a display name: separators become spaces,
/// the result is trimmed, and its first character is uppercased.
pub open spec fn prettified(value: Seq<char>) -> Seq<char> {
    let t = trim(spaced(value));
    if t.len() == 0 {
        t
    } else {
        uppercase_of(t[0]) + t.drop_first()
    }
}

/// Turn a class name such as `google-chrome` into `Google chrome`.
pub fn prettify(value: &str) -> (r: String)
    ensures
        r@ == prettified(value@),
{
    let s = chars_of(value);
    let mut cleaned: Vec<char> = Vec::new();
    let mut i: usize = 0;
    while i < s.len()
        invariant
            i <= s.len(),
            cleaned@ == spaced(s@.take(i as int)),
        decreases s.len() - i,
    {
        let c = s[i];
        cleaned.push(if c == '-' || c == '_' || c == '.' { ' ' } else { c });
        assert(cleaned@ =~= spaced(s@.take(i + 1)));
        i = i + 1;
    }
    assert(s@.take(s.len() as int) =~= s@);
    let t = trim_chars(&cleaned);
    if t.len() == 0 {
        return String::new();
    }
    let first = char_to_uppercase(t[0]);
    let mut out = chars_of(first.as_str());
    let rest = crate::text::slice_chars(&t, 1, t.len());
    extend_chars(&mut out, &rest);
    assert(rest@ =~= t@.drop_first());
    string_of(&out)
}

/// The dock label of a window as `(name, path)`: its desktop entry when one
/// matches, otherwise a prettified executable or class name with an `x11:`
/// path.
pub open spec fn window_label(
    entries: Seq<DesktopEntry>,
    instance: Seq<char>,
    class: Seq<char>,
    executable: Option<Seq<char>>,
) -> (Seq<char>, Seq<char>) {
    match matched(entries, class, instance, executable) {
        Some(i) => (entries[i].name@, entries[i].path@),
        None => {
            let display = match executable {
                Some(e) => e,
                None => if class.len() > 0 {
                    class
                } else {
                    "Window"@
                },
            };
            let path = if class.len() == 0 {
                "x11:"@ + display
            } else {
                "x11:"@ + class
            };
            (prettified(display), path)
        },
    }
}

/// A group of windows of one application, as the dock shows it.
pub struct Group {
    pub key: Seq<char>,
    pub name: Seq<char>,
    pub path: Seq<char>,
    pub executable: Option<Seq<char>>,
    pub hwnd: int,
    pub windows: Seq<(int, Seq<char>)>,
}

/// Whether a window is shown: a taskbar window with a title or a class.
pub open spec fn shown(w: WindowFacts) -> bool {
    w.title@.len() > 0 || w.class@.len() > 0
}

/// Where window `w`'s group is among `groups`, or -1.
pub open spec fn group_index(groups: Seq<Group>, key: Seq<char>) -> int
    decreases groups.len(),
{
    if groups.len() == 0 {
        -1
    } else if groups.last().key == key {
        groups.len() - 1
    } else {
        group_index(groups.drop_last(), key)
    }
}

/// The groups after listing `windows` in order: a window joins the group of
/// the earlier windows with the same lowercase path, or starts a new one.
pub open spec fn grouped(entries: Seq<DesktopEntry>, windows: Seq<WindowFacts>) -> Seq<Group>
    decreases windows.len(),
{
    if windows.len() == 0 {
        seq![]
    } else {
        let groups = grouped(entries, windows.drop_last());
        let w = windows.last();
        if !shown(w) {
            groups
        } else {
            let (name, path) = window_label(entries, w.instance@, w.class@, opt_view(w.executable));
            let key = lowercase(path);
            let member = (w.id as isize as int, w.title@);
            let g = group_index(groups, key);
            if g >= 0 {
                groups.update(g, Group { windows: groups[g].windows.push(member), ..groups[g] })
            } else {
                groups.push(
                    Group {
                        key,
                        name,
                        path,
                        executable: opt_view(w.executable),
                        hwnd: w.id as isize as int,
                        windows: seq![member],
                    },
                )
            }
        }
    }
}

/// A running dock item shows its group.
pub open spec fn shows_group(a: AppInfo, g: Group) -> bool {
    &&& a.name@ == g.name
    &&& a.path@ == g.path
    &&& a.icon is None
    &&& a.is_running
    &&& a.hwnd == Some(g.hwnd as isize)
    &&& opt_view(a.executable) == g.executable
    &&& a.all_hwnds matches Some(list) && list@.len() == g.windows.len() && forall|j: int|
        0 <= j < list@.len() ==> (#[trigger] list@[j]).0 as int == g.windows[j].0 && list@[j].1@
            == g.windows[j].1
}

proof fn lemma_group_index(groups: Seq<Group>, key: Seq<char>)
    ensures
        -1 <= group_index(groups, key) < groups.len(),
        group_index(groups, key) >= 0 ==> groups[group_index(groups, key)].key == key,
        group_index(groups, key) == -1 ==> forall|j: int| 0 <= j < groups.len() ==> groups[j].key != key,
    decreases groups.len(),
{
    if groups.len() > 0 && groups.last().key != key {
        lemma_group_index(groups.drop_last(), key);
        assert forall|j: int| group_index(groups, key) == -1 && 0 <= j < groups.len() implies groups[j].key != key by {
            if j < groups.len() - 1 {
                assert(groups[j] == groups.drop_last()[j]);
            }
        }
    }
}

/// No two dock items share a key.
pub open spec fn distinct_keys(groups: Seq<Group>) -> bool {
    forall|i: int, j: int| 0 <= i < j < groups.len() ==> (#[trigger] groups[i]).key != (#[trigger] groups[j]).key
}

/// Some dock item with `key` lists `member` among its windows.
pub open spec fn listed_in(groups: Seq<Group>, key: Seq<char>, member: (int, Seq<char>)) -> bool {
    exists|g: int| 0 <= g < groups.len() && (#[trigger] groups[g]).key == key && groups[g].windows.contains(member)
}

/// The dock item key a window is grouped under.
pub open spec fn window_key(entries: Seq<DesktopEntry>, w: WindowFacts) -> Seq<char> {
    lowercase(window_label(entries, w.instance@, w.class@, opt_view(w.executable)).1)
}

/// Windows of one application collapse into a single dock item: no two
/// items share a key, and every window shown is listed in the item of its
/// application.
pub proof fn lemma_one_item_per_application(entries: Seq<DesktopEntry>, windows: Seq<WindowFacts>)
    ensures
        distinct_keys(grouped(entries, windows)),
        forall|k: int| 0 <= k < windows.len() && shown(#[trigger] windows[k]) ==> listed_in(
            grouped(entries, windows),
            window_key(entries, windows[k]),
            (windows[k].id as isize as int, windows[k].title@),
        ),
    decreases windows.len(),
{
    if windows.len() > 0 {
        let rest = windows.drop_last();
        lemma_one_item_per_application(entries, rest);
        let before = grouped(entries, rest);
        let after = grouped(entries, windows);
        let w = windows.last();
        if shown(w) {
            let key = window_key(entries, w);
            let member = (w.id as isize as int, w.title@);
            let g = group_index(before, key);
            lemma_group_index(before, key);
            assert(after.len() >= before.len());
            assert forall|i: int| 0 <= i < before.len() implies (#[trigger] after[i]).key == before[i].key
                && before[i].windows.subrange(0, before[i].windows.len() as int) =~= after[i].windows.subrange(
                0,
                before[i].windows.len() as int,
            ) && after[i].windows.len() >= before[i].windows.len() by {
            }
            assert forall|i: int, j: int| 0 <= i < j < after.len() implies (#[trigger] after[i]).key != (
            #[trigger] after[j]).key by {
                if j < before.len() {
                    assert(before[i].key != before[j].key);
                }
            }
            assert forall|k: int| 0 <= k < windows.len() && shown(#[trigger] windows[k]) implies listed_in(
                after,
                window_key(entries, windows[k]),
                (windows[k].id as isize as int, windows[k].title@),
            ) by {
                if k < windows.len() - 1 {
                    assert(rest[k] == windows[k]);
                    let m = (windows[k].id as isize as int, windows[k].title@);
                    let gk = choose|gk: int| 0 <= gk < before.len() && (#[trigger] before[gk]).key == window_key(
                        entries,
                        windows[k],
                    ) && before[gk].windows.contains(m);
                    let idx = choose|idx: int| 0 <= idx < before[gk].windows.len() && before[gk].windows[idx] == m;
                    assert(after[gk].windows[idx] == before[gk].windows.subrange(0, before[gk].windows.len() as int)[idx]);
                    assert(after[gk].windows.contains(m));
                } else if g >= 0 {
                    assert(after[g].windows.last() == member);
                    assert(after[g].windows.contains(member));
                } else {
                    assert(after[before.len() as int].windows[0] == member);
                    assert(after[before.len() as int].windows.contains(member));
                }
            }
        } else {
            assert forall|k: int| 0 <= k < windows.len() && shown(#[trigger] windows[k]) implies listed_in(
                after,
                window_key(entries, windows[k]),
                (windows[k].id as isize as int, windows[k].title@),
            ) by {
                assert(k < windows.len() - 1);
                assert(rest[k] == windows[k]);
            }
        }
    }
}

/// Group the taskbar windows per application, in the order each
/// application first appears. `windows` are the managed windows that passed
/// the taskbar test, in stacking-list order.
pub fn list(windows: &[WindowFacts], index: &EntryIndex) -> (apps: Vec<AppInfo>)
    requires
        index.wf(),
    ensures
        apps@.len() == grouped(index.entries(), windows@).len(),
        forall|i: int| 0 <= i < apps@.len() ==> shows_group(#[trigger] apps@[i], grouped(index.entries(), windows@)[i]),
{
    let mut apps: Vec<AppInfo> = Vec::new();
    let mut keys: Vec<Vec<char>> = Vec::new();
    let mut members: Vec<Vec<(isize, String)>> = Vec::new();
    let mut i: usize = 0;
    while i < windows.len()
        invariant
            i <= windows.len(),
            index.wf(),
            apps@.len() == keys@.len() == members@.len() == grouped(index.entries(), windows@.take(i as int)).len(),
            forall|g: int| 0 <= g < apps@.len() ==> {
                let group = grouped(index.entries(), windows@.take(i as int))[g];
                &&& keys@[g]@ == group.key
                &&& (#[trigger] apps@[g]).name@ == group.name
                &&& apps@[g].path@ == group.path
                &&& apps@[g].icon is None
                &&& apps@[g].is_running
                &&& apps@[g].hwnd == Some(group.hwnd as isize)
                &&& opt_view(apps@[g].executable) == group.executable
                &&& apps@[g].all_hwnds is None
                &&& members@[g]@.len() == group.windows.len()
                &&& forall|j: int| 0 <= j < members@[g]@.len() ==> (#[trigger] members@[g]@[j]).0 as int
                    == group.windows[j].0 && members@[g]@[j].1@ == group.windows[j].1
            },
        decreases windows.len() - i,
    {
        let ghost before = grouped(index.entries(), windows@.take(i as int));
        proof {
            assert(windows@.take(i + 1).drop_last() =~= windows@.take(i as int));
            assert(windows@.take(i + 1).last() == windows@[i as int]);
        }
        let w = &windows[i];
        if !w.title.as_str().is_empty() || !w.class.as_str().is_empty() {
            
            let (name, path) = match index.match_window(
                w.class.as_str(),
                w.instance.as_str(),
                match &w.executable {
                    Some(e) => Some(e.as_str()),
                    None => None,
                },
            ) {
                Some(entry) => (owned(entry.name.as_str()), owned(entry.path.as_str())),
                None => {
                    let display = match &w.executable {
                        Some(e) => owned(e.as_str()),
                        None => if !w.class.as_str().is_empty() {
                            owned(w.class.as_str())
                        } else {
                            owned("Window")
                        },
                    };
                    let mut path = chars_of("x11:");
                    if w.class.as_str().is_empty() {
                        extend_chars(&mut path, &chars_of(display.as_str()));
                    } else {
                        extend_chars(&mut path, &chars_of(w.class.as_str()));
                    }
                    (prettify(display.as_str()), string_of(&path))
                },
            };
            proof {
                let e_opt = match &w.executable {
                    Some(e) => Some(e@),
                    None => None::<Seq<char>>,
                };
                assert(e_opt == opt_view(w.executable));
            }
            assert((name@, path@) == window_label(index.entries(), w.instance@, w.class@, opt_view(w.executable)));
            let key = lowercase_chars(&chars_of(path.as_str()));
            let hwnd = w.id as isize;
            // Find the group this window joins.
            proof {
                assert forall|m: int| 0 <= m < keys@.len() implies keys@[m]@ == before[m].key by {
                    assert(apps@[m].name@ == before[m].name);
                }
                assert(before.take(keys@.len() as int) =~= before);
            }
            let mut g: usize = keys.len();
            let mut found: Option<usize> = None;
            while g > 0
                invariant
                    g <= keys@.len() == before.len(),
                    forall|m: int| 0 <= m < keys@.len() ==> keys@[m]@ == before[m].key,
                    match found {
                        Some(f) => f < keys@.len() && group_index(before, key@) == f as int,
                        None => group_index(before, key@) == group_index(before.take(g as int), key@),
                    },
                decreases g,
            {
                proof {
                    assert(before.take(g as int).drop_last() =~= before.take(g - 1));
                    assert(before.take(g as int).last() == before[g - 1]);
                }
                if found.is_none() && chars_eq(&keys[g - 1], &key) {
                    found = Some(g - 1);
                }
                g = g - 1;
            }
            proof {
                lemma_group_index(before, key@);
            }
            match found {
                Some(f) => {
                    let title = owned(w.title.as_str());
                    members[f].push((hwnd, title));
                },
                None => {
                    assert(before.take(0) =~= Seq::<Group>::empty());
                    let executable = match &w.executable {
                        Some(e) => Some(owned(e.as_str())),
                        None => None,
                    };
                    apps.push(AppInfo {
                        name,
                        path,
                        icon: None,
                        is_running: true,
                        hwnd: Some(hwnd),
                        executable,
                        all_hwnds: None,
                    });
                    keys.push(key);
                    let mut first: Vec<(isize, String)> = Vec::new();
                    first.push((hwnd, owned(w.title.as_str())));
                    members.push(first);
                },
            }
        }
        i = i + 1;
    }
    assert(windows@.take(windows.len() as int) =~= windows@);
    // Hand each group its windows.
    let ghost groups = grouped(index.entries(), windows@);
    let mut out: Vec<AppInfo> = Vec::new();
    let n = apps.len();
    let mut rest_apps = apps;
    let mut rest_members = members;
    let mut done: Vec<AppInfo> = Vec::new();
    while rest_apps.len() > 0
        invariant
            rest_apps@.len() == rest_members@.len(),
            rest_apps@.len() + done@.len() == n == groups.len(),
            forall|g: int| 0 <= g < rest_apps@.len() ==> {
                let group = groups[g];
                &&& (#[trigger] rest_apps@[g]).name@ == group.name
                &&& rest_apps@[g].path@ == group.path
                &&& rest_apps@[g].icon is None
                &&& rest_apps@[g].is_running
                &&& rest_apps@[g].hwnd == Some(group.hwnd as isize)
                &&& opt_view(rest_apps@[g].executable) == group.executable
                &&& rest_members@[g]@.len() == group.windows.len()
                &&& forall|j: int| 0 <= j < rest_members@[g]@.len() ==> (#[trigger] rest_members@[g]@[j]).0 as int
                    == group.windows[j].0 && rest_members@[g]@[j].1@ == group.windows[j].1
            },
            forall|d: int| 0 <= d < done@.len() ==> shows_group(#[trigger] done@[d], groups[n - 1 - d]),
        decreases rest_apps.len(),
    {
        let mut app = rest_apps.pop().unwrap();
        let m = rest_members.pop().unwrap();
        app.all_hwnds = Some(m);
        done.push(app);
    }
    while done.len() > 0
        invariant
            done@.len() + out@.len() == n == groups.len(),
            forall|d: int| 0 <= d < done@.len() ==> shows_group(#[trigger] done@[d], groups[n - 1 - d]),
            forall|o: int| 0 <= o < out@.len() ==> shows_group(#[trigger] out@[o], groups[o]),
        decreases done.len(),
    {
        let app = done.pop().unwrap();
        out.push(app);
    }
    out
}

/// The EWMH requests Bloom sends about a window.
#[derive(Clone, Copy, Debug, PartialEq, Eq, Structural)]
pub enum MessageKind {
    /// `WM_CHANGE_STATE`: minimize.
    ChangeState,
    /// `_NET_ACTIVE_WINDOW`: activate.
    ActiveWindow,
    /// `_NET_CLOSE_WINDOW`: close.
    CloseWindow,
}

/// A client message concerning `window`, delivered to the root window.
pub struct ClientMessage {
    pub window: u32,
    pub kind: MessageKind,
    pub data: [u32; 5],
}

/// Focus a window, or minimize it when it is already the active one,
/// matching the toggle behaviour of Bloom's Windows taskbar.
pub fn focus(hwnd: isize, active: u32) -> (r: Result<ClientMessage, String>)
    ensures
        match r {
            Ok(m) => valid_window_id(hwnd as int) && m.window as int == hwnd as int && if active
                == m.window {
                m.kind == MessageKind::ChangeState && m.data@ == seq![ICONIC_STATE, 0u32, 0u32, 0u32, 0u32]
            } else {
                m.kind == MessageKind::ActiveWindow && m.data@ == seq![SOURCE_PAGER, 0u32, 0u32, 0u32, 0u32]
            },
            Err(e) => !valid_window_id(hwnd as int) && e@ == "Invalid X11 window id"@,
        },
{
    let window = window_id(hwnd)?;
    if active == window {
        let m = ClientMessage { window, kind: MessageKind::ChangeState, data: [ICONIC_STATE, 0, 0, 0, 0] };
        assert(m.data@ =~= seq![ICONIC_STATE, 0u32, 0u32, 0u32, 0u32]);
        Ok(m)
    } else {
        let m = ClientMessage { window, kind: MessageKind::ActiveWindow, data: [SOURCE_PAGER, 0, 0, 0, 0] };
        assert(m.data@ =~= seq![SOURCE_PAGER, 0u32, 0u32, 0u32, 0u32]);
        Ok(m)
    }
}

/// Ask the window manager to close a window politely.
pub fn close(hwnd: isize) -> (r: Result<ClientMessage, String>)
    ensures
        match r {
            Ok(m) => valid_window_id(hwnd as int) && m.window as int == hwnd as int && m.kind
                == MessageKind::CloseWindow && m.data@ == seq![0u32, SOURCE_PAGER, 0u32, 0u32, 0u32],
            Err(e) => !valid_window_id(hwnd as int) && e@ == "Invalid X11 window id"@,
        },
{
    let window = window_id(hwnd)?;
    let m = ClientMessage { window, kind: MessageKind::CloseWindow, data: [0, SOURCE_PAGER, 0, 0, 0] };
    assert(m.data@ =~= seq![0u32, SOURCE_PAGER, 0u32, 0u32, 0u32]);
    Ok(m)
}

/// The watcher's signature of the desktop: the window list followed by the
/// active window. A refresh is due when it differs from the previous one.
pub fn window_signature(windows: &[u32], active: u32) -> (s: Vec<u32>)
    ensures
        s@ == windows@.push(active),
{
    let mut s: Vec<u32> = Vec::new();
    let mut i: usize = 0;
    while i < windows.len()
        invariant
            i <= windows.len(),
            s@ == windows@.take(i as int),
        decreases windows.len() - i,
    {
        s.push(windows[i]);
        assert(s@ =~= windows@.take(i + 1));
        i = i + 1;
    }
    assert(windows@.take(windows.len() as int) =~= windows@);
    s.push(active);
    s
}

/// Whether the desktop changed since the previous signature.
pub fn signature_changed(previous: Option<&[u32]>, current: &[u32]) -> (r: bool)
    ensures
        r == match previous {
            Some(p) => p@ != current@,
            None => true,
        },
{
    match previous {
        None => true,
        Some(p) => !crate::windows_manager::same_u32s(p, current),
    }
}

/// The focus times after a change: only open windows keep theirs, and the
/// active window (when there is one) is stamped `now`.
pub open spec fn focus_after(times: Map<isize, i64>, windows: Seq<u32>, active: u32, now: i64) -> Map<isize, i64> {
    let kept = times.restrict(Set::new(|k: isize| windows.contains(k as u32)));
    if active != 0 {
        kept.insert(active as isize, now)
    } else {
        kept
    }
}

/// The window watcher's memory between ticks: the last signature it saw.
pub struct WindowWatch {
    pub previous: Option<Vec<u32>>,
}

impl WindowWatch {
    /// A watcher that has seen nothing, so its first tick reports.
    pub fn new() -> (w: Self)
        ensures
            w.previous is None,
    {
        WindowWatch { previous: None }
    }

    /// One tick with the current window list and active window: whether
    /// `windows-changed` is due. It is due on the first tick and whenever the
    /// list or the active window changed; then the focus times and the
    /// thumbnail cache keep only the open windows, the active window is
    /// stamped `now`, and the signature is remembered. Otherwise nothing
    /// changes.
    pub fn tick(
        &mut self,
        windows: &[u32],
        active: u32,
        times: &mut FocusTimes,
        cache: &mut ThumbnailCache,
        now: i64,
    ) -> (changed: bool)
        ensures
            changed == match old(self).previous {
                Some(p) => p@ != windows@.push(active),
                None => true,
            },
            changed ==> {
                &&& final(self).previous matches Some(p) && p@ == windows@.push(active)
                &&& final(times)@ == focus_after(old(times)@, windows@, active, now)
                &&& final(cache)@ == old(cache)@.restrict(Set::new(|k: isize| windows@.contains(k as u32)))
            },
            !changed ==> *final(self) == *old(self) && final(times)@ == old(times)@ && final(cache)@ == old(
                cache,
            )@,
    {
        let signature = window_signature(windows, active);
        let changed = match &self.previous {
            Some(p) => signature_changed(Some(p.as_slice()), &signature),
            None => signature_changed(None, &signature),
        };
        if changed {
            record_focus(times, windows, active, now);
            forget_closed(cache, windows);
            self.previous = Some(signature);
        }
        changed
    }
}

/// Whether two id lists are equal.
pub fn same_u32s(p: &[u32], current: &[u32]) -> (r: bool)
    ensures
        r == (p@ == current@),
{
    if p.len() != current.len() {
        return false;
    }
    let mut i: usize = 0;
    while i < p.len()
        invariant
            p.len() == current.len(),
            i <= p.len(),
            forall|j: int| 0 <= j < i ==> p@[j] == current@[j],
        decreases p.len() - i,
    {
        if p[i] != current[i] {
            assert(p@[i as int] != current@[i as int]);
            return false;
        }
        i = i + 1;
    }
    assert(p@ =~= current@);
    true
}

/// A name without every trailing ` (deleted)`, which the kernel appends to
/// the executable link of a binary that was replaced on disk.
pub open spec fn without_deleted(name: Seq<char>) -> Seq<char>
    decreases name.len(),
{
    if name.len() >= 10 && name.skip(name.len() - 10) == " (deleted)"@ {
        without_deleted(name.take(name.len() - 10))
    } else {
        name
    }
}

/// The executable name of a process, from the file name of its
/// `/proc/<pid>/exe` link; nothing when no name is left.
pub fn executable_from_link(file_name: &str) -> (r: Option<String>)
    ensures
        match r {
            Some(n) => n@ == without_deleted(file_name@) && n@.len() > 0,
            None => without_deleted(file_name@).len() == 0,
        },
{
    let chars = chars_of(file_name);
    let suffix = chars_of(" (deleted)");
    let mut end = chars.len();
    proof {
        reveal_strlit(" (deleted)");
    }
    assert(chars@.take(end as int) =~= chars@);
    loop
        invariant
            end <= chars.len(),
            suffix@ == " (deleted)"@,
            suffix@.len() == 10,
            without_deleted(file_name@) == without_deleted(chars@.take(end as int)),
            chars@ == file_name@,
        decreases end,
    {
        let ghost cur = chars@.take(end as int);
        if end >= 10 {
            let tail = slice_chars(&chars, end - 10, end);
            assert(tail@ =~= cur.skip(cur.len() - 10));
            if crate::text::chars_eq(&tail, &suffix) {
                assert(cur.take(cur.len() - 10) =~= chars@.take(end - 10));
                end = end - 10;
                continue;
            }
        }
        assert(without_deleted(cur) == cur);
        if end == 0 {
            return None;
        }
        let name = slice_chars(&chars, 0, end);
        assert(name@ =~= cur);
        return Some(string_of(&name));
    }
}

} // verus!
