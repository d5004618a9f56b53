//! Text rules of the Windows backend's dock: the key an application's icon
//! is cached under, and the shell command that starts a packaged (UWP)
//! application from its executable's path.
use vstd::prelude::*;
use crate::text::{
    chars_of, string_of, owned, extend_chars, slice_chars, contains_seq, contains_chars, lowercase,
    to_lowercase, ascii_lower_seq, ascii_lowercase_chars, chars_eq, first_index_of, find_char_from,
    lemma_first_index_bounds,
};

verus! {

/// Executables whose windows share one icon per window title.
pub open spec fn shared_host(path_lower: Seq<char>) -> bool {
    contains_seq(path_lower, "msedge.exe"@) || contains_seq(path_lower, "chrome.exe"@) || contains_seq(
        path_lower,
        "applicationframehost.exe"@,
    )
}

/// Whether a lowercase path is one of the shared hosts.
pub(crate) fn is_shared_host(path_lower: &[char]) -> (r: bool)
    ensures
        r == shared_host(path_lower@),
{
    contains_chars(path_lower, &chars_of("msedge.exe")) || contains_chars(path_lower, &chars_of("chrome.exe"))
        || contains_chars(path_lower, &chars_of("applicationframehost.exe"))
}

/// The key an application's icon is cached under: for browsers and the
/// UWP frame host, which show many applications, the path with the window's
/// lowercase name; otherwise the path alone.
pub open spec fn cache_key_of(path: Seq<char>, name: Option<Seq<char>>) -> Seq<char> {
    if shared_host(lowercase(path)) {
        path + seq![':'] + match name {
            Some(n) => lowercase(n),
            None => Seq::empty(),
        }
    } else {
        path
    }
}

/// The icon cache key of an application.
pub fn get_cache_key(path: &str, name: Option<&str>) -> (r: String)
    ensures
        r@ == cache_key_of(
            path@,
            match name {
                Some(n) => Some(n@),
                None => None,
            },
        ),
{
    let lower = to_lowercase(path);
    let lower_chars = chars_of(lower.as_str());
    if is_shared_host(&lower_chars) {
        let mut out = chars_of(path);
        out.push(':');
        if let Some(n) = name {
            let n_lower = to_lowercase(n);
            let n_chars = chars_of(n_lower.as_str());
            extend_chars(&mut out, &n_chars);
        }
        assert(out@ =~= cache_key_of(
            path@,
            match name {
                Some(n) => Some(n@),
                None => None,
            },
        ));
        string_of(&out)
    } else {
        owned(path)
    }
}

/// A Windows path separator.
pub open spec fn is_separator(c: char) -> bool {
    c == '\\' || c == '/'
}

/// The pieces of a path between separators, in order.
pub open spec fn pieces(s: Seq<char>) -> Seq<Seq<char>>
    decreases s.len(),
{
    if s.len() == 0 {
        seq![Seq::empty()]
    } else {
        let rest = pieces(s.drop_last());
        if is_separator(s.last()) {
            rest.push(Seq::empty())
        } else {
            rest.update(rest.len() - 1, rest.last().push(s.last()))
        }
    }
}

/// A drive prefix such as `C:`.
pub open spec fn has_drive(p: Seq<char>) -> bool {
    p.len() >= 2 && p[1] == ':' && (('a' <= p[0] <= 'z') || ('A' <= p[0] <= 'Z'))
}

/// A piece that names a directory or file (not empty, `.` or `..`).
pub open spec fn is_normal(p: Seq<char>) -> bool {
    p.len() > 0 && p != seq!['.'] && p != seq!['.', '.']
}

/// The normal components of a Windows path, a leading drive left out.
pub open spec fn normal_components(s: Seq<char>) -> Seq<Seq<char>> {
    let ps = pieces(s);
    let first = if has_drive(ps[0]) {
        ps[0].skip(2)
    } else {
        ps[0]
    };
    normals(ps.update(0, first))
}

/// The normal pieces, in order.
pub open spec fn normals(ps: Seq<Seq<char>>) -> Seq<Seq<char>>
    decreases ps.len(),
{
    if ps.len() == 0 {
        ps
    } else {
        normals(ps.drop_last()) + if is_normal(ps.last()) {
            seq![ps.last()]
        } else {
            Seq::empty()
        }
    }
}

/// The component after the first one named `WindowsApps` (in any case),
/// where packaged applications live.
pub open spec fn package_folder_of(components: Seq<Seq<char>>) -> Option<Seq<char>>
    decreases components.len(),
{
    if components.len() < 2 {
        None
    } else if ascii_lower_seq(components[0]) == "windowsapps"@ {
        Some(components[1])
    } else {
        package_folder_of(components.drop_first())
    }
}

/// The last position of `p` in `s`, as `str::rfind` reports it.
pub open spec fn last_occurrence(s: Seq<char>, p: Seq<char>) -> Option<int>
    decreases s.len(),
{
    if s.len() < p.len() {
        None
    } else if s.subrange(s.len() - p.len(), s.len() as int) == p {
        Some(s.len() - p.len())
    } else {
        proof {
            if p.len() == 0 {
                assert(s.subrange(s.len() as int, s.len() as int) =~= p);
            }
        }
        last_occurrence(s.drop_last(), p)
    }
}

/// `shell:AppsFolder\<name>_<publisher>!App` for a package folder named
/// `<name>_<version>_<architecture>__<publisher>`.
pub open spec fn uwp_command_of(folder: Seq<char>) -> Option<Seq<char>> {
    match last_occurrence(folder, "__"@) {
        None => None,
        Some(at) => {
            let underscore = first_index_of(folder, '_');
            if underscore < 0 {
                None
            } else {
                Some("shell:AppsFolder\\"@ + folder.take(underscore) + seq!['_'] + folder.skip(at + 2) + "!App"@)
            }
        },
    }
}

/// The shell command that starts a packaged application, from the path of
/// its executable inside `WindowsApps`.
pub open spec fn uwp_launch_of(exe_path: Seq<char>) -> Option<Seq<char>> {
    match package_folder_of(normal_components(exe_path)) {
        Some(folder) => if folder.len() > 0 {
            uwp_command_of(folder)
        } else {
            None
        },
        None => None,
    }
}

/// The views of some character vectors.
pub open spec fn char_views(v: Seq<Vec<char>>) -> Seq<Seq<char>> {
    v.map_values(|x: Vec<char>| x@)
}

proof fn lemma_pieces_nonempty(s: Seq<char>)
    ensures
        pieces(s).len() >= 1,
    decreases s.len(),
{
    if s.len() > 0 {
        lemma_pieces_nonempty(s.drop_last());
    }
}

fn split_pieces(s: &[char]) -> (r: Vec<Vec<char>>)
    ensures
        char_views(r@) == pieces(s@),
{
    let mut done: Vec<Vec<char>> = Vec::new();
    let mut cur: Vec<char> = Vec::new();
    let mut i: usize = 0;
    assert(s@.take(0) =~= Seq::<char>::empty());
    assert(char_views(done@).push(cur@) =~= pieces(s@.take(0)));
    while i < s.len()
        invariant
            i <= s.len(),
            char_views(done@).push(cur@) == pieces(s@.take(i as int)),
        decreases s.len() - i,
    {
        let c = s[i];
        proof {
            assert(s@.take(i + 1).drop_last() =~= s@.take(i as int));
            assert(s@.take(i + 1).last() == c);
            lemma_pieces_nonempty(s@.take(i as int));
        }
        if c == '\\' || c == '/' {
            let piece = cur;
            let ghost old_done = done@;
            done.push(piece);
            cur = Vec::new();
            assert(char_views(done@) =~= char_views(old_done).push(piece@));
            assert(char_views(done@).push(cur@) =~= pieces(s@.take(i + 1)));
        } else {
            let ghost was = cur@;
            cur.push(c);
            assert(char_views(done@).push(cur@) =~= (char_views(done@).push(was)).update(
                char_views(done@).len() as int,
                was.push(c),
            ));
        }
        i = i + 1;
    }
    assert(s@.take(s.len() as int) =~= s@);
    let ghost old_done = done@;
    done.push(cur);
    assert(char_views(done@) =~= char_views(old_done).push(done@.last()@));
    done
}

fn normal_parts(s: &[char]) -> (r: Vec<Vec<char>>)
    ensures
        char_views(r@) == normal_components(s@),
{
    let mut ps = split_pieces(s);
    proof {
        lemma_pieces_nonempty(s@);
    }
    let first = &ps[0];
    let drive = first.len() >= 2 && first[1] == ':' && (('a' <= first[0] && first[0] <= 'z') || ('A'
        <= first[0] && first[0] <= 'Z'));
    let ghost all = pieces(s@);
    let ghost adjusted = all.update(
        0,
        if has_drive(all[0]) {
            all[0].skip(2)
        } else {
            all[0]
        },
    );
    if drive {
        let rest = slice_chars(&ps[0], 2, ps[0].len());
        ps.set(0, rest);
    }
    assert(char_views(ps@) =~= adjusted);
    let mut out: Vec<Vec<char>> = Vec::new();
    let mut i: usize = 0;
    assert(adjusted.take(0) =~= Seq::<Seq<char>>::empty());
    while i < ps.len()
        invariant
            i <= ps.len(),
            char_views(ps@) == adjusted,
            char_views(out@) == normals(adjusted.take(i as int)),
        decreases ps.len() - i,
    {
        proof {
            assert(adjusted.take(i + 1).drop_last() =~= adjusted.take(i as int));
            assert(adjusted.take(i + 1).last() == ps@[i as int]@);
        }
        let p = &ps[i];
        let normal = p.len() > 0 && !(p.len() == 1 && p[0] == '.') && !(p.len() == 2 && p[0] == '.'
            && p[1] == '.');
        proof {
            if p@ == seq!['.'] {
                assert(p@.len() == 1 && p@[0] == '.');
            }
            if p@ == seq!['.', '.'] {
                assert(p@.len() == 2 && p@[0] == '.' && p@[1] == '.');
            }
            if p@.len() == 1 && p@[0] == '.' {
                assert(p@ =~= seq!['.']);
            }
            if p@.len() == 2 && p@[0] == '.' && p@[1] == '.' {
                assert(p@ =~= seq!['.', '.']);
            }
        }
        if normal {
            let copy = slice_chars(p, 0, p.len());
            assert(copy@ =~= p@);
            let ghost old_out = out@;
            out.push(copy);
            assert(char_views(out@) =~= char_views(old_out) + seq![p@]);
        } else {
            assert(char_views(out@) =~= char_views(out@) + Seq::<Seq<char>>::empty());
        }
        i = i + 1;
    }
    assert(adjusted.take(ps.len() as int) =~= adjusted);
    out
}

fn last_text(s: &[char], p: &[char]) -> (r: Option<usize>)
    ensures
        match r {
            Some(k) => last_occurrence(s@, p@) == Some(k as int) && k + p.len() <= s.len(),
            None => last_occurrence(s@, p@) is None,
        },
{
    let mut end: usize = s.len();
    assert(s@.take(end as int) =~= s@);
    loop
        invariant
            end <= s.len(),
            last_occurrence(s@, p@) == last_occurrence(s@.take(end as int), p@),
        decreases end,
    {
        let ghost cur = s@.take(end as int);
        if end < p.len() {
            return None;
        }
        let start = end - p.len();
        let mut k: usize = 0;
        let mut matched = true;
        while k < p.len()
            invariant
                start + p.len() == end,
                end <= s.len(),
                k <= p.len(),
                matched == (forall|j: int| 0 <= j < k ==> s@[start + j] == p@[j]),
            decreases p.len() - k,
        {
            if s[start + k] != p[k] {
                matched = false;
            }
            k = k + 1;
        }
        proof {
            let window = cur.subrange(start as int, end as int);
            if matched {
                assert(window =~= p@);
            } else {
                assert(window != p@) by {
                    let j = choose|j: int| 0 <= j < p.len() && s@[start + j] != p@[j];
                    assert(window[j] == s@[start + j]);
                }
            }
        }
        if matched {
            return Some(start);
        }
        if end == 0 {
            return None;
        }
        assert(cur.drop_last() =~= s@.take(end - 1));
        end = end - 1;
    }
}

fn find_package(parts: &Vec<Vec<char>>) -> (r: Option<usize>)
    ensures
        match r {
            Some(f) => f < parts.len() && package_folder_of(char_views(parts@)) == Some(parts@[f as int]@),
            None => package_folder_of(char_views(parts@)) is None,
        },
{
    let ghost all = char_views(parts@);
    let target = chars_of("windowsapps");
    proof {
        reveal_strlit("windowsapps");
    }
    let mut j: usize = 0;
    assert(all.skip(0) =~= all);
    while j < parts.len() && parts.len() - j >= 2
        invariant
            all == char_views(parts@),
            j <= parts.len(),
            package_folder_of(all) == package_folder_of(all.skip(j as int)),
            target@ == "windowsapps"@,
        decreases parts.len() - j,
    {
        proof {
            let rest = all.skip(j as int);
            assert(rest[0] == parts@[j as int]@);
            assert(rest[1] == parts@[j + 1]@);
            assert(rest.drop_first() =~= all.skip(j + 1));
        }
        let lower = ascii_lowercase_chars(&parts[j]);
        if chars_eq(&lower, &target) {
            return Some(j + 1);
        }
        j = j + 1;
    }
    None
}

/// The shell command that starts a packaged application, from the path of
/// its executable inside `WindowsApps`.
pub fn get_uwp_launch_cmd(exe_path: &str) -> (r: Option<String>)
    ensures
        match r {
            Some(c) => uwp_launch_of(exe_path@) == Some(c@),
            None => uwp_launch_of(exe_path@) is None,
        },
{
    let chars = chars_of(exe_path);
    let parts = normal_parts(&chars);
    let ghost all = char_views(parts@);
    proof {
        reveal_strlit("__");
        reveal_strlit("shell:AppsFolder\\");
        reveal_strlit("!App");
    }
    let f = match find_package(&parts) {
        Some(f) => f,
        None => return None,
    };
    let name = &parts[f];
    if name.len() == 0 {
        return None;
    }
    let marker = chars_of("__");
    let at = match last_text(name, &marker) {
        Some(a) => a,
        None => return None,
    };
    assert(name@.skip(0) =~= name@);
    let underscore = match find_char_from(name, '_', 0) {
        Some(u) => u,
        None => return None,
    };
    let mut out = chars_of("shell:AppsFolder\\");
    let head = slice_chars(name, 0, underscore);
    extend_chars(&mut out, &head);
    out.push('_');
    let publisher = slice_chars(name, at + 2, name.len());
    extend_chars(&mut out, &publisher);
    let tail = chars_of("!App");
    extend_chars(&mut out, &tail);
    assert(out@ =~= "shell:AppsFolder\\"@ + name@.take(underscore as int) + seq!['_'] + name@.skip(at + 2)
        + "!App"@);
    Some(string_of(&out))
}

} // verus!
