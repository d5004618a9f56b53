//! The parts of a Unix path that `std::path::Path` reports: file name, stem
//! and extension.
use vstd::prelude::*;
use crate::text::{slice_chars, extend_chars};

verus! {

broadcast use vstd::string::group_string_axioms;

/// The index of the last `c` in `s`, or -1.
pub open spec fn last_index_of(s: Seq<char>, c: char) -> int
    decreases s.len(),
{
    if s.len() == 0 {
        -1
    } else if s.last() == c {
        s.len() - 1
    } else {
        last_index_of(s.drop_last(), c)
    }
}

/// Finds the last `c` in `s`.
pub fn rfind_char(s: &[char], c: char) -> (r: Option<usize>)
    ensures
        match r {
            Some(i) => i < s.len() && last_index_of(s@, c) == i,
            None => last_index_of(s@, c) == -1,
        },
{
    let mut end = s.len();
    assert(s@.take(end as int) =~= s@);
    while end > 0
        invariant
            end <= s.len(),
            last_index_of(s@, c) == last_index_of(s@.take(end as int), c),
        decreases end,
    {
        assert(s@.take(end as int).drop_last() =~= s@.take(end - 1));
        if s[end - 1] == c {
            return Some(end - 1);
        }
        end = end - 1;
    }
    None
}

pub proof fn lemma_last_index_bounds(s: Seq<char>, c: char)
    ensures
        -1 <= last_index_of(s, c) < s.len(),
        last_index_of(s, c) >= 0 ==> s[last_index_of(s, c)] == c,
        forall|j: int| last_index_of(s, c) < j < s.len() ==> s[j] != c,
    decreases s.len(),
{
    if s.len() > 0 && s.last() != c {
        lemma_last_index_bounds(s.drop_last(), c);
        assert forall|j: int| last_index_of(s, c) < j < s.len() implies s[j] != c by {
            if j < s.len() - 1 {
                assert(s[j] == s.drop_last()[j]);
            }
        }
    }
}

/// The last component of a path, the way `Path::file_name` reports it on
/// Unix: trailing slashes and `.` components are ignored, and there is no
/// file name when the path is empty, is the root, or ends in `..`.
pub open spec fn file_name(p: Seq<char>) -> Option<Seq<char>>
    decreases p.len(),
{
    if p.len() == 0 {
        None
    } else if p.last() == '/' {
        file_name(p.drop_last())
    } else {
        let slash = last_index_of(p, '/');
        let last = p.skip(slash + 1);
        if last == seq!['.'] {
            if slash < 0 {
                None
            } else {
                proof {
                    lemma_last_index_bounds(p, '/');
                }
                file_name(p.take(slash))
            }
        } else if last == seq!['.', '.'] {
            None
        } else {
            Some(last)
        }
    }
}

/// `Path::file_name`, as text.
pub fn path_file_name(p: &[char]) -> (r: Option<Vec<char>>)
    ensures
        match r {
            Some(n) => file_name(p@) == Some(n@),
            None => file_name(p@) is None,
        },
{
    let mut end = p.len();
    assert(p@.take(end as int) =~= p@);
    loop
        invariant
            end <= p.len(),
            file_name(p@) == file_name(p@.take(end as int)),
        decreases end,
    {
        let cur = Ghost(p@.take(end as int));
        if end == 0 {
            return None;
        }
        if p[end - 1] == '/' {
            assert(cur@.drop_last() =~= p@.take(end - 1));
            end = end - 1;
            continue;
        }
        let prefix = slice_chars(p, 0, end);
        assert(prefix@ =~= cur@);
        let slash = rfind_char(&prefix, '/');
        let start = match slash {
            Some(i) => i + 1,
            None => 0,
        };
        proof {
            lemma_last_index_bounds(cur@, '/');
        }
        let last = slice_chars(p, start, end);
        assert(last@ =~= cur@.skip(start as int));
        if last.len() == 1 && last[0] == '.' {
            assert(last@ =~= seq!['.']);
            match slash {
                None => return None,
                Some(i) => {
                    assert(cur@.take(i as int) =~= p@.take(i as int));
                    end = i;
                    continue;
                },
            }
        }
        assert(last@ != seq!['.']);
        if last.len() == 2 && last[0] == '.' && last[1] == '.' {
            assert(last@ =~= seq!['.', '.']);
            return None;
        }
        assert(last@ != seq!['.', '.']);
        return Some(last);
    }
}

/// The stem of a file name: everything before the last `.`, unless that dot
/// is the first character, in which case the whole name.
pub open spec fn stem_of(name: Seq<char>) -> Seq<char> {
    let dot = last_index_of(name, '.');
    if dot <= 0 {
        name
    } else {
        name.take(dot)
    }
}

/// The extension of a file name: everything after the last `.`, when that
/// dot is not the first character.
pub open spec fn extension_of(name: Seq<char>) -> Option<Seq<char>> {
    let dot = last_index_of(name, '.');
    if dot <= 0 {
        None
    } else {
        Some(name.skip(dot + 1))
    }
}

/// `Path::file_stem`.
pub open spec fn file_stem(p: Seq<char>) -> Option<Seq<char>> {
    match file_name(p) {
        Some(n) => Some(stem_of(n)),
        None => None,
    }
}

/// `Path::extension`.
pub open spec fn extension(p: Seq<char>) -> Option<Seq<char>> {
    match file_name(p) {
        Some(n) => extension_of(n),
        None => None,
    }
}

/// `Path::file_stem`, as text.
pub fn path_file_stem(p: &[char]) -> (r: Option<Vec<char>>)
    ensures
        match r {
            Some(n) => file_stem(p@) == Some(n@),
            None => file_stem(p@) is None,
        },
{
    match path_file_name(p) {
        None => None,
        Some(name) => {
            let dot = rfind_char(&name, '.');
            match dot {
                Some(i) if i > 0 => {
                    let stem = slice_chars(&name, 0, i);
                    assert(stem@ =~= name@.take(i as int));
                    Some(stem)
                },
                _ => Some(name),
            }
        },
    }
}

/// `Path::extension`, as text.
pub fn path_extension(p: &[char]) -> (r: Option<Vec<char>>)
    ensures
        match r {
            Some(n) => extension(p@) == Some(n@),
            None => extension(p@) is None,
        },
{
    match path_file_name(p) {
        None => None,
        Some(name) => {
            let dot = rfind_char(&name, '.');
            match dot {
                Some(i) if i > 0 => {
                    let ext = slice_chars(&name, i + 1, name.len());
                    assert(ext@ =~= name@.skip(i + 1));
                    Some(ext)
                },
                _ => None,
            }
        },
    }
}

/// `Path::join` on Unix: an absolute `name` replaces `dir`; otherwise a
/// `/` goes between them unless `dir` is empty or already ends in one.
pub open spec fn join_path(dir: Seq<char>, name: Seq<char>) -> Seq<char> {
    if name.len() > 0 && name[0] == '/' {
        name
    } else if dir.len() == 0 || dir.last() == '/' {
        dir + name
    } else {
        dir + seq!['/'] + name
    }
}

/// `Path::join`, as text.
pub fn path_join(dir: &[char], name: &[char]) -> (r: Vec<char>)
    ensures
        r@ == join_path(dir@, name@),
{
    if name.len() > 0 && name[0] == '/' {
        return slice_chars(name, 0, name.len());
    }
    let mut out = slice_chars(dir, 0, dir.len());
    assert(out@ =~= dir@);
    if dir.len() > 0 && dir[dir.len() - 1] != '/' {
        out.push('/');
    }
    extend_chars(&mut out, name);
    out
}

/// The last `c` in `q + t`, when `t` holds none, is the last one in `q`.
pub proof fn lemma_last_index_concat(q: Seq<char>, t: Seq<char>, c: char)
    requires
        !t.contains(c),
    ensures
        last_index_of(q + t, c) == last_index_of(q, c),
    decreases t.len(),
{
    if t.len() > 0 {
        assert((q + t).drop_last() =~= q + t.drop_last());
        assert(!t.drop_last().contains(c)) by {
            if t.drop_last().contains(c) {
                let k = choose|k: int| 0 <= k < t.drop_last().len() && t.drop_last()[k] == c;
                assert(t[k] == c);
            }
        }
        assert((q + t).last() == t.last());
        assert(t.last() != c) by {
            assert(t[t.len() - 1] == t.last());
        }
        lemma_last_index_concat(q, t.drop_last(), c);
    } else {
        assert(q + t =~= q);
    }
}

/// A name without `/` (and not `.` or `..`) joined onto a directory is the
/// joined path's file name.
pub proof fn lemma_file_name_of_join(dir: Seq<char>, name: Seq<char>)
    requires
        name.len() > 0,
        !name.contains('/'),
        name != seq!['.'],
        name != seq!['.', '.'],
    ensures
        file_name(join_path(dir, name)) == Some(name),
{
    assert(name[0] != '/');
    let q = if dir.len() == 0 || dir.last() == '/' {
        dir
    } else {
        dir + seq!['/']
    };
    let p = join_path(dir, name);
    assert(p =~= q + name);
    lemma_last_index_concat(q, name, '/');
    assert(q.len() == 0 || q.last() == '/');
    let slash = last_index_of(q, '/');
    if q.len() == 0 {
        assert(slash == -1);
    } else {
        assert(q.drop_last().len() + 1 == q.len());
        assert(slash == q.len() - 1);
    }
    assert(p.last() == name.last());
    assert(name.last() != '/') by {
        assert(name[name.len() - 1] == name.last());
    }
    assert(p.skip(slash + 1) =~= name);
}

} // verus!
