//! Freedesktop `.desktop` entries: reading keys, splitting `Exec=` lines,
//! and attributing windows to installed applications.
use vstd::prelude::*;
use crate::text::{lowercase, lowercase_chars, ascii_lowercase_chars, ascii_lower_seq, eq_ignore_ascii_case, ends_with, has_suffix, chars_of, string_of, owned, slice_chars, chars_eq, str_eq, trim, trim_chars, starts_with, has_prefix, is_white, is_whitespace, first_index_of, find_char_from, lemma_first_index_bounds};
use crate::path::{file_name, file_stem, path_file_name, path_file_stem, extension, path_extension};
use crate::text::{text_le, chars_le, to_lowercase, lemma_text_le_total, lemma_text_le_transitive};
use crate::types::AppInfo;

verus! {

broadcast use vstd::string::group_string_axioms;

/// A line without the carriage return of a `\r\n` ending.
pub open spec fn strip_cr(l: Seq<char>) -> Seq<char> {
    if l.len() > 0 && l.last() == '\r' {
        l.drop_last()
    } else {
        l
    }
}

/// The lines of a text, as `str::lines` yields them: split at `\n`, a `\r`
/// before it removed, and no empty line after a final line ending.
pub open spec fn lines(s: Seq<char>) -> Seq<Seq<char>>
    decreases s.len(),
{
    if s.len() == 0 {
        seq![]
    } else {
        let i = first_index_of(s, '\n');
        if i < 0 {
            seq![s]
        } else {
            proof {
                lemma_first_index_bounds(s, '\n');
            }
            seq![strip_cr(s.take(i))] + lines(s.skip(i + 1))
        }
    }
}

/// The value of `key` among `lines`, reading keys only inside the
/// `[Desktop Entry]` group; `in_entry` tells whether that group is open.
pub open spec fn entry_value(lines: Seq<Seq<char>>, key: Seq<char>, in_entry: bool) -> Option<
    Seq<char>,
>
    decreases lines.len(),
{
    if lines.len() == 0 {
        None
    } else {
        let line = trim(lines[0]);
        if starts_with(line, seq!['[']) {
            entry_value(lines.drop_first(), key, line == "[Desktop Entry]"@)
        } else if in_entry && starts_with(line, key.push('=')) {
            Some(trim(line.skip(key.len() + 1int)))
        } else {
            entry_value(lines.drop_first(), key, in_entry)
        }
    }
}

/// The value of `key` in a desktop file's `[Desktop Entry]` group.
pub open spec fn desktop_value_of(contents: Seq<char>, key: Seq<char>) -> Option<Seq<char>> {
    entry_value(lines(contents), key, false)
}

/// The value of `key` in the `[Desktop Entry]` group, trimmed.
pub fn desktop_value(contents: &str, key: &str) -> (r: Option<String>)
    ensures
        match r {
            Some(v) => desktop_value_of(contents@, key@) == Some(v@),
            None => desktop_value_of(contents@, key@) is None,
        },
{
    let s = chars_of(contents);
    let k = chars_of(key);
    let mut prefix = k.clone();
    assert(prefix@ == k@);
    prefix.push('=');
    let header = chars_of("[Desktop Entry]");
    let mut in_entry = false;
    let mut start: usize = 0;
    assert(s@.skip(0) =~= s@);
    while start < s.len()
        invariant
            start <= s.len(),
            s@ == contents@,
            k@ == key@,
            prefix@ == key@.push('='),
            header@ == "[Desktop Entry]"@,
            desktop_value_of(contents@, key@) == entry_value(lines(s@.skip(start as int)), key@, in_entry),
        decreases s.len() - start,
    {
        let rest = Ghost(s@.skip(start as int));
        let found = find_char_from(&s, '\n', start);
        let (raw, next) = match found {
            Some(i) => {
                let mut line = slice_chars(&s, start, i);
                if line.len() > 0 && line[line.len() - 1] == '\r' {
                    line.pop();
                }
                proof {
                    lemma_first_index_bounds(rest@, '\n');
                    assert(rest@.take(i - start) =~= s@.subrange(start as int, i as int));
                    assert(rest@.skip(i - start + 1) =~= s@.skip(i + 1));
                    assert(line@ == strip_cr(rest@.take(i - start)));
                }
                (line, i + 1)
            },
            None => {
                let line = slice_chars(&s, start, s.len());
                assert(line@ =~= rest@);
                assert(s@.skip(s.len() as int) =~= Seq::<char>::empty());
                (line, s.len())
            },
        };
        assert(lines(rest@).len() > 0 && lines(rest@)[0] == raw@ && lines(rest@).drop_first() =~= lines(
            s@.skip(next as int),
        ));
        let line = trim_chars(&raw);
        if line.len() > 0 && line[0] == '[' {
            assert(line@.take(1) =~= seq!['[']);
            in_entry = chars_eq(&line, &header);
        } else {
            assert(!starts_with(line@, seq!['['])) by {
                if line@.len() > 0 {
                    assert(line@.take(1)[0] == line@[0]);
                }
            }
            if in_entry && has_prefix(&line, &prefix) {
                let value = slice_chars(&line, prefix.len(), line.len());
                assert(value@ =~= line@.skip(key@.len() + 1int));
                let trimmed = trim_chars(&value);
                return Some(string_of(&trimmed));
            }
        }
        start = next;
    }
    assert(s@.skip(start as int) =~= Seq::<char>::empty());
    None
}

/// The tokenizer's state: finished tokens, the token being read, and
/// whether a quote is open and a backslash is pending.
pub type SplitState = (Seq<Seq<char>>, Seq<char>, bool, bool);

/// One character of an `Exec=` line. Double quotes group, a backslash inside
/// quotes escapes the next character, and unquoted whitespace separates.
pub open spec fn split_step(st: SplitState, c: char) -> SplitState {
    let (tokens, cur, quoted, escaped) = st;
    if escaped {
        (tokens, cur.push(c), quoted, false)
    } else if c == '\\' && quoted {
        (tokens, cur, quoted, true)
    } else if c == '"' {
        (tokens, cur, !quoted, escaped)
    } else if is_white(c) && !quoted {
        if cur.len() > 0 {
            (tokens.push(cur), Seq::<char>::empty(), quoted, escaped)
        } else {
            st
        }
    } else {
        (tokens, cur.push(c), quoted, escaped)
    }
}

/// The tokenizer's state after reading all of `s`.
pub open spec fn split_run(s: Seq<char>) -> SplitState
    decreases s.len(),
{
    if s.len() == 0 {
        (seq![], seq![], false, false)
    } else {
        split_step(split_run(s.drop_last()), s.last())
    }
}

/// The tokens of an `Exec=` line.
pub open spec fn exec_tokens(s: Seq<char>) -> Seq<Seq<char>> {
    let st = split_run(s);
    if st.1.len() > 0 {
        st.0.push(st.1)
    } else {
        st.0
    }
}

/// What `str::split_whitespace` reads up to the end of `s`: the words
/// finished so far and the word being read.
pub open spec fn whitespace_run(s: Seq<char>) -> (Seq<Seq<char>>, Seq<char>)
    decreases s.len(),
{
    if s.len() == 0 {
        (seq![], seq![])
    } else {
        let (words, cur) = whitespace_run(s.drop_last());
        let c = s.last();
        if is_white(c) {
            if cur.len() > 0 {
                (words.push(cur), seq![])
            } else {
                (words, cur)
            }
        } else {
            (words, cur.push(c))
        }
    }
}

/// `str::split_whitespace`: the maximal runs of non-whitespace characters.
pub open spec fn whitespace_words(s: Seq<char>) -> Seq<Seq<char>> {
    let (words, cur) = whitespace_run(s);
    if cur.len() > 0 {
        words.push(cur)
    } else {
        words
    }
}

proof fn lemma_quote_free_run(s: Seq<char>)
    requires
        !s.contains('"'),
    ensures
        split_run(s) == (whitespace_run(s).0, whitespace_run(s).1, false, false),
        forall|i: int| 0 <= i < whitespace_run(s).0.len() ==> (#[trigger] whitespace_run(s).0[i]).len() > 0
            && forall|j: int| 0 <= j < whitespace_run(s).0[i].len() ==> !is_white(whitespace_run(s).0[i][j]),
        forall|j: int| 0 <= j < whitespace_run(s).1.len() ==> !is_white(#[trigger] whitespace_run(s).1[j]),
    decreases s.len(),
{
    if s.len() > 0 {
        let rest = s.drop_last();
        assert(!rest.contains('"')) by {
            if rest.contains('"') {
                let k = choose|k: int| 0 <= k < rest.len() && rest[k] == '"';
                assert(s[k] == '"');
            }
        }
        assert(s.last() != '"') by {
            assert(s[s.len() - 1] == s.last());
        }
        lemma_quote_free_run(rest);
        let (words, cur) = whitespace_run(rest);
        let c = s.last();
        if !is_white(c) {
            assert forall|j: int| 0 <= j < cur.push(c).len() implies !is_white(#[trigger] cur.push(c)[j]) by {
                if j < cur.len() {
                    assert(cur.push(c)[j] == cur[j]);
                }
            }
        } else if cur.len() > 0 {
            assert forall|i: int| 0 <= i < words.push(cur).len() implies (#[trigger] words.push(cur)[i]).len() > 0
                && forall|j: int| 0 <= j < words.push(cur)[i].len() ==> !is_white(words.push(cur)[i][j]) by {
                if i < words.len() {
                    assert(words.push(cur)[i] == words[i]);
                }
            }
        }
    }
}

/// Without double quotes an `Exec=` line splits as `str::split_whitespace`
/// splits it: a backslash is an ordinary character, and every token is a
/// non-empty run of non-whitespace characters.
pub proof fn lemma_quote_free_exec_splits_on_whitespace(s: Seq<char>)
    requires
        !s.contains('"'),
    ensures
        exec_tokens(s) == whitespace_words(s),
        forall|i: int| 0 <= i < exec_tokens(s).len() ==> (#[trigger] exec_tokens(s)[i]).len() > 0
            && forall|j: int| 0 <= j < exec_tokens(s)[i].len() ==> !is_white(exec_tokens(s)[i][j]),
{
    lemma_quote_free_run(s);
    let (words, cur) = whitespace_run(s);
    if cur.len() > 0 {
        assert forall|i: int| 0 <= i < words.push(cur).len() implies (#[trigger] words.push(cur)[i]).len() > 0
            && forall|j: int| 0 <= j < words.push(cur)[i].len() ==> !is_white(words.push(cur)[i][j]) by {
            if i < words.len() {
                assert(words.push(cur)[i] == words[i]);
            }
        }
    }
}

/// The characters of each string.
pub open spec fn views(v: Seq<String>) -> Seq<Seq<char>> {
    v.map_values(|s: String| s@)
}

fn split_tokens(s: &[char]) -> (out: Vec<Vec<char>>)
    ensures
        out@.len() == exec_tokens(s@).len(),
        forall|i: int| 0 <= i < out@.len() ==> #[trigger] out@[i]@ == exec_tokens(s@)[i],
{
    let mut tokens: Vec<Vec<char>> = Vec::new();
    let mut current: Vec<char> = Vec::new();
    let mut quoted = false;
    let mut escaped = false;
    let mut i: usize = 0;
    while i < s.len()
        invariant
            i <= s.len(),
            tokens@.len() == split_run(s@.take(i as int)).0.len(),
            forall|j: int| 0 <= j < tokens@.len() ==> #[trigger] tokens@[j]@ == split_run(
                s@.take(i as int),
            ).0[j],
            current@ == split_run(s@.take(i as int)).1,
            quoted == split_run(s@.take(i as int)).2,
            escaped == split_run(s@.take(i as int)).3,
        decreases s.len() - i,
    {
        let c = s[i];
        proof {
            assert(s@.take(i + 1).drop_last() =~= s@.take(i as int));
            assert(s@.take(i + 1).last() == c);
        }
        if escaped {
            current.push(c);
            escaped = false;
        } else if c == '\\' && quoted {
            escaped = true;
        } else if c == '"' {
            quoted = !quoted;
        } else if is_whitespace(c) && !quoted {
            if current.len() > 0 {
                let mut done: Vec<char> = Vec::new();
                std::mem::swap(&mut done, &mut current);
                tokens.push(done);
            }
        } else {
            current.push(c);
        }
        i = i + 1;
    }
    assert(s@.take(s.len() as int) =~= s@);
    if current.len() > 0 {
        tokens.push(current);
    }
    tokens
}

fn strings_of(v: Vec<Vec<char>>) -> (out: Vec<String>)
    ensures
        out@.len() == v@.len(),
        forall|i: int| 0 <= i < v@.len() ==> #[trigger] out@[i]@ == v@[i]@,
{
    let mut out: Vec<String> = Vec::new();
    let mut i: usize = 0;
    while i < v.len()
        invariant
            i <= v.len(),
            out@.len() == i,
            forall|j: int| 0 <= j < i ==> #[trigger] out@[j]@ == v@[j]@,
        decreases v.len() - i,
    {
        out.push(string_of(&v[i]));
        i = i + 1;
    }
    out
}

/// Split an `Exec=` line, honouring the double quotes the desktop entry spec
/// allows around arguments that contain spaces. No shell expansion happens.
pub fn split_exec(exec: &str) -> (r: Vec<String>)
    ensures
        views(r@) == exec_tokens(exec@),
{
    let s = chars_of(exec);
    let tokens = split_tokens(&s);
    let out = strings_of(tokens);
    assert(views(out@) =~= exec_tokens(exec@));
    out
}

/// A `%f`-style field code.
pub open spec fn field_code(token: Seq<char>) -> bool {
    token.len() > 0 && token[0] == '%'
}

/// Whether a token is a field code such as `%U`.
pub fn is_field_code(token: &str) -> (r: bool)
    ensures
        r == field_code(token@),
{
    let t = chars_of(token);
    t.len() > 0 && t[0] == '%'
}

/// An ASCII letter or digit.
pub open spec fn ascii_alnum(c: char) -> bool {
    ('0' <= c <= '9') || ('a' <= c <= 'z') || ('A' <= c <= 'Z')
}

/// A `VAR=value` assignment: a non-empty name before the first `=` that
/// does not start with a digit and holds only ASCII letters, digits and `_`.
pub open spec fn env_assignment(token: Seq<char>) -> bool {
    let eq = first_index_of(token, '=');
    &&& eq > 0
    &&& !('0' <= token[0] <= '9')
    &&& forall|j: int| 0 <= j < eq ==> ascii_alnum(#[trigger] token[j]) || token[j] == '_'
}

/// `VAR=value` assignments may prefix the command when using `env`.
pub fn is_env_assignment(token: &str) -> (r: bool)
    ensures
        r == env_assignment(token@),
{
    let t = chars_of(token);
    assert(t@.skip(0) =~= t@);
    let eq = match find_char_from(&t, '=', 0) {
        Some(i) => i,
        None => return false,
    };
    assert(first_index_of(t@, '=') == eq);
    if eq == 0 {
        return false;
    }
    if '0' <= t[0] && t[0] <= '9' {
        assert(t@[0] == token@[0]);
        return false;
    }
    let mut j: usize = 0;
    while j < eq
        invariant
            j <= eq < t.len(),
            t@ == token@,
            first_index_of(t@, '=') == eq,
            !('0' <= t@[0] <= '9'),
            forall|m: int| 0 <= m < j ==> ascii_alnum(#[trigger] t@[m]) || t@[m] == '_',
        decreases eq - j,
    {
        let c = t[j];
        if !(('0' <= c && c <= '9') || ('a' <= c && c <= 'z') || ('A' <= c && c <= 'Z') || c == '_') {
            assert(!(ascii_alnum(t@[j as int]) || t@[j as int] == '_'));
            return false;
        }
        j = j + 1;
    }
    true
}

/// The first token that is neither a field code nor an assignment.
pub open spec fn first_program(tokens: Seq<Seq<char>>) -> Option<Seq<char>>
    decreases tokens.len(),
{
    if tokens.len() == 0 {
        None
    } else if !field_code(tokens[0]) && !env_assignment(tokens[0]) {
        Some(tokens[0])
    } else {
        first_program(tokens.drop_first())
    }
}

/// The program an `Exec=` line runs: its first token that is not a field
/// code or an assignment, after a leading `env`.
pub open spec fn exec_program_of(exec: Seq<char>) -> Option<Seq<char>> {
    let tokens = exec_tokens(exec);
    if tokens.len() > 0 && tokens[0] == "env"@ {
        first_program(tokens.drop_first())
    } else {
        first_program(tokens)
    }
}

/// First executable token of an `Exec=` line, ignoring field codes and the
/// `env VAR=value` prefix. No shell expansion is performed.
pub fn exec_program(exec: &str) -> (r: Option<String>)
    ensures
        match r {
            Some(p) => exec_program_of(exec@) == Some(p@),
            None => exec_program_of(exec@) is None,
        },
{
    let tokens = split_exec(exec);
    assert(views(tokens@).len() == tokens@.len());
    let mut i: usize = 0;
    if tokens.len() > 0 && str_eq(tokens[0].as_str(), "env") {
        i = 1;
    }
    let ghost all = exec_tokens(exec@);
    assert(all.skip(i as int) =~= if all.len() > 0 && all[0] == "env"@ {
        all.drop_first()
    } else {
        all
    });
    while i < tokens.len()
        invariant
            i <= tokens.len(),
            views(tokens@) == all,
            all == exec_tokens(exec@),
            exec_program_of(exec@) == first_program(all.skip(i as int)),
        decreases tokens.len() - i,
    {
        assert(all.skip(i as int)[0] == tokens@[i as int]@);
        assert(all.skip(i as int).drop_first() =~= all.skip(i + 1));
        if !is_field_code(tokens[i].as_str()) && !is_env_assignment(tokens[i].as_str()) {
            return Some(owned(tokens[i].as_str()));
        }
        i = i + 1;
    }
    assert(all.skip(i as int).len() == 0);
    None
}

/// The last path component of `program`, `Path::file_name`.
pub fn executable_name(program: &str) -> (r: Option<String>)
    ensures
        match r {
            Some(n) => file_name(program@) == Some(n@),
            None => file_name(program@) is None,
        },
{
    let p = chars_of(program);
    match path_file_name(&p) {
        Some(n) => Some(string_of(&n)),
        None => None,
    }
}

/// A path's file stem, `Path::file_stem`.
pub fn file_stem_of(path: &str) -> (r: Option<String>)
    ensures
        match r {
            Some(n) => file_stem(path@) == Some(n@),
            None => file_stem(path@) is None,
        },
{
    let p = chars_of(path);
    match path_file_stem(&p) {
        Some(n) => Some(string_of(&n)),
        None => None,
    }
}

/// A launchable freedesktop application.
#[derive(Clone, Debug)]
pub struct DesktopEntry {
    pub path: String,
    pub name: String,
    pub icon: Option<String>,
    pub executable: Option<String>,
    pub startup_wm_class: Vec<String>,
}

/// `StartupWMClass` separators.
pub open spec fn class_separator(c: char) -> bool {
    c == ';' || c == ','
}

/// Reading a `StartupWMClass` value: finished names and the current piece.
pub open spec fn class_run(s: Seq<char>) -> (Seq<Seq<char>>, Seq<char>)
    decreases s.len(),
{
    if s.len() == 0 {
        (seq![], seq![])
    } else {
        let (done, cur) = class_run(s.drop_last());
        let c = s.last();
        if class_separator(c) {
            if trim(cur).len() > 0 {
                (done.push(trim(cur)), seq![])
            } else {
                (done, seq![])
            }
        } else {
            (done, cur.push(c))
        }
    }
}

/// The window classes a `StartupWMClass` value lists: split at `;` and `,`,
/// trimmed, empty pieces dropped.
pub open spec fn wm_classes(s: Seq<char>) -> Seq<Seq<char>> {
    let (done, cur) = class_run(s);
    if trim(cur).len() > 0 {
        done.push(trim(cur))
    } else {
        done
    }
}

fn split_wm_classes(value: &str) -> (out: Vec<String>)
    ensures
        views(out@) == wm_classes(value@),
{
    let s = chars_of(value);
    let mut done: Vec<Vec<char>> = Vec::new();
    let mut cur: Vec<char> = Vec::new();
    let mut i: usize = 0;
    while i < s.len()
        invariant
            i <= s.len(),
            done@.len() == class_run(s@.take(i as int)).0.len(),
            forall|j: int| 0 <= j < done@.len() ==> #[trigger] done@[j]@ == class_run(
                s@.take(i as int),
            ).0[j],
            cur@ == class_run(s@.take(i as int)).1,
        decreases s.len() - i,
    {
        proof {
            assert(s@.take(i + 1).drop_last() =~= s@.take(i as int));
            assert(s@.take(i + 1).last() == s@[i as int]);
        }
        if s[i] == ';' || s[i] == ',' {
            let piece = trim_chars(&cur);
            if piece.len() > 0 {
                done.push(piece);
            }
            cur = Vec::new();
        } else {
            cur.push(s[i]);
        }
        i = i + 1;
    }
    assert(s@.take(s.len() as int) =~= s@);
    let piece = trim_chars(&cur);
    if piece.len() > 0 {
        done.push(piece);
    }
    let out = strings_of(done);
    assert(views(out@) =~= wm_classes(value@));
    out
}

/// A key's value, with the default used when it is missing.
pub open spec fn value_or(v: Option<Seq<char>>, default: Seq<char>) -> Seq<char> {
    match v {
        Some(x) => x,
        None => default,
    }
}

/// Whether a desktop file describes an application Bloom shows: of type
/// `Application` (the default), neither hidden nor `NoDisplay`, and named.
pub open spec fn listed(contents: Seq<char>) -> bool {
    &&& value_or(desktop_value_of(contents, "Type"@), "Application"@) == "Application"@
    &&& desktop_value_of(contents, "Hidden"@) != Some("true"@)
    &&& desktop_value_of(contents, "NoDisplay"@) != Some("true"@)
    &&& desktop_value_of(contents, "Name"@) is Some
}

/// Which desktop files are listed. An entry marked `Hidden=true` counts as
/// deleted and one marked `NoDisplay=true` is not meant for menus: neither
/// is listed; nor is an entry of another type than `Application`, nor one
/// without a name. A named application entry that is neither hidden nor
/// `NoDisplay` is listed.
pub proof fn lemma_listed_entries(contents: Seq<char>)
    ensures
        desktop_value_of(contents, "Hidden"@) == Some("true"@) ==> !listed(contents),
        desktop_value_of(contents, "NoDisplay"@) == Some("true"@) ==> !listed(contents),
        desktop_value_of(contents, "Name"@) is None ==> !listed(contents),
        (desktop_value_of(contents, "Type"@) matches Some(t) && t != "Application"@) ==> !listed(
            contents,
        ),
        desktop_value_of(contents, "Type"@) is None && desktop_value_of(contents, "Hidden"@)
            is None && desktop_value_of(contents, "NoDisplay"@) is None && desktop_value_of(
            contents,
            "Name"@,
        ) is Some ==> listed(contents),
{
}

/// The executable name an entry runs: the file name of its `Exec=` program.
pub open spec fn entry_executable(contents: Seq<char>) -> Option<Seq<char>> {
    match desktop_value_of(contents, "Exec"@) {
        Some(exec) => match exec_program_of(exec) {
            Some(program) => file_name(program),
            None => None,
        },
        None => None,
    }
}

/// Whether an optional string holds the given characters.
pub open spec fn opt_view(o: Option<String>) -> Option<Seq<char>> {
    match o {
        Some(s) => Some(s@),
        None => None,
    }
}

/// Parse a desktop file found at `path` into a launchable record.
pub fn entry_from_desktop_contents(path: &str, contents: &str) -> (r: Option<DesktopEntry>)
    ensures
        r is Some <==> listed(contents@),
        r matches Some(e) ==> {
            &&& e.path@ == path@
            &&& Some(e.name@) == desktop_value_of(contents@, "Name"@)
            &&& opt_view(e.icon) == desktop_value_of(contents@, "Icon"@)
            &&& opt_view(e.executable) == entry_executable(contents@)
            &&& views(e.startup_wm_class@) == match desktop_value_of(contents@, "StartupWMClass"@) {
                Some(v) => wm_classes(v),
                None => Seq::<Seq<char>>::empty(),
            }
        },
{
    let kind = desktop_value(contents, "Type");
    let is_app = match &kind {
        Some(k) => str_eq(k.as_str(), "Application"),
        None => true,
    };
    if !is_app {
        return None;
    }
    let hidden = desktop_value(contents, "Hidden");
    if let Some(h) = &hidden {
        if str_eq(h.as_str(), "true") {
            return None;
        }
    }
    let no_display = desktop_value(contents, "NoDisplay");
    if let Some(h) = &no_display {
        if str_eq(h.as_str(), "true") {
            return None;
        }
    }
    let name = match desktop_value(contents, "Name") {
        Some(n) => n,
        None => return None,
    };
    let executable = match desktop_value(contents, "Exec") {
        Some(exec) => match exec_program(exec.as_str()) {
            Some(program) => executable_name(program.as_str()),
            None => None,
        },
        None => None,
    };
    let startup_wm_class = match desktop_value(contents, "StartupWMClass") {
        Some(v) => split_wm_classes(v.as_str()),
        None => {
            let v: Vec<String> = Vec::new();
            assert(views(v@) =~= Seq::<Seq<char>>::empty());
            v
        },
    };
    let icon = desktop_value(contents, "Icon");
    Some(DesktopEntry { path: owned(path), name, icon, executable, startup_wm_class })
}

/// Whether entry `e` is found under `k` in one of the three lookup tables:
/// declared WM classes (`kind` 0), executable (1) or desktop file stem (2),
/// all compared lowercase.
pub open spec fn entry_has_key(e: DesktopEntry, kind: int, k: Seq<char>) -> bool {
    if kind == 0 {
        exists|j: int| 0 <= j < e.startup_wm_class@.len() && lowercase(#[trigger] e.startup_wm_class@[j]@) == k
    } else if kind == 1 {
        e.executable matches Some(x) && lowercase(x@) == k
    } else {
        file_stem(e.path@) matches Some(st) && lowercase(st) == k
    }
}

/// The first entry at or after `i` found under `k` in table `kind`; the
/// first entry wins because the tables keep the first index inserted.
pub open spec fn first_from(entries: Seq<DesktopEntry>, kind: int, k: Seq<char>, i: int) -> Option<int>
    decreases entries.len() - i,
{
    if i < 0 || i >= entries.len() {
        None
    } else if entry_has_key(entries[i], kind, k) {
        Some(i)
    } else {
        first_from(entries, kind, k, i + 1)
    }
}

/// The entry a table maps `k` to.
pub open spec fn table_get(entries: Seq<DesktopEntry>, kind: int, k: Seq<char>) -> Option<int> {
    first_from(entries, kind, k, 0)
}

/// One table, falling back to the desktop file stems.
pub open spec fn with_stem(entries: Seq<DesktopEntry>, kind: int, k: Seq<char>) -> Option<int> {
    match table_get(entries, kind, k) {
        Some(i) => Some(i),
        None => table_get(entries, 2, k),
    }
}

/// The entry a window belongs to: its WM class and then its instance name
/// (each skipped when empty) against declared classes and file stems, then
/// its executable against executables and file stems.
pub open spec fn matched(
    entries: Seq<DesktopEntry>,
    wm_class: Seq<char>,
    instance: Seq<char>,
    executable: Option<Seq<char>>,
) -> Option<int> {
    let a = lowercase(wm_class);
    let b = lowercase(instance);
    if a.len() > 0 && with_stem(entries, 0, a) is Some {
        with_stem(entries, 0, a)
    } else if b.len() > 0 && with_stem(entries, 0, b) is Some {
        with_stem(entries, 0, b)
    } else {
        match executable {
            Some(e) => with_stem(entries, 1, lowercase(e)),
            None => None,
        }
    }
}

/// The lowercase lookup keys of one entry.
struct EntryKeys {
    wm: Vec<Vec<char>>,
    exe: Option<Vec<char>>,
    stem: Option<Vec<char>>,
}

/// Lookup tables that attribute an X11 window to a `.desktop` entry.
pub struct EntryIndex {
    entries: Vec<DesktopEntry>,
    keys: Vec<EntryKeys>,
}

impl EntryIndex {
    /// The indexed entries, in the order given.
    pub closed spec fn entries(&self) -> Seq<DesktopEntry> {
        self.entries@
    }

    /// The precomputed keys belong to the entries.
    pub closed spec fn wf(&self) -> bool {
        &&& self.keys@.len() == self.entries@.len()
        &&& forall|i: int| 0 <= i < self.keys@.len() ==> keys_of(#[trigger] self.keys@[i], self.entries@[i])
    }

    /// Index the given entries.
    pub fn build(entries: Vec<DesktopEntry>) -> (index: Self)
        ensures
            index.wf(),
            index.entries() == entries@,
    {
        let mut keys: Vec<EntryKeys> = Vec::new();
        let mut i: usize = 0;
        while i < entries.len()
            invariant
                i <= entries.len(),
                keys@.len() == i,
                forall|j: int| 0 <= j < i ==> keys_of(#[trigger] keys@[j], entries@[j]),
            decreases entries.len() - i,
        {
            let e = &entries[i];
            let mut wm: Vec<Vec<char>> = Vec::new();
            let mut j: usize = 0;
            while j < e.startup_wm_class.len()
                invariant
                    j <= e.startup_wm_class.len(),
                    wm@.len() == j,
                    forall|m: int| 0 <= m < j ==> #[trigger] wm@[m]@ == lowercase(e.startup_wm_class@[m]@),
                decreases e.startup_wm_class.len() - j,
            {
                let c = chars_of(e.startup_wm_class[j].as_str());
                wm.push(lowercase_chars(&c));
                j = j + 1;
            }
            let exe = match &e.executable {
                Some(x) => {
                    let c = chars_of(x.as_str());
                    Some(lowercase_chars(&c))
                },
                None => None,
            };
            let p = chars_of(e.path.as_str());
            let stem = match path_file_stem(&p) {
                Some(st) => Some(lowercase_chars(&st)),
                None => None,
            };
            keys.push(EntryKeys { wm, exe, stem });
            i = i + 1;
        }
        EntryIndex { entries, keys }
    }

    fn find(&self, kind: u8, k: &[char]) -> (r: Option<usize>)
        requires
            self.wf(),
            kind <= 2,
        ensures
            match r {
                Some(i) => table_get(self.entries(), kind as int, k@) == Some(i as int) && i < self.entries@.len(),
                None => table_get(self.entries(), kind as int, k@) is None,
            },
    {
        let n = self.entries.len();
        let mut i: usize = n;
        let mut best: Option<usize> = None;
        // Walk from the back so the earliest match is the last one kept.
        while i > 0
            invariant
                i <= n == self.entries@.len(),
                self.wf(),
                kind <= 2,
                match best {
                    Some(b) => i <= b < n && first_from(self.entries@, kind as int, k@, i as int) == Some(b as int),
                    None => first_from(self.entries@, kind as int, k@, i as int) is None,
                },
            decreases i,
        {
            i = i - 1;
            let keys = &self.keys[i];
            assert(keys_of(*keys, self.entries@[i as int]));
            let hit = if kind == 0 {
                let mut j: usize = 0;
                let mut found = false;
                while j < keys.wm.len()
                    invariant
                        j <= keys.wm.len(),
                        found == exists|m: int| 0 <= m < j && keys.wm@[m]@ == k@,
                    decreases keys.wm.len() - j,
                {
                    if chars_eq(&keys.wm[j], k) {
                        found = true;
                    }
                    j = j + 1;
                }
                proof {
                    let e = self.entries@[i as int];
                    if found {
                        let m = choose|m: int| 0 <= m < keys.wm@.len() && keys.wm@[m]@ == k@;
                        assert(lowercase(e.startup_wm_class@[m]@) == k@);
                    } else {
                        assert forall|m: int| 0 <= m < e.startup_wm_class@.len() implies lowercase(
                            #[trigger] e.startup_wm_class@[m]@,
                        ) != k@ by {
                            assert(keys.wm@[m]@ == lowercase(e.startup_wm_class@[m]@));
                        }
                    }
                }
                found
            } else if kind == 1 {
                match &keys.exe {
                    Some(x) => chars_eq(x, k),
                    None => false,
                }
            } else {
                match &keys.stem {
                    Some(x) => chars_eq(x, k),
                    None => false,
                }
            };
            assert(hit == entry_has_key(self.entries@[i as int], kind as int, k@));
            if hit {
                best = Some(i);
            }
        }
        best
    }

    fn with_stem(&self, kind: u8, k: &[char]) -> (r: Option<usize>)
        requires
            self.wf(),
            kind <= 1,
        ensures
            match r {
                Some(i) => with_stem(self.entries(), kind as int, k@) == Some(i as int) && i < self.entries@.len(),
                None => with_stem(self.entries(), kind as int, k@) is None,
            },
    {
        match self.find(kind, k) {
            Some(i) => Some(i),
            None => self.find(2, k),
        }
    }

    /// Match a window using the standard hints in order of reliability:
    /// declared WM class, desktop file name, then the process executable.
    pub fn match_window(&self, wm_class: &str, instance: &str, executable: Option<&str>) -> (r: Option<
        &DesktopEntry,
    >)
        requires
            self.wf(),
        ensures
            match matched(self.entries(), wm_class@, instance@, opt_str(executable)) {
                Some(i) => r matches Some(e) && 0 <= i < self.entries().len() && *e == self.entries()[i],
                None => r is None,
            },
    {
        let a = lowercase_chars(&chars_of(wm_class));
        if a.len() > 0 {
            if let Some(i) = self.with_stem(0, &a) {
                return Some(&self.entries[i]);
            }
        }
        let b = lowercase_chars(&chars_of(instance));
        if b.len() > 0 {
            if let Some(i) = self.with_stem(0, &b) {
                return Some(&self.entries[i]);
            }
        }
        match executable {
            Some(e) => {
                let l = lowercase_chars(&chars_of(e));
                match self.with_stem(1, &l) {
                    Some(i) => Some(&self.entries[i]),
                    None => None,
                }
            },
            None => None,
        }
    }

    /// The first entry whose name equals `name`, ignoring ASCII case.
    fn find_by_name(&self, name: &str) -> (r: Option<usize>)
        ensures
            match r {
                Some(i) => i < self.entries@.len() && named_first(self.entries(), name@, 0) == Some(i as int),
                None => named_first(self.entries(), name@, 0) is None,
            },
    {
        let target = ascii_lowercase_chars(&chars_of(name));
        let n = self.entries.len();
        let mut i: usize = n;
        let mut best: Option<usize> = None;
        while i > 0
            invariant
                i <= n == self.entries@.len(),
                target@ == ascii_lower_seq(name@),
                match best {
                    Some(b) => i <= b < n && named_first(self.entries@, name@, i as int) == Some(b as int),
                    None => named_first(self.entries@, name@, i as int) is None,
                },
            decreases i,
        {
            i = i - 1;
            let candidate = ascii_lowercase_chars(&chars_of(self.entries[i].name.as_str()));
            if chars_eq(&candidate, &target) {
                best = Some(i);
            }
        }
        best
    }
}

/// The characters of an optional string slice.
pub open spec fn opt_str(o: Option<&str>) -> Option<Seq<char>> {
    match o {
        Some(s) => Some(s@),
        None => None,
    }
}

/// The precomputed keys are the lowercase forms of the entry's hints.
spec fn keys_of(k: EntryKeys, e: DesktopEntry) -> bool {
    &&& k.wm@.len() == e.startup_wm_class@.len()
    &&& forall|m: int| 0 <= m < k.wm@.len() ==> #[trigger] k.wm@[m]@ == lowercase(e.startup_wm_class@[m]@)
    &&& match k.exe {
        Some(x) => e.executable matches Some(y) && x@ == lowercase(y@),
        None => e.executable is None,
    }
    &&& match k.stem {
        Some(x) => file_stem(e.path@) matches Some(y) && x@ == lowercase(y),
        None => file_stem(e.path@) is None,
    }
}

/// The first entry at or after `i` whose name equals `name` ignoring ASCII
/// case.
pub open spec fn named_first(entries: Seq<DesktopEntry>, name: Seq<char>, i: int) -> Option<int>
    decreases entries.len() - i,
{
    if i < 0 || i >= entries.len() {
        None
    } else if eq_ignore_ascii_case(entries[i].name@, name) {
        Some(i)
    } else {
        named_first(entries, name, i + 1)
    }
}

/// The icon name for a dock item: the `Icon=` of its desktop file, then the
/// icon of the entry its executable name matches, then that of the entry
/// with its display name, then the file stem of its path.
pub open spec fn icon_name_of(
    path: Seq<char>,
    name: Option<Seq<char>>,
    desktop_contents: Option<Seq<char>>,
    entries: Seq<DesktopEntry>,
) -> Option<Seq<char>> {
    let from_file = match desktop_contents {
        Some(c) => desktop_value_of(c, "Icon"@),
        None => None,
    };
    let exe = match file_name(path) {
        Some(n) => Some(lowercase(n)),
        None => None,
    };
    let by_exe = match exe {
        Some(x) => match matched(entries, x, x, Some(x)) {
            Some(i) => opt_view(entries[i].icon),
            None => None,
        },
        None => None,
    };
    if ends_with(path, ".desktop"@) && from_file is Some {
        from_file
    } else if by_exe is Some {
        by_exe
    } else {
        match name {
            Some(n) => match named_first(entries, n, 0) {
                Some(i) => opt_view(entries[i].icon),
                None => file_stem(path),
            },
            None => file_stem(path),
        }
    }
}

/// Resolve an icon name for a dock item given its path and optional display
/// name. `desktop_contents` is the text of the file at `path`, when it can
/// be read; it is only consulted for `.desktop` paths.
pub fn icon_name_for(path: &str, name: Option<&str>, desktop_contents: Option<&str>, index: &EntryIndex) -> (r: Option<String>)
    requires
        index.wf(),
    ensures
        opt_view(r) == icon_name_of(path@, opt_str(name), opt_str(desktop_contents), index.entries()),
{
    let p = chars_of(path);
    let suffix = chars_of(".desktop");
    if has_suffix(&p, &suffix) {
        if let Some(contents) = desktop_contents {
            if let Some(icon) = desktop_value(contents, "Icon") {
                return Some(icon);
            }
        }
    }
    let file = path_file_name(&p);
    if let Some(f) = file {
        let exe = string_of(&lowercase_chars(&f));
        let exe_str = exe.as_str();
        if let Some(entry) = index.match_window(exe_str, exe_str, Some(exe_str)) {
            if let Some(icon) = &entry.icon {
                return Some(owned(icon.as_str()));
            }
        }
    }
    if let Some(n) = name {
        if let Some(i) = index.find_by_name(n) {
            return match &index.entries[i].icon {
                Some(icon) => Some(owned(icon.as_str())),
                None => None,
            };
        }
    }
    file_stem_of(path)
}

/// An installed application as a dock item that is not running.
pub open spec fn app_of(e: DesktopEntry, a: AppInfo) -> bool {
    &&& a.name@ == e.name@
    &&& a.path@ == e.path@
    &&& opt_view(a.icon) == opt_view(e.icon)
    &&& !a.is_running
    &&& a.hwnd is None
    &&& opt_view(a.executable) == opt_view(e.executable)
    &&& a.all_hwnds is None
}

/// Every installed application as a dock item, in inventory order.
pub fn discover(entries: Vec<DesktopEntry>) -> (apps: Vec<AppInfo>)
    ensures
        apps@.len() == entries@.len(),
        forall|i: int| 0 <= i < apps@.len() ==> app_of(entries@[i], #[trigger] apps@[i]),
{
    let mut apps: Vec<AppInfo> = Vec::new();
    let mut i: usize = 0;
    while i < entries.len()
        invariant
            i <= entries.len(),
            apps@.len() == i,
            forall|j: int| 0 <= j < i ==> app_of(entries@[j], #[trigger] apps@[j]),
        decreases entries.len() - i,
    {
        let e = &entries[i];
        let icon = match &e.icon {
            Some(x) => Some(owned(x.as_str())),
            None => None,
        };
        let executable = match &e.executable {
            Some(x) => Some(owned(x.as_str())),
            None => None,
        };
        apps.push(AppInfo {
            name: owned(e.name.as_str()),
            path: owned(e.path.as_str()),
            icon,
            is_running: false,
            hwnd: None,
            executable,
            all_hwnds: None,
        });
        i = i + 1;
    }
    apps
}

/// The tokens that are not field codes, in order.
pub open spec fn without_field_codes(tokens: Seq<Seq<char>>) -> Seq<Seq<char>>
    decreases tokens.len(),
{
    if tokens.len() == 0 {
        tokens
    } else if field_code(tokens.last()) {
        without_field_codes(tokens.drop_last())
    } else {
        without_field_codes(tokens.drop_last()).push(tokens.last())
    }
}

/// The command line a desktop file launches: the `Exec=` tokens without
/// field codes, as program and arguments.
pub open spec fn launch_args_of(contents: Seq<char>) -> Result<Seq<Seq<char>>, Seq<char>> {
    match desktop_value_of(contents, "Exec"@) {
        None => Err("Desktop entry has no Exec field"@),
        Some(exec) => {
            let args = without_field_codes(exec_tokens(exec));
            if args.len() == 0 {
                Err("Desktop entry has an empty Exec field"@)
            } else {
                Ok(args)
            }
        },
    }
}

/// Program and arguments for launching a desktop file without a shell.
/// Field codes are removed; `env` prefixes and their assignments are kept.
pub fn launch_command(contents: &str) -> (r: Result<(String, Vec<String>), String>)
    ensures
        match r {
            Ok((program, args)) => launch_args_of(contents@) == Ok::<Seq<Seq<char>>, Seq<char>>(
                seq![program@] + views(args@),
            ),
            Err(e) => launch_args_of(contents@) == Err::<Seq<Seq<char>>, Seq<char>>(e@),
        },
{
    let exec = match desktop_value(contents, "Exec") {
        Some(e) => e,
        None => return Err(owned("Desktop entry has no Exec field")),
    };
    let tokens = split_exec(exec.as_str());
    let ghost all = exec_tokens(exec@);
    let mut args: Vec<String> = Vec::new();
    let mut i: usize = 0;
    while i < tokens.len()
        invariant
            i <= tokens.len(),
            views(tokens@) == all,
            views(args@) == without_field_codes(all.take(i as int)),
        decreases tokens.len() - i,
    {
        assert(all.take(i + 1).drop_last() =~= all.take(i as int));
        assert(all.take(i + 1).last() == tokens@[i as int]@);
        if !is_field_code(tokens[i].as_str()) {
            args.push(owned(tokens[i].as_str()));
            assert(views(args@) =~= without_field_codes(all.take(i as int)).push(tokens@[i as int]@));
        }
        i = i + 1;
    }
    assert(all.take(tokens.len() as int) =~= all);
    if args.len() == 0 {
        return Err(owned("Desktop entry has an empty Exec field"));
    }
    let program = args.remove(0);
    assert(seq![program@] + views(args@) =~= without_field_codes(all));
    Ok((program, args))
}

/// The inventory with `e` filed under `key`: an entry already filed under
/// that key is replaced, otherwise `e` goes in key order, as a `BTreeMap`
/// keyed by the lowercase name keeps it.
pub open spec fn inventory_insert(s: Seq<(Seq<char>, DesktopEntry)>, key: Seq<char>, e: DesktopEntry) -> Seq<
    (Seq<char>, DesktopEntry),
>
    decreases s.len(),
{
    if s.len() == 0 {
        seq![(key, e)]
    } else if s.last().0 == key {
        s.drop_last().push((key, e))
    } else if text_le(s.last().0, key) {
        s.push((key, e))
    } else {
        inventory_insert(s.drop_last(), key, e).push(s.last())
    }
}

/// The entries found, filed by lowercase name in the order found: one entry
/// per name, the one found last (the user's own) winning, in name order.
pub open spec fn inventory(found: Seq<DesktopEntry>) -> Seq<(Seq<char>, DesktopEntry)>
    decreases found.len(),
{
    if found.len() == 0 {
        Seq::empty()
    } else {
        inventory_insert(inventory(found.drop_last()), lowercase(found.last().name@), found.last())
    }
}

/// The keyed inventory's views.
pub open spec fn keyed_views(v: Seq<(String, DesktopEntry)>) -> Seq<(Seq<char>, DesktopEntry)> {
    v.map_values(|p: (String, DesktopEntry)| (p.0@, p.1))
}

proof fn lemma_inventory_insert_at(s: Seq<(Seq<char>, DesktopEntry)>, key: Seq<char>, e: DesktopEntry, p: int)
    requires
        0 <= p <= s.len(),
        forall|q: int| p <= q < s.len() ==> !text_le(#[trigger] s[q].0, key),
        p == 0 || text_le(s[p - 1].0, key),
    ensures
        inventory_insert(s, key, e) == if p > 0 && s[p - 1].0 == key {
            s.update(p - 1, (key, e))
        } else {
            s.insert(p, (key, e))
        },
    decreases s.len(),
{
    if s.len() == 0 {
        assert(s.insert(p, (key, e)) =~= seq![(key, e)]);
    } else if p == s.len() {
        if s.last().0 == key {
            assert(s.update(p - 1, (key, e)) =~= s.drop_last().push((key, e)));
        } else {
            assert(s.insert(p, (key, e)) =~= s.push((key, e)));
        }
    } else {
        let init = s.drop_last();
        assert(s.last() == s[s.len() - 1]);
        assert(!text_le(s.last().0, key));
        assert(s.last().0 != key) by {
            if s.last().0 == key {
                lemma_text_le_reflexive(key);
            }
        }
        lemma_inventory_insert_at(init, key, e, p);
        if p > 0 && s[p - 1].0 == key {
            assert(init.update(p - 1, (key, e)).push(s.last()) =~= s.update(p - 1, (key, e)));
        } else {
            assert(init.insert(p, (key, e)).push(s.last()) =~= s.insert(p, (key, e)));
        }
    }
}

proof fn lemma_text_le_reflexive(a: Seq<char>)
    ensures
        text_le(a, a),
    decreases a.len(),
{
    if a.len() > 0 {
        lemma_text_le_reflexive(a.drop_first());
    }
}

fn file_entry(inv: &mut Vec<(String, DesktopEntry)>, key: String, e: DesktopEntry)
    ensures
        keyed_views(final(inv)@) == inventory_insert(keyed_views(old(inv)@), key@, e),
{
    let ghost before = keyed_views(inv@);
    let key_chars = chars_of(key.as_str());
    let mut p: usize = inv.len();
    loop
        invariant
            p <= inv.len(),
            before == keyed_views(inv@),
            before == keyed_views(old(inv)@),
            key_chars@ == key@,
            forall|q: int| p <= q < before.len() ==> !text_le(#[trigger] before[q].0, key@),
        decreases p,
    {
        if p == 0 {
            proof {
                lemma_inventory_insert_at(before, key@, e, 0);
            }
            let ghost k = key@;
            inv.insert(0, (key, e));
            assert(keyed_views(inv@) =~= before.insert(0, (k, e)));
            return;
        }
        let at = chars_of(inv[p - 1].0.as_str());
        if chars_le(&at, &key_chars) {
            assert(text_le(before[p - 1].0, key@));
            proof {
                lemma_inventory_insert_at(before, key@, e, p as int);
            }
            let ghost k = key@;
            if crate::text::chars_eq(&at, &key_chars) {
                inv.set(p - 1, (key, e));
                assert(keyed_views(inv@) =~= before.update(p - 1, (k, e)));
            } else {
                inv.insert(p, (key, e));
                assert(keyed_views(inv@) =~= before.insert(p as int, (k, e)));
            }
            return;
        }
        p = p - 1;
    }
}

/// All launchable entries found, deduplicated by name: one entry per
/// lowercase name, the one found last winning (user entries are read after
/// the system's), ordered by that name.
pub fn entries(found: Vec<DesktopEntry>) -> (r: Vec<DesktopEntry>)
    ensures
        r@ == inventory(found@).map_values(|p: (Seq<char>, DesktopEntry)| p.1),
{
    let ghost all = found@;
    let count: usize = found.len();
    let mut rest = found;
    let mut inv: Vec<(String, DesktopEntry)> = Vec::new();
    let mut k: usize = 0;
    assert(all.skip(0) =~= all);
    assert(keyed_views(inv@) =~= inventory(all.take(0)));
    while rest.len() > 0
        invariant
            k <= all.len(),
            all.len() == count,
            rest@ == all.skip(k as int),
            keyed_views(inv@) == inventory(all.take(k as int)),
        decreases rest.len(),
    {
        let e = rest.remove(0);
        proof {
            assert(all.take(k + 1).drop_last() =~= all.take(k as int));
            assert(all.take(k + 1).last() == e);
            assert(rest@ =~= all.skip(k + 1));
        }
        let key = to_lowercase(e.name.as_str());
        file_entry(&mut inv, key, e);
        k = k + 1;
    }
    assert(all.take(k as int) =~= all);
    let ghost filed = keyed_views(inv@);
    let mut out: Vec<DesktopEntry> = Vec::new();
    let mut taken: usize = 0;
    let total: usize = inv.len();
    let mut left = inv;
    assert(keyed_views(left@) =~= filed.skip(0));
    while left.len() > 0
        invariant
            taken <= total,
            total == filed.len(),
            keyed_views(left@) == filed.skip(taken as int),
            out@ == filed.take(taken as int).map_values(|p: (Seq<char>, DesktopEntry)| p.1),
        decreases left.len(),
    {
        let ghost before_left = left@;
        let pair = left.remove(0);
        proof {
            assert(pair == before_left[0]);
            assert(keyed_views(before_left).len() == before_left.len());
            assert(taken < filed.len());
            assert(keyed_views(before_left)[0] == filed.skip(taken as int)[0]);
            assert(filed.skip(taken as int)[0] == filed[taken as int]);
            assert(left@ =~= before_left.skip(1));
            assert(keyed_views(left@) =~= keyed_views(before_left).skip(1));
            assert(keyed_views(left@) =~= filed.skip(taken + 1));
        }
        let e = pair.1;
        out.push(e);
        assert(out@ =~= filed.take(taken + 1).map_values(|p: (Seq<char>, DesktopEntry)| p.1));
        taken = taken + 1;
    }
    assert(filed.take(taken as int) =~= filed);
    out
}

/// Only `.desktop` files describe applications.
pub fn is_desktop_file(path: &str) -> (r: bool)
    ensures
        r == (extension(path@) == Some("desktop"@)),
{
    let chars = chars_of(path);
    let want = chars_of("desktop");
    match path_extension(&chars) {
        Some(e) => crate::text::chars_eq(&e, &want),
        None => false,
    }
}

/// The application inventory is reread after this many milliseconds.
pub const INVENTORY_TTL_MS: u64 = 10000;

/// Whether an inventory read at `stamp` may still be used at `now` (a clock
/// that went backwards counts as no time passed).
pub fn inventory_is_fresh(stamp: u64, now: u64) -> (r: bool)
    ensures
        r == (now < stamp || now - stamp < INVENTORY_TTL_MS),
{
    now < stamp || now - stamp < INVENTORY_TTL_MS
}

proof fn lemma_text_le_antisymmetric(a: Seq<char>, b: Seq<char>)
    requires
        text_le(a, b),
        text_le(b, a),
    ensures
        a == b,
    decreases a.len(),
{
    if a.len() > 0 && b.len() > 0 {
        lemma_text_le_antisymmetric(a.drop_first(), b.drop_first());
        assert(a =~= seq![a[0]] + a.drop_first());
        assert(b =~= seq![b[0]] + b.drop_first());
    }
}

/// Names strictly in order: each at most once.
pub open spec fn strictly_ordered(s: Seq<(Seq<char>, DesktopEntry)>) -> bool {
    forall|i: int, j: int| 0 <= i < j < s.len() ==> text_le(#[trigger] s[i].0, #[trigger] s[j].0) && s[i].0 != s[j].0
}

proof fn lemma_inventory_insert_contents(s: Seq<(Seq<char>, DesktopEntry)>, key: Seq<char>, e: DesktopEntry)
    ensures
        forall|k: int| 0 <= k < inventory_insert(s, key, e).len() ==> (#[trigger] inventory_insert(s, key, e)[k]
            == (key, e) || s.contains(inventory_insert(s, key, e)[k])),
    decreases s.len(),
{
    let r = inventory_insert(s, key, e);
    if s.len() == 0 {
    } else if s.last().0 == key {
        assert forall|k: int| 0 <= k < r.len() implies (#[trigger] r[k] == (key, e) || s.contains(r[k])) by {
            if k < s.len() - 1 {
                assert(r[k] == s[k]);
            }
        }
    } else if text_le(s.last().0, key) {
        assert forall|k: int| 0 <= k < r.len() implies (#[trigger] r[k] == (key, e) || s.contains(r[k])) by {
            if k < s.len() {
                assert(r[k] == s[k]);
            }
        }
    } else {
        let init = s.drop_last();
        lemma_inventory_insert_contents(init, key, e);
        let inner = inventory_insert(init, key, e);
        assert forall|k: int| 0 <= k < r.len() implies (#[trigger] r[k] == (key, e) || s.contains(r[k])) by {
            if k < r.len() - 1 {
                assert(r[k] == inner[k]);
                if init.contains(inner[k]) {
                    let m = choose|m: int| 0 <= m < init.len() && init[m] == inner[k];
                    assert(s[m] == inner[k]);
                }
            } else {
                assert(r[k] == s[s.len() - 1]);
            }
        }
    }
}

proof fn lemma_inventory_insert_ordered(s: Seq<(Seq<char>, DesktopEntry)>, key: Seq<char>, e: DesktopEntry)
    requires
        strictly_ordered(s),
    ensures
        strictly_ordered(inventory_insert(s, key, e)),
    decreases s.len(),
{
    let r = inventory_insert(s, key, e);
    if s.len() == 0 {
    } else if s.last().0 == key {
        assert forall|i: int, j: int| 0 <= i < j < r.len() implies text_le(#[trigger] r[i].0, #[trigger] r[j].0)
            && r[i].0 != r[j].0 by {
            assert(r[i].0 == s[i].0 && r[j].0 == s[j].0);
        }
    } else if text_le(s.last().0, key) {
        assert forall|i: int, j: int| 0 <= i < j < r.len() implies text_le(#[trigger] r[i].0, #[trigger] r[j].0)
            && r[i].0 != r[j].0 by {
            if j == r.len() - 1 && i < s.len() - 1 {
                lemma_text_le_transitive(s[i].0, s.last().0, key);
                if s[i].0 == key {
                    lemma_text_le_antisymmetric(s.last().0, key);
                }
            }
        }
    } else {
        let init = s.drop_last();
        lemma_inventory_insert_ordered(init, key, e);
        lemma_inventory_insert_contents(init, key, e);
        lemma_text_le_total(s.last().0, key);
        lemma_text_le_reflexive(key);
        let inner = inventory_insert(init, key, e);
        assert forall|i: int, j: int| 0 <= i < j < r.len() implies text_le(#[trigger] r[i].0, #[trigger] r[j].0)
            && r[i].0 != r[j].0 by {
            if j == r.len() - 1 {
                assert(r[i] == inner[i]);
                if inner[i] != (key, e) {
                    assert(init.contains(inner[i]));
                    let m = choose|m: int| 0 <= m < init.len() && init[m] == inner[i];
                    assert(s[m] == init[m]);
                }
            } else {
                assert(r[i] == inner[i] && r[j] == inner[j]);
            }
        }
    }
}

/// The inventory holds each lowercase name once, in name order.
pub proof fn lemma_inventory_names_unique_and_ordered(found: Seq<DesktopEntry>)
    ensures
        strictly_ordered(inventory(found)),
    decreases found.len(),
{
    if found.len() > 0 {
        lemma_inventory_names_unique_and_ordered(found.drop_last());
        lemma_inventory_insert_ordered(inventory(found.drop_last()), lowercase(found.last().name@), found.last());
    }
}

proof fn lemma_inventory_insert_holds(s: Seq<(Seq<char>, DesktopEntry)>, key: Seq<char>, e: DesktopEntry)
    ensures
        inventory_insert(s, key, e).contains((key, e)),
    decreases s.len(),
{
    let r = inventory_insert(s, key, e);
    if s.len() == 0 {
        assert(r[0] == (key, e));
    } else if s.last().0 == key || text_le(s.last().0, key) {
        assert(r[r.len() - 1] == (key, e));
    } else {
        lemma_inventory_insert_holds(s.drop_last(), key, e);
        let inner = inventory_insert(s.drop_last(), key, e);
        let m = choose|m: int| 0 <= m < inner.len() && inner[m] == (key, e);
        assert(r[m] == (key, e));
    }
}

/// The entry found last is the one kept under its name, so a user's own
/// entry, read after the system's, wins.
pub proof fn lemma_last_found_entry_wins(found: Seq<DesktopEntry>)
    requires
        found.len() > 0,
    ensures
        inventory(found).contains((lowercase(found.last().name@), found.last())),
{
    lemma_inventory_insert_holds(inventory(found.drop_last()), lowercase(found.last().name@), found.last());
}

/// The directories applications are read from, system first, so that the
/// user's own entries, read last, win.
pub fn application_dirs(home: Option<&str>) -> (r: Vec<String>)
    ensures
        views(r@) == seq!["/usr/local/share/applications"@, "/usr/share/applications"@] + (match home {
            Some(h) => seq![crate::path::join_path(h@, ".local/share/applications"@)],
            None => Seq::<Seq<char>>::empty(),
        }),
{
    let mut dirs: Vec<String> = Vec::new();
    dirs.push(owned("/usr/local/share/applications"));
    dirs.push(owned("/usr/share/applications"));
    if let Some(h) = home {
        let d = chars_of(h);
        let n = chars_of(".local/share/applications");
        dirs.push(string_of(&crate::path::path_join(&d, &n)));
    }
    proof {
        let expected = seq!["/usr/local/share/applications"@, "/usr/share/applications"@] + (match home {
            Some(h) => seq![crate::path::join_path(h@, ".local/share/applications"@)],
            None => Seq::<Seq<char>>::empty(),
        });
        assert(views(dirs@) =~= expected);
    }
    dirs
}

} // verus!
