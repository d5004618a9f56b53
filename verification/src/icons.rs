//! Freedesktop icon theme lookup over a snapshot of the icon directories:
//! explicit paths win, then the desktop's icon theme, then the other
//! installed themes, then the flat pixmap directories.
use vstd::prelude::*;
use crate::text::{
    chars_of, string_of, owned, slice_chars, extend_chars, trim, trim_chars, strip_end, starts_with, trim_char,
    lemma_strip_end_take, first_index_of, find_char_from, contains_seq, contains_chars,
    ascii_lower_seq, ascii_lowercase_chars, chars_eq, str_eq,
};
use crate::number::{parse_u32, parse_u32_spec, saturating_mul_u32};
use crate::text::{text_le, chars_le, lemma_text_le_total, lemma_text_le_transitive};
use crate::path::{extension, path_extension, join_path, path_join};
use crate::textmap::TextMap;

verus! {

broadcast use vstd::string::group_string_axioms;

/// Scalable art wins over any raster size.
pub const SCALABLE_SCORE: u32 = 1000000;

/// The directory names that hold application icons.
pub open spec fn categories() -> Seq<Seq<char>> {
    seq!["apps"@, "applications"@, "categories"@, "devices"@, "mimetypes"@, "places"@, "status"@]
}

/// Whether a directory name is an icon category.
pub fn is_category(name: &str) -> (r: bool)
    ensures
        r == categories().contains(name@),
{
    let names = ["apps", "applications", "categories", "devices", "mimetypes", "places", "status"];
    let ghost all = categories();
    assert(forall|i: int| 0 <= i < 7 ==> #[trigger] names@[i]@ == all[i]);
    let mut i: usize = 0;
    while i < 7
        invariant
            i <= 7,
            all == categories(),
            forall|k: int| 0 <= k < 7 ==> #[trigger] names@[k]@ == all[k],
            forall|j: int| 0 <= j < i ==> all[j] != name@,
        decreases 7 - i,
    {
        if str_eq(names[i], name) {
            assert(all[i as int] == name@);
            return true;
        }
        i = i + 1;
    }
    assert(!all.contains(name@)) by {
        if all.contains(name@) {
            let k = choose|k: int| 0 <= k < all.len() && all[k] == name@;
            assert(all.len() == 7);
        }
    }
    false
}

/// Whether a directory holds symbolic (monochrome) icons, which are never
/// used.
pub fn is_symbolic(dir_name: &str) -> (r: bool)
    ensures
        r == contains_seq(dir_name@, "symbolic"@),
{
    let chars = chars_of(dir_name);
    let word = chars_of("symbolic");
    contains_chars(&chars, &word)
}

/// Accessibility-first themes are kept as a last resort, so the dock keeps
/// the desktop's normal, colourful artwork whenever it exists.
pub open spec fn low_colour_name(name: Seq<char>) -> bool {
    let lower = ascii_lower_seq(name);
    contains_seq(lower, "contrast"@) || contains_seq(lower, "locolor"@)
}

/// Whether a theme is an accessibility-first one.
pub fn is_low_colour_theme(name: &str) -> (r: bool)
    ensures
        r == low_colour_name(name@),
{
    let chars = chars_of(name);
    let lower = ascii_lowercase_chars(&chars);
    let contrast = chars_of("contrast");
    let locolor = chars_of("locolor");
    contains_chars(&lower, &contrast) || contains_chars(&lower, &locolor)
}

/// The separator of a size directory's width and height.
pub open spec fn is_x(c: char) -> bool {
    c == 'x' || c == 'X'
}

/// The text before the first `x` or `X`.
pub open spec fn before_x(s: Seq<char>) -> Seq<char>
    decreases s.len(),
{
    if s.len() == 0 {
        s
    } else if is_x(s[0]) {
        Seq::empty()
    } else {
        seq![s[0]] + before_x(s.drop_first())
    }
}

/// A number read from a size directory's name, or 1 when it is not one.
pub open spec fn number_or_one(s: Seq<char>) -> u32 {
    match parse_u32_spec(trim(s)) {
        Some(v) => v,
        None => 1,
    }
}

/// The pixel size a size directory stands for: its width (the part before
/// any `x`) times its scale (after an `@`, without trailing `x`), each 1 when
/// unreadable, the product saturating at the largest `u32`. Both `48x48`
/// and `256@2x` spellings are understood.
pub open spec fn size_score_of(d: Seq<char>) -> int {
    let at = first_index_of(d, '@');
    let base_text = if at < 0 {
        d
    } else {
        d.take(at)
    };
    let scale_text = if at < 0 {
        "1"@
    } else {
        strip_end(d.skip(at + 1), |c: char| is_x(c))
    };
    let product = number_or_one(before_x(base_text)) * number_or_one(scale_text);
    if product > u32::MAX {
        u32::MAX as int
    } else {
        product
    }
}

fn number_or_one_of(s: &[char]) -> (r: u32)
    ensures
        r == number_or_one(s@),
{
    let t = trim_chars(s);
    match parse_u32(&t) {
        Some(v) => v,
        None => 1,
    }
}

/// Score a size directory so larger raster icons win.
pub fn size_score(directory: &str) -> (r: u32)
    ensures
        r == size_score_of(directory@),
{
    let d = chars_of(directory);
    assert(d@.skip(0) =~= d@);
    let at = find_char_from(&d, '@', 0);
    let (base_text, scale_text) = match at {
        Some(i) => {
            let base = slice_chars(&d, 0, i);
            let mut end = d.len();
            while end > i + 1 && (d[end - 1] == 'x' || d[end - 1] == 'X')
                invariant
                    i + 1 <= end <= d.len(),
                    forall|j: int| end <= j < d.len() ==> is_x(#[trigger] d@[j]),
                decreases end,
            {
                end = end - 1;
            }
            let scale = slice_chars(&d, i + 1, end);
            proof {
                let rest = d@.skip(i + 1);
                let k = end - (i + 1);
                assert forall|j: int| k <= j < rest.len() implies (|c: char| is_x(c))(#[trigger] rest[j]) by {
                    assert(rest[j] == d@[j + i + 1]);
                }
                lemma_strip_end_take(rest, |c: char| is_x(c), k);
                assert(rest.take(k) =~= scale@);
                if k > 0 {
                    assert(!is_x(rest.take(k).last()));
                }
                assert(strip_end(rest.take(k), |c: char| is_x(c)) == rest.take(k));
                assert(base@ =~= d@.take(i as int));
            }
            (base, scale)
        },
        None => {
            proof {
                reveal_strlit("1");
            }
            (slice_chars(&d, 0, d.len()), chars_of("1"))
        },
    };
    assert(at is None ==> base_text@ =~= d@);
    let mut end: usize = 0;
    while end < base_text.len() && !(base_text[end] == 'x' || base_text[end] == 'X')
        invariant
            end <= base_text.len(),
            forall|j: int| 0 <= j < end ==> !is_x(#[trigger] base_text@[j]),
        decreases base_text.len() - end,
    {
        end = end + 1;
    }
    let width_text = slice_chars(&base_text, 0, end);
    proof {
        lemma_before_x(base_text@, end as int);
        assert(width_text@ =~= base_text@.take(end as int));
    }
    let base = number_or_one_of(&width_text);
    let scale = number_or_one_of(&scale_text);
    saturating_mul_u32(base, scale)
}

proof fn lemma_before_x(s: Seq<char>, n: int)
    requires
        0 <= n <= s.len(),
        forall|j: int| 0 <= j < n ==> !is_x(#[trigger] s[j]),
        n == s.len() || is_x(s[n]),
    ensures
        before_x(s) == s.take(n),
    decreases n,
{
    if n == 0 {
        if s.len() > 0 {
            assert(is_x(s[0]));
        }
        assert(s.take(0) =~= Seq::<char>::empty());
    } else {
        let rest = s.drop_first();
        assert forall|j: int| 0 <= j < n - 1 implies !is_x(#[trigger] rest[j]) by {
            assert(rest[j] == s[j + 1]);
        }
        if n < s.len() {
            assert(rest[n - 1] == s[n]);
        }
        lemma_before_x(rest, n - 1);
        assert(!is_x(s[0]));
        assert(seq![s[0]] + rest.take(n - 1) =~= s.take(n));
    }
}

/// The image type of an icon file, by its extension in lowercase: only
/// `svg` and `png` are rendered.
pub open spec fn image_extension_of(path: Seq<char>) -> Option<Seq<char>> {
    match extension(path) {
        Some(e) => {
            let lower = ascii_lower_seq(e);
            if lower == "svg"@ || lower == "png"@ {
                Some(lower)
            } else {
                None
            }
        },
        None => None,
    }
}

/// The renderable image type of a file, if it has one.
pub fn image_extension(path: &str) -> (r: Option<String>)
    ensures
        match r {
            Some(e) => image_extension_of(path@) == Some(e@),
            None => image_extension_of(path@) is None,
        },
{
    proof {
        reveal_strlit("svg");
        reveal_strlit("png");
    }
    let chars = chars_of(path);
    match path_extension(&chars) {
        Some(e) => {
            let lower = ascii_lowercase_chars(&e);
            let svg = chars_of("svg");
            let png = chars_of("png");
            if chars_eq(&lower, &svg) || chars_eq(&lower, &png) {
                Some(string_of(&lower))
            } else {
                None
            }
        },
        None => None,
    }
}

/// Icon files larger than this many bytes are not inlined, so one icon
/// cannot blow up memory.
pub const MAX_ICON_BYTES: u64 = 4194304;

/// Whether an icon file is small enough to inline.
pub fn icon_fits(len: u64) -> (r: bool)
    ensures
        r == (len <= MAX_ICON_BYTES),
{
    len <= MAX_ICON_BYTES
}

/// The MIME type an icon file is inlined under: SVG for `.svg`, PNG for
/// `.png`, nothing for anything else.
pub open spec fn icon_mime_of(path: Seq<char>) -> Option<Seq<char>> {
    match image_extension_of(path) {
        Some(e) => if e == "svg"@ {
            Some("image/svg+xml"@)
        } else {
            Some("image/png"@)
        },
        None => None,
    }
}

/// The MIME type of an icon file, if it is renderable.
pub fn icon_mime(path: &str) -> (r: Option<String>)
    ensures
        match r {
            Some(m) => icon_mime_of(path@) == Some(m@),
            None => icon_mime_of(path@) is None,
        },
{
    match image_extension(path) {
        Some(e) => if str_eq(e.as_str(), "svg") {
            Some(owned("image/svg+xml"))
        } else {
            Some(owned("image/png"))
        },
        None => None,
    }
}

/// A directory as one icon lookup sees it: its name and path, and which of
/// the icon's two files (`<name>.svg`, `<name>.png`) it holds.
pub struct IconDir {
    pub name: String,
    pub path: String,
    pub has_svg: bool,
    pub has_png: bool,
}

/// A subdirectory of a theme, with its own subdirectories.
pub struct ThemeBranch {
    pub dir: IconDir,
    pub children: Vec<IconDir>,
}

/// An installed theme: its root directory and the subdirectories below it,
/// each listed in the order the directory was read.
pub struct ThemeTree {
    pub root: IconDir,
    pub branches: Vec<ThemeBranch>,
}

/// A scored icon file.
pub type Candidate = (u32, String);

/// The icon in a directory, if any: the SVG, scored above any raster size,
/// else the PNG, scored by the size directory it sits under (1 without one).
pub open spec fn icon_in_of(d: IconDir, name: Seq<char>, size_hint: Seq<char>) -> Option<(u32, Seq<char>)> {
    if d.has_svg {
        Some((SCALABLE_SCORE, join_path(d.path@, name + ".svg"@)))
    } else if d.has_png {
        Some(
            (
                if size_hint.len() == 0 {
                    1u32
                } else {
                    size_score_of(size_hint) as u32
                },
                join_path(d.path@, name + ".png"@),
            ),
        )
    } else {
        None
    }
}

/// A candidate's view.
pub open spec fn candidate_view(c: Candidate) -> (u32, Seq<char>) {
    (c.0, c.1@)
}

/// The views of some candidates.
pub open spec fn candidate_views(s: Seq<Candidate>) -> Seq<(u32, Seq<char>)> {
    s.map_values(|c: Candidate| candidate_view(c))
}

/// Nothing, or the one value.
pub open spec fn listed<T>(o: Option<T>) -> Seq<T> {
    match o {
        Some(v) => seq![v],
        None => Seq::empty(),
    }
}

fn file_named(dir: &str, name: &str, ext: &str) -> (r: String)
    ensures
        r@ == join_path(dir@, name@ + seq!['.'] + ext@),
{
    let mut file = chars_of(name);
    file.push('.');
    let e = chars_of(ext);
    extend_chars(&mut file, &e);
    let d = chars_of(dir);
    let joined = path_join(&d, &file);
    string_of(&joined)
}

/// The icon named `name` in a directory, scored.
pub fn icon_in(dir: &IconDir, name: &str, size_hint: &str) -> (r: Option<Candidate>)
    ensures
        match r {
            Some(c) => icon_in_of(*dir, name@, size_hint@) == Some(candidate_view(c)),
            None => icon_in_of(*dir, name@, size_hint@) is None,
        },
{
    proof {
        reveal_strlit(".svg");
        reveal_strlit(".png");
        reveal_strlit("svg");
        reveal_strlit("png");
        assert(".svg"@ =~= seq!['.'] + "svg"@);
        assert(".png"@ =~= seq!['.'] + "png"@);
        assert(name@ + seq!['.'] + "svg"@ =~= name@ + ".svg"@);
        assert(name@ + seq!['.'] + "png"@ =~= name@ + ".png"@);
    }
    if dir.has_svg {
        Some((SCALABLE_SCORE, file_named(dir.path.as_str(), name, "svg")))
    } else if dir.has_png {
        let score = if size_hint.is_empty() {
            1
        } else {
            size_score(size_hint)
        };
        Some((score, file_named(dir.path.as_str(), name, "png")))
    } else {
        None
    }
}

/// Candidates from the size directories of a category: `<category>/<size>`.
pub open spec fn sized_candidates(children: Seq<IconDir>, name: Seq<char>) -> Seq<(u32, Seq<char>)>
    decreases children.len(),
{
    if children.len() == 0 {
        Seq::empty()
    } else {
        let d = children.last();
        sized_candidates(children.drop_last(), name) + if contains_seq(d.name@, "symbolic"@) {
            Seq::empty()
        } else {
            listed(icon_in_of(d, name, d.name@))
        }
    }
}

/// Candidates from the category directories of a size: `<size>/<category>`.
pub open spec fn category_candidates(children: Seq<IconDir>, name: Seq<char>, size: Seq<char>) -> Seq<
    (u32, Seq<char>),
>
    decreases children.len(),
{
    if children.len() == 0 {
        Seq::empty()
    } else {
        let d = children.last();
        category_candidates(children.drop_last(), name, size) + if contains_seq(d.name@, "symbolic"@)
            || !categories().contains(d.name@) {
            Seq::empty()
        } else {
            listed(icon_in_of(d, name, size))
        }
    }
}

/// Candidates below one subdirectory of a theme. Both layouts in use are
/// understood: `<theme>/<size>/<category>/<name>` (hicolor, Adwaita, Yaru)
/// and `<theme>/<category>/<size>/<name>` (Mint-X/Y/L, Papirus), as well as
/// `<theme>/<category>/<name>`. Symbolic directories are skipped.
pub open spec fn branch_candidates(b: ThemeBranch, name: Seq<char>) -> Seq<(u32, Seq<char>)> {
    if contains_seq(b.dir.name@, "symbolic"@) {
        Seq::empty()
    } else if categories().contains(b.dir.name@) {
        sized_candidates(b.children@, name) + listed(icon_in_of(b.dir, name, Seq::empty()))
    } else {
        category_candidates(b.children@, name, b.dir.name@)
    }
}

/// Candidates below the subdirectories of a theme, in order.
pub open spec fn branches_candidates(branches: Seq<ThemeBranch>, name: Seq<char>) -> Seq<(u32, Seq<char>)>
    decreases branches.len(),
{
    if branches.len() == 0 {
        Seq::empty()
    } else {
        branches_candidates(branches.drop_last(), name) + branch_candidates(branches.last(), name)
    }
}

/// Every candidate a theme offers for an icon, in the order they were
/// found; a few themes keep artwork in their root, which comes last.
pub open spec fn theme_candidates(t: ThemeTree, name: Seq<char>) -> Seq<(u32, Seq<char>)> {
    branches_candidates(t.branches@, name) + listed(icon_in_of(t.root, name, Seq::empty()))
}

fn push_candidate(out: &mut Vec<Candidate>, c: Option<Candidate>)
    ensures
        candidate_views(final(out)@) == candidate_views(old(out)@) + listed(
            match c {
                Some(x) => Some(candidate_view(x)),
                None => None,
            },
        ),
{
    match c {
        Some(x) => {
            let ghost before = out@;
            out.push(x);
            assert(candidate_views(out@) =~= candidate_views(before) + seq![candidate_view(x)]);
        },
        None => {
            assert(candidate_views(out@) =~= candidate_views(out@) + Seq::<(u32, Seq<char>)>::empty());
        },
    }
}

fn collect_branch(out: &mut Vec<Candidate>, b: &ThemeBranch, name: &str)
    ensures
        candidate_views(final(out)@) == candidate_views(old(out)@) + branch_candidates(*b, name@),
{
    let ghost start = candidate_views(out@);
    if is_symbolic(b.dir.name.as_str()) {
        assert(candidate_views(out@) =~= start + Seq::<(u32, Seq<char>)>::empty());
        return;
    }
    if is_category(b.dir.name.as_str()) {
        let mut i: usize = 0;
        while i < b.children.len()
            invariant
                i <= b.children.len(),
                candidate_views(out@) == start + sized_candidates(b.children@.take(i as int), name@),
            decreases b.children.len() - i,
        {
            let d = &b.children[i];
            proof {
                assert(b.children@.take(i + 1).drop_last() =~= b.children@.take(i as int));
            }
            if !is_symbolic(d.name.as_str()) {
                let c = icon_in(d, name, d.name.as_str());
                push_candidate(out, c);
            }
            assert(candidate_views(out@) =~= start + sized_candidates(b.children@.take(i + 1), name@));
            i = i + 1;
        }
        assert(b.children@.take(b.children.len() as int) =~= b.children@);
        let own = icon_in(&b.dir, name, "");
        proof {
            reveal_strlit("");
        }
        push_candidate(out, own);
        assert(candidate_views(out@) =~= start + branch_candidates(*b, name@));
    } else {
        let mut i: usize = 0;
        while i < b.children.len()
            invariant
                i <= b.children.len(),
                !categories().contains(b.dir.name@),
                candidate_views(out@) == start + category_candidates(b.children@.take(i as int), name@, b.dir.name@),
            decreases b.children.len() - i,
        {
            let d = &b.children[i];
            proof {
                assert(b.children@.take(i + 1).drop_last() =~= b.children@.take(i as int));
            }
            if !is_symbolic(d.name.as_str()) && is_category(d.name.as_str()) {
                let c = icon_in(d, name, b.dir.name.as_str());
                push_candidate(out, c);
            }
            assert(candidate_views(out@) =~= start + category_candidates(b.children@.take(i + 1), name@, b.dir.name@));
            i = i + 1;
        }
        assert(b.children@.take(b.children.len() as int) =~= b.children@);
    }
}

/// Collect the icon candidates a theme offers, in the order they are found.
pub fn candidates_in_theme(theme: &ThemeTree, name: &str) -> (r: Vec<Candidate>)
    ensures
        candidate_views(r@) == theme_candidates(*theme, name@),
{
    let mut out: Vec<Candidate> = Vec::new();
    let mut i: usize = 0;
    assert(candidate_views(out@) =~= Seq::<(u32, Seq<char>)>::empty());
    while i < theme.branches.len()
        invariant
            i <= theme.branches.len(),
            candidate_views(out@) == branches_candidates(theme.branches@.take(i as int), name@),
        decreases theme.branches.len() - i,
    {
        proof {
            assert(theme.branches@.take(i + 1).drop_last() =~= theme.branches@.take(i as int));
        }
        collect_branch(&mut out, &theme.branches[i], name);
        i = i + 1;
    }
    assert(theme.branches@.take(theme.branches.len() as int) =~= theme.branches@);
    let own = icon_in(&theme.root, name, "");
    proof {
        reveal_strlit("");
    }
    push_candidate(&mut out, own);
    out
}

/// The position of the best candidate: the highest score, the last of
/// equals winning, as `Iterator::max_by_key` picks.
pub open spec fn best_index(c: Seq<(u32, Seq<char>)>) -> Option<int>
    decreases c.len(),
{
    if c.len() == 0 {
        None
    } else {
        match best_index(c.drop_last()) {
            Some(b) => if c.last().0 >= c[b].0 {
                Some(c.len() - 1)
            } else {
                Some(b)
            },
            None => Some(c.len() - 1),
        }
    }
}

proof fn lemma_best_index_bounds(c: Seq<(u32, Seq<char>)>)
    ensures
        best_index(c) is None <==> c.len() == 0,
        best_index(c) matches Some(b) ==> 0 <= b < c.len(),
    decreases c.len(),
{
    if c.len() > 0 {
        lemma_best_index_bounds(c.drop_last());
    }
}

/// The best icon a theme offers.
pub open spec fn best_of(c: Seq<(u32, Seq<char>)>) -> Option<Seq<char>> {
    match best_index(c) {
        Some(b) => Some(c[b].1),
        None => None,
    }
}

/// The best icon a theme offers for `name`: the highest scoring candidate.
pub fn best_candidate(theme: &ThemeTree, name: &str) -> (r: Option<String>)
    ensures
        match r {
            Some(p) => best_of(theme_candidates(*theme, name@)) == Some(p@),
            None => best_of(theme_candidates(*theme, name@)) is None,
        },
{
    let candidates = candidates_in_theme(theme, name);
    let ghost views = candidate_views(candidates@);
    let mut best: Option<usize> = None;
    let mut i: usize = 0;
    while i < candidates.len()
        invariant
            i <= candidates.len(),
            views == candidate_views(candidates@),
            match best {
                Some(b) => best_index(views.take(i as int)) == Some(b as int) && b < i,
                None => best_index(views.take(i as int)) is None && i == 0,
            },
        decreases candidates.len() - i,
    {
        proof {
            assert(views.take(i + 1).drop_last() =~= views.take(i as int));
        }
        match best {
            Some(b) => {
                if candidates[i].0 >= candidates[b].0 {
                    best = Some(i);
                }
            },
            None => {
                best = Some(i);
            },
        }
        i = i + 1;
    }
    assert(views.take(candidates.len() as int) =~= views);
    match best {
        Some(b) => Some(owned(candidates[b].1.as_str())),
        None => None,
    }
}

/// A flat pixmap directory as one lookup sees it: the icon's two files in
/// it, and whether the icon's value names a file there as it stands.
pub struct PixmapDir {
    pub dir: IconDir,
    pub direct_is_file: bool,
}

/// Everything one lookup of an icon value reads from disk: whether the value
/// is an existing file's absolute path, the installed themes in the order
/// they are tried, and the pixmap directories.
pub struct IconSnapshot {
    pub direct_is_file: bool,
    pub themes: Vec<ThemeTree>,
    pub pixmaps: Vec<PixmapDir>,
}

/// The best icon of the first theme that has one.
pub open spec fn first_theme_hit(themes: Seq<ThemeTree>, name: Seq<char>) -> Option<Seq<char>>
    decreases themes.len(),
{
    if themes.len() == 0 {
        None
    } else {
        match best_of(theme_candidates(themes[0], name)) {
            Some(p) => Some(p),
            None => first_theme_hit(themes.drop_first(), name),
        }
    }
}

/// The first pixmap directory's hit: the icon's own SVG or PNG, or the value
/// itself when it names a renderable file there.
pub open spec fn pixmap_hit(dirs: Seq<PixmapDir>, name: Seq<char>) -> Option<Seq<char>>
    decreases dirs.len(),
{
    if dirs.len() == 0 {
        None
    } else {
        let d = dirs[0];
        match icon_in_of(d.dir, name, Seq::empty()) {
            Some((_, p)) => Some(p),
            None => {
                let direct = join_path(d.dir.path@, name);
                if d.direct_is_file && image_extension_of(direct) is Some {
                    Some(direct)
                } else {
                    pixmap_hit(dirs.drop_first(), name)
                }
            },
        }
    }
}

/// The file an icon value resolves to: an absolute path to an existing file
/// stands for itself (when renderable, else nothing); otherwise the themes
/// are tried in order, then the pixmap directories.
pub open spec fn resolved(icon: Seq<char>, s: IconSnapshot) -> Option<Seq<char>> {
    let name = trim(icon);
    if name.len() == 0 {
        None
    } else if name[0] == '/' && s.direct_is_file {
        if image_extension_of(name) is Some {
            Some(name)
        } else {
            None
        }
    } else {
        match first_theme_hit(s.themes@, name) {
            Some(p) => Some(p),
            None => pixmap_hit(s.pixmaps@, name),
        }
    }
}

/// Resolve a freedesktop icon value to a file on disk.
pub fn resolve(icon: &str, snapshot: &IconSnapshot) -> (r: Option<String>)
    ensures
        match r {
            Some(p) => resolved(icon@, *snapshot) == Some(p@),
            None => resolved(icon@, *snapshot) is None,
        },
{
    let chars = chars_of(icon);
    let trimmed = trim_chars(&chars);
    if trimmed.len() == 0 {
        return None;
    }
    let name = string_of(&trimmed);
    if trimmed[0] == '/' && snapshot.direct_is_file {
        return match image_extension(name.as_str()) {
            Some(_) => Some(name),
            None => None,
        };
    }
    let mut i: usize = 0;
    assert(snapshot.themes@.skip(0) =~= snapshot.themes@);
    while i < snapshot.themes.len()
        invariant
            i <= snapshot.themes.len(),
            name@ == trim(icon@),
            name@.len() > 0,
            !(name@[0] == '/' && snapshot.direct_is_file),
            first_theme_hit(snapshot.themes@, name@) == first_theme_hit(snapshot.themes@.skip(i as int), name@),
        decreases snapshot.themes.len() - i,
    {
        proof {
            let rest = snapshot.themes@.skip(i as int);
            assert(rest.drop_first() =~= snapshot.themes@.skip(i + 1));
            assert(rest[0] == snapshot.themes@[i as int]);
        }
        if let Some(p) = best_candidate(&snapshot.themes[i], name.as_str()) {
            return Some(p);
        }
        i = i + 1;
    }
    let mut j: usize = 0;
    assert(snapshot.pixmaps@.skip(0) =~= snapshot.pixmaps@);
    assert(snapshot.themes@.skip(i as int) =~= Seq::<ThemeTree>::empty());
    while j < snapshot.pixmaps.len()
        invariant
            j <= snapshot.pixmaps.len(),
            name@ == trim(icon@),
            trimmed@ == name@,
            name@.len() > 0,
            !(name@[0] == '/' && snapshot.direct_is_file),
            first_theme_hit(snapshot.themes@, name@) is None,
            pixmap_hit(snapshot.pixmaps@, name@) == pixmap_hit(snapshot.pixmaps@.skip(j as int), name@),
        decreases snapshot.pixmaps.len() - j,
    {
        let d = &snapshot.pixmaps[j];
        proof {
            let rest = snapshot.pixmaps@.skip(j as int);
            assert(rest.drop_first() =~= snapshot.pixmaps@.skip(j + 1));
            assert(rest[0] == snapshot.pixmaps@[j as int]);
            reveal_strlit("");
        }
        if let Some(found) = icon_in(&d.dir, name.as_str(), "") {
            return Some(found.1);
        }
        let dir_chars = chars_of(d.dir.path.as_str());
        let direct = string_of(&path_join(&dir_chars, &trimmed));
        if d.direct_is_file && image_extension(direct.as_str()).is_some() {
            return Some(direct);
        }
        j = j + 1;
    }
    None
}

/// Resolve an icon value to a data URI, memoized per value: a value seen
/// before is answered from `cache` (a failed lookup included); otherwise
/// `lookup` resolves and reads it and the answer is remembered.
pub fn data_uri_for_name<F: FnOnce() -> Option<String>>(
    cache: &mut TextMap<Option<String>>,
    name: &str,
    lookup: F,
) -> (r: Option<String>)
    requires
        lookup.requires(()),
    ensures
        old(cache)@.contains_key(name@) ==> r.deep_view() == old(cache)@[name@] && final(cache)@ == old(
            cache,
        )@,
        !old(cache)@.contains_key(name@) ==> lookup.ensures((), r) && final(cache)@ == old(cache)@.insert(
            name@,
            r.deep_view(),
        ),
{
    if let Some(hit) = cache.get(name) {
        return hit.clone();
    }
    let resolved = lookup();
    let remembered = resolved.clone();
    cache.insert(owned(name), remembered);
    resolved
}

/// The specification's own fallback theme.
pub open spec fn fallback_theme() -> Seq<char> {
    "hicolor"@
}

/// A directory found in an icon root, with the names of its subdirectories
/// and of theirs (what tells an icon theme from a cursor-only one).
pub struct ThemeEntry {
    pub name: String,
    pub path: String,
    pub is_dir: bool,
    pub layout: Vec<(String, Vec<String>)>,
}

/// An icon root: the directories in it, in the order they were read, and
/// its `hicolor` directory when it has one.
pub struct IconRoot {
    pub entries: Vec<ThemeEntry>,
    pub fallback: Option<String>,
}

/// A theme is usable for application icons only if it ships an icon
/// category, directly or one level down.
pub open spec fn has_icon_category(layout: Seq<(String, Vec<String>)>) -> bool {
    exists|i: int| 0 <= i < layout.len() && #[trigger] is_category_dir(layout[i])
}

/// A subdirectory that is an icon category or holds one.
pub open spec fn is_category_dir(d: (String, Vec<String>)) -> bool {
    categories().contains(d.0@) || exists|j: int| 0 <= j < d.1@.len() && categories().contains(#[trigger] d.1@[j]@)
}

fn any_category(names: &Vec<String>) -> (r: bool)
    ensures
        r == exists|j: int| 0 <= j < names@.len() && categories().contains(#[trigger] names@[j]@),
{
    let mut j: usize = 0;
    while j < names.len()
        invariant
            j <= names.len(),
            forall|m: int| 0 <= m < j ==> !categories().contains(#[trigger] names@[m]@),
        decreases names.len() - j,
    {
        if is_category(names[j].as_str()) {
            return true;
        }
        j = j + 1;
    }
    false
}

fn layout_has_category(layout: &Vec<(String, Vec<String>)>) -> (r: bool)
    ensures
        r == has_icon_category(layout@),
{
    let mut i: usize = 0;
    while i < layout.len()
        invariant
            i <= layout.len(),
            forall|k: int| 0 <= k < i ==> !#[trigger] is_category_dir(layout@[k]),
        decreases layout.len() - i,
    {
        let direct = is_category(layout[i].0.as_str());
        let nested = any_category(&layout[i].1);
        assert(layout[i as int].1@ == layout@[i as int].1@);
        if direct || nested {
            assert(is_category_dir(layout@[i as int]));
            return true;
        }
        assert(!is_category_dir(layout@[i as int]));
        i = i + 1;
    }
    false
}

/// A theme found while scanning: its name and directory.
pub type Named = (String, String);

/// A named theme's view.
pub open spec fn named_view(n: Named) -> (Seq<char>, Seq<char>) {
    (n.0@, n.1@)
}

/// `x` put after every element of the sorted `s` that sorts before or equal
/// to it.
pub open spec fn insert_sorted(s: Seq<(Seq<char>, Seq<char>)>, x: (Seq<char>, Seq<char>)) -> Seq<
    (Seq<char>, Seq<char>),
>
    decreases s.len(),
{
    if s.len() == 0 {
        seq![x]
    } else if text_le(s.last().0, x.0) {
        s.push(x)
    } else {
        insert_sorted(s.drop_last(), x).push(s.last())
    }
}

/// The themes sorted by name, equal names keeping their order (the stable
/// sort `sort_by` performs).
pub open spec fn sorted_by_name(s: Seq<(Seq<char>, Seq<char>)>) -> Seq<(Seq<char>, Seq<char>)>
    decreases s.len(),
{
    if s.len() == 0 {
        s
    } else {
        insert_sorted(sorted_by_name(s.drop_last()), s.last())
    }
}

proof fn lemma_insert_at(s: Seq<(Seq<char>, Seq<char>)>, x: (Seq<char>, Seq<char>), p: int)
    requires
        0 <= p <= s.len(),
        p == 0 || text_le(s[p - 1].0, x.0),
        forall|q: int| p <= q < s.len() ==> !text_le(#[trigger] s[q].0, x.0),
    ensures
        insert_sorted(s, x) == s.insert(p, x),
    decreases s.len(),
{
    if s.len() == 0 {
        assert(s.insert(p, x) =~= seq![x]);
    } else if p == s.len() {
        assert(s.insert(p, x) =~= s.push(x));
    } else {
        assert(!text_le(s.last().0, x.0));
        let init = s.drop_last();
        lemma_insert_at(init, x, p);
        assert(init.insert(p, x).push(s.last()) =~= s.insert(p, x));
    }
}

fn insert_named(sorted: &mut Vec<Named>, x: Named)
    ensures
        final(sorted)@.map_values(|n: Named| named_view(n)) == insert_sorted(
            old(sorted)@.map_values(|n: Named| named_view(n)),
            named_view(x),
        ),
{
    let ghost before = sorted@.map_values(|n: Named| named_view(n));
    let key = chars_of(x.0.as_str());
    let mut p: usize = sorted.len();
    loop
        invariant
            p <= sorted.len(),
            before == sorted@.map_values(|n: Named| named_view(n)),
            before == old(sorted)@.map_values(|n: Named| named_view(n)),
            key@ == x.0@,
            forall|q: int| p <= q < before.len() ==> !text_le(#[trigger] before[q].0, x.0@),
        decreases p,
    {
        if p == 0 {
            proof {
                lemma_insert_at(before, named_view(x), 0);
            }
            sorted.insert(0, x);
            assert(sorted@.map_values(|n: Named| named_view(n)) =~= before.insert(0, named_view(x)));
            return;
        }
        let at_key = chars_of(sorted[p - 1].0.as_str());
        if chars_le(&at_key, &key) {
            assert(text_le(before[p - 1].0, x.0@));
            proof {
                lemma_insert_at(before, named_view(x), p as int);
            }
            sorted.insert(p, x);
            assert(sorted@.map_values(|n: Named| named_view(n)) =~= before.insert(p as int, named_view(x)));
            return;
        }
        p = p - 1;
    }
}

/// Sort themes by name; equal names keep their order.
pub fn sort_by_name(themes: &Vec<Named>) -> (r: Vec<Named>)
    ensures
        r@.map_values(|n: Named| named_view(n)) == sorted_by_name(themes@.map_values(|n: Named| named_view(n))),
{
    let ghost all = themes@.map_values(|n: Named| named_view(n));
    let mut sorted: Vec<Named> = Vec::new();
    let mut i: usize = 0;
    assert(sorted@.map_values(|n: Named| named_view(n)) =~= sorted_by_name(all.take(0)));
    while i < themes.len()
        invariant
            i <= themes.len(),
            all == themes@.map_values(|n: Named| named_view(n)),
            sorted@.map_values(|n: Named| named_view(n)) == sorted_by_name(all.take(i as int)),
        decreases themes.len() - i,
    {
        let t = (themes[i].0.clone(), themes[i].1.clone());
        proof {
            assert(all.take(i + 1).drop_last() =~= all.take(i as int));
            assert(all.take(i + 1).last() == named_view(t));
        }
        insert_named(&mut sorted, t);
        i = i + 1;
    }
    assert(all.take(themes.len() as int) =~= all);
    sorted
}

/// The views of some strings.
pub open spec fn text_views(v: Seq<String>) -> Seq<Seq<char>> {
    v.map_values(|t: String| t@)
}

/// The views of some named themes.
pub open spec fn named_views(v: Seq<Named>) -> Seq<(Seq<char>, Seq<char>)> {
    v.map_values(|n: Named| named_view(n))
}

/// What scanning the icon roots has gathered so far: every directory looked
/// at, the configured theme's directories, and the other themes split into
/// ordinary and accessibility-first ones.
#[verifier::ext_equal]
pub struct ThemeScan {
    pub seen: Seq<Seq<char>>,
    pub preferred: Seq<Seq<char>>,
    pub ordinary: Seq<(Seq<char>, Seq<char>)>,
    pub low: Seq<(Seq<char>, Seq<char>)>,
}

/// One directory of an icon root taken into the scan. `hicolor` is left for
/// last, files and directories already seen are skipped, and a directory
/// without an icon category (a cursor theme) is remembered but not used.
pub open spec fn scan_entry(st: ThemeScan, e: ThemeEntry, preferred: Option<Seq<char>>) -> ThemeScan {
    if e.name@ == fallback_theme() || !e.is_dir || st.seen.contains(e.path@) {
        st
    } else {
        let seen = st.seen.push(e.path@);
        if !has_icon_category(e.layout@) {
            ThemeScan { seen, ..st }
        } else if preferred == Some(e.name@) {
            ThemeScan { seen, preferred: st.preferred.push(e.path@), ..st }
        } else if low_colour_name(e.name@) {
            ThemeScan { seen, low: st.low.push((e.name@, e.path@)), ..st }
        } else {
            ThemeScan { seen, ordinary: st.ordinary.push((e.name@, e.path@)), ..st }
        }
    }
}

/// The directories of one root taken into the scan, in order.
pub open spec fn scan_entries(st: ThemeScan, es: Seq<ThemeEntry>, preferred: Option<Seq<char>>) -> ThemeScan
    decreases es.len(),
{
    if es.len() == 0 {
        st
    } else {
        scan_entry(scan_entries(st, es.drop_last(), preferred), es.last(), preferred)
    }
}

/// The roots taken into the scan, in order.
pub open spec fn scan_roots(st: ThemeScan, roots: Seq<IconRoot>, preferred: Option<Seq<char>>) -> ThemeScan
    decreases roots.len(),
{
    if roots.len() == 0 {
        st
    } else {
        scan_entries(scan_roots(st, roots.drop_last(), preferred), roots.last().entries@, preferred)
    }
}

/// The roots' `hicolor` directories not seen yet, in root order, with the
/// directories seen once they are added.
pub open spec fn fallbacks(seen: Seq<Seq<char>>, roots: Seq<IconRoot>) -> (Seq<Seq<char>>, Seq<Seq<char>>)
    decreases roots.len(),
{
    if roots.len() == 0 {
        (seen, Seq::empty())
    } else {
        let (s, o) = fallbacks(seen, roots.drop_last());
        match roots.last().fallback {
            Some(f) => if s.contains(f@) {
                (s, o)
            } else {
                (s.push(f@), o.push(f@))
            },
            None => (s, o),
        }
    }
}

/// The directories of the named themes.
pub open spec fn dirs_of(v: Seq<(Seq<char>, Seq<char>)>) -> Seq<Seq<char>> {
    v.map_values(|n: (Seq<char>, Seq<char>)| n.1)
}

/// The installed theme directories in the order they are tried: the
/// desktop's configured theme, then the ordinary themes by name, then the
/// accessibility-first themes by name, then the specification's sparse
/// `hicolor` fallback. Each directory appears once.
pub open spec fn theme_order(roots: Seq<IconRoot>, preferred: Option<Seq<char>>) -> Seq<Seq<char>> {
    let st = scan_roots(ThemeScan { seen: Seq::empty(), preferred: Seq::empty(), ordinary: Seq::empty(), low: Seq::empty() }, roots, preferred);
    st.preferred + dirs_of(sorted_by_name(st.ordinary)) + dirs_of(sorted_by_name(st.low)) + fallbacks(st.seen, roots).1
}

fn contains_text(v: &Vec<String>, s: &str) -> (r: bool)
    ensures
        r == text_views(v@).contains(s@),
{
    let mut i: usize = 0;
    while i < v.len()
        invariant
            i <= v.len(),
            forall|j: int| 0 <= j < i ==> v@[j]@ != s@,
        decreases v.len() - i,
    {
        if str_eq(v[i].as_str(), s) {
            assert(text_views(v@)[i as int] == s@);
            return true;
        }
        i = i + 1;
    }
    assert(!text_views(v@).contains(s@)) by {
        if text_views(v@).contains(s@) {
            let k = choose|k: int| 0 <= k < text_views(v@).len() && text_views(v@)[k] == s@;
            assert(v@[k]@ == s@);
        }
    }
    false
}

fn append_dirs(out: &mut Vec<String>, themes: &Vec<Named>)
    ensures
        text_views(final(out)@) == text_views(old(out)@) + dirs_of(named_views(themes@)),
{
    let ghost start = text_views(out@);
    let mut i: usize = 0;
    while i < themes.len()
        invariant
            i <= themes.len(),
            text_views(out@) == start + dirs_of(named_views(themes@)).take(i as int),
        decreases themes.len() - i,
    {
        let ghost old_out = out@;
        out.push(themes[i].1.clone());
        assert(dirs_of(named_views(themes@))[i as int] == themes@[i as int].1@);
        assert(text_views(out@) =~= text_views(old_out).push(themes@[i as int].1@));
        assert(dirs_of(named_views(themes@)).take(i + 1) =~= dirs_of(named_views(themes@)).take(i as int).push(themes@[i as int].1@));
        assert(text_views(out@) =~= start + dirs_of(named_views(themes@)).take(i + 1));
        i = i + 1;
    }
    assert(dirs_of(named_views(themes@)).take(themes.len() as int) =~= dirs_of(named_views(themes@)));
}

/// The scan's state as a view.
pub open spec fn scan_view(seen: Seq<String>, preferred: Seq<String>, ordinary: Seq<Named>, low: Seq<Named>) -> ThemeScan {
    ThemeScan { seen: text_views(seen), preferred: text_views(preferred), ordinary: named_views(ordinary), low: named_views(low) }
}

/// The installed theme directories in the order they are tried, from the
/// icon roots (the user's, then the system's) and the desktop's configured
/// theme.
pub fn theme_dirs(roots: &Vec<IconRoot>, preferred: Option<&str>) -> (r: Vec<String>)
    ensures
        text_views(r@) == theme_order(
            roots@,
            match preferred {
                Some(p) => Some(p@),
                None => None,
            },
        ),
{
    let ghost wanted: Option<Seq<char>> = match preferred {
        Some(p) => Some(p@),
        None => None,
    };
    let ghost empty = ThemeScan { seen: Seq::empty(), preferred: Seq::empty(), ordinary: Seq::empty(), low: Seq::empty() };
    let mut seen: Vec<String> = Vec::new();
    let mut chosen: Vec<String> = Vec::new();
    let mut ordinary: Vec<Named> = Vec::new();
    let mut low: Vec<Named> = Vec::new();
    let mut r: usize = 0;
    assert(scan_view(seen@, chosen@, ordinary@, low@) =~= empty);
    assert(roots@.take(0) =~= Seq::<IconRoot>::empty());
    while r < roots.len()
        invariant
            r <= roots.len(),
            scan_view(seen@, chosen@, ordinary@, low@) == scan_roots(empty, roots@.take(r as int), wanted),
            wanted == match preferred {
                Some(p) => Some(p@),
                None => None::<Seq<char>>,
            },
        decreases roots.len() - r,
    {
        let entries = &roots[r].entries;
        let ghost before = scan_view(seen@, chosen@, ordinary@, low@);
        proof {
            assert(roots@.take(r + 1).drop_last() =~= roots@.take(r as int));
        }
        let mut k: usize = 0;
        assert(entries@.take(0) =~= Seq::<ThemeEntry>::empty());
        while k < entries.len()
            invariant
                k <= entries.len(),
                scan_view(seen@, chosen@, ordinary@, low@) == scan_entries(before, entries@.take(k as int), wanted),
                wanted == match preferred {
                    Some(p) => Some(p@),
                    None => None::<Seq<char>>,
                },
            decreases entries.len() - k,
        {
            let e = &entries[k];
            proof {
                assert(entries@.take(k + 1).drop_last() =~= entries@.take(k as int));
                reveal_strlit("hicolor");
            }
            let ghost st = scan_view(seen@, chosen@, ordinary@, low@);
            if !str_eq(e.name.as_str(), "hicolor") && e.is_dir && !contains_text(&seen, e.path.as_str()) {
                seen.push(e.path.clone());
                if layout_has_category(&e.layout) {
                    let is_preferred = match preferred {
                        Some(p) => str_eq(p, e.name.as_str()),
                        None => false,
                    };
                    if is_preferred {
                        chosen.push(e.path.clone());
                    } else if is_low_colour_theme(e.name.as_str()) {
                        low.push((e.name.clone(), e.path.clone()));
                    } else {
                        ordinary.push((e.name.clone(), e.path.clone()));
                    }
                }
                assert(scan_view(seen@, chosen@, ordinary@, low@) =~= scan_entry(st, *e, wanted));
            }
            assert(scan_view(seen@, chosen@, ordinary@, low@) == scan_entries(before, entries@.take(k + 1), wanted));
            k = k + 1;
        }
        assert(entries@.take(entries.len() as int) =~= entries@);
        r = r + 1;
    }
    assert(roots@.take(roots.len() as int) =~= roots@);
    let ghost st = scan_view(seen@, chosen@, ordinary@, low@);
    let mut out = chosen;
    let sorted_ordinary = sort_by_name(&ordinary);
    append_dirs(&mut out, &sorted_ordinary);
    let sorted_low = sort_by_name(&low);
    append_dirs(&mut out, &sorted_low);
    let ghost scanned = text_views(out@);
    let mut f: usize = 0;
    assert(roots@.take(0) =~= Seq::<IconRoot>::empty());
    while f < roots.len()
        invariant
            f <= roots.len(),
            (text_views(seen@), text_views(out@).skip(scanned.len() as int)) == fallbacks(st.seen, roots@.take(f as int)),
            text_views(out@).take(scanned.len() as int) == scanned,
            scanned.len() <= out@.len(),
        decreases roots.len() - f,
    {
        proof {
            assert(roots@.take(f + 1).drop_last() =~= roots@.take(f as int));
        }
        let ghost before_out = out@;
        match &roots[f].fallback {
            Some(dir) => {
                if !contains_text(&seen, dir.as_str()) {
                    seen.push(dir.clone());
                    out.push(dir.clone());
                    assert(text_views(out@).skip(scanned.len() as int) =~= text_views(before_out).skip(
                        scanned.len() as int,
                    ).push(dir@));
                }
            },
            None => {},
        }
        assert(text_views(out@).take(scanned.len() as int) =~= scanned);
        f = f + 1;
    }
    assert(roots@.take(roots.len() as int) =~= roots@);
    assert(text_views(out@) =~= scanned + text_views(out@).skip(scanned.len() as int));
    out
}

/// Sorted by name, earlier never after later.
pub open spec fn name_sorted(s: Seq<(Seq<char>, Seq<char>)>) -> bool {
    forall|i: int, j: int| 0 <= i < j < s.len() ==> text_le(#[trigger] s[i].0, #[trigger] s[j].0)
}

proof fn lemma_insert_sorted_contents(s: Seq<(Seq<char>, Seq<char>)>, x: (Seq<char>, Seq<char>))
    ensures
        insert_sorted(s, x).len() == s.len() + 1,
        forall|k: int| 0 <= k < insert_sorted(s, x).len() ==> (#[trigger] insert_sorted(s, x)[k] == x
            || s.contains(insert_sorted(s, x)[k])),
    decreases s.len(),
{
    if s.len() > 0 && !text_le(s.last().0, x.0) {
        let init = s.drop_last();
        lemma_insert_sorted_contents(init, x);
        let r = insert_sorted(s, x);
        assert forall|k: int| 0 <= k < r.len() implies (#[trigger] r[k] == x || s.contains(r[k])) by {
            if k < r.len() - 1 {
                assert(r[k] == insert_sorted(init, x)[k]);
                if init.contains(r[k]) {
                    let m = choose|m: int| 0 <= m < init.len() && init[m] == r[k];
                    assert(s[m] == r[k]);
                }
            } else {
                assert(r[k] == s[s.len() - 1]);
            }
        }
    } else if s.len() > 0 {
        let r = insert_sorted(s, x);
        assert forall|k: int| 0 <= k < r.len() implies (#[trigger] r[k] == x || s.contains(r[k])) by {
            if k < s.len() {
                assert(r[k] == s[k]);
            }
        }
    }
}

proof fn lemma_insert_sorted_sorted(s: Seq<(Seq<char>, Seq<char>)>, x: (Seq<char>, Seq<char>))
    requires
        name_sorted(s),
    ensures
        name_sorted(insert_sorted(s, x)),
    decreases s.len(),
{
    if s.len() == 0 {
    } else if text_le(s.last().0, x.0) {
        let r = s.push(x);
        assert forall|i: int, j: int| 0 <= i < j < r.len() implies text_le(#[trigger] r[i].0, #[trigger] r[j].0) by {
            if j == r.len() - 1 {
                if i < s.len() - 1 {
                    lemma_text_le_transitive(s[i].0, s.last().0, x.0);
                }
            }
        }
    } else {
        let init = s.drop_last();
        lemma_insert_sorted_sorted(init, x);
        lemma_insert_sorted_contents(init, x);
        lemma_text_le_total(s.last().0, x.0);
        let inner = insert_sorted(init, x);
        let r = inner.push(s.last());
        assert forall|i: int, j: int| 0 <= i < j < r.len() implies text_le(#[trigger] r[i].0, #[trigger] r[j].0) by {
            if j == r.len() - 1 {
                assert(r[i] == inner[i]);
                if inner[i] != x {
                    assert(init.contains(inner[i]));
                    let m = choose|m: int| 0 <= m < init.len() && init[m] == inner[i];
                    assert(s[m] == init[m]);
                }
            } else {
                assert(r[i] == inner[i] && r[j] == inner[j]);
            }
        }
    }
}

/// Themes sorted by name come out in order of their names.
pub proof fn lemma_themes_sorted_by_name(s: Seq<(Seq<char>, Seq<char>)>)
    ensures
        name_sorted(sorted_by_name(s)),
    decreases s.len(),
{
    if s.len() > 0 {
        lemma_themes_sorted_by_name(s.drop_last());
        lemma_insert_sorted_sorted(sorted_by_name(s.drop_last()), s.last());
    }
}

/// The icon a theme offers is its highest-scoring candidate, and no later
/// candidate scores as high.
pub proof fn lemma_best_candidate_scores_highest(c: Seq<(u32, Seq<char>)>)
    requires
        c.len() > 0,
    ensures
        best_index(c) matches Some(b) && 0 <= b < c.len() && (forall|k: int| 0 <= k < c.len() ==> c[k].0
            <= c[b].0) && (forall|k: int| b < k < c.len() ==> c[k].0 < c[b].0),
    decreases c.len(),
{
    let init = c.drop_last();
    if c.len() == 1 {
        assert(best_index(init) is None);
        assert(best_index(c) == Some(0int));
    } else {
        lemma_best_candidate_scores_highest(init);
        let b = best_index(init)->0;
        assert forall|k: int| 0 <= k < init.len() implies init[k] == c[k] by {}
        if c.last().0 >= c[b].0 {
            assert(best_index(c) == Some(c.len() - 1));
            assert forall|k: int| 0 <= k < c.len() implies (#[trigger] c[k]).0 <= c[c.len() - 1].0 by {
                if k < c.len() - 1 {
                    assert(init[k].0 <= init[b].0);
                }
            }
        } else {
            assert(best_index(c) == Some(b));
            assert forall|k: int| 0 <= k < c.len() implies c[k].0 <= c[b].0 by {
                if k < c.len() - 1 {
                    assert(init[k].0 <= init[b].0);
                }
            }
            assert forall|k: int| b < k < c.len() implies c[k].0 < c[b].0 by {
                if k < c.len() - 1 {
                    assert(init[k].0 < init[b].0);
                }
            }
        }
    }
}

/// The directories icon themes are installed in: the user's own (when the
/// home directory is known), then the system's.
pub fn icon_roots(home: Option<&str>) -> (r: Vec<String>)
    ensures
        text_views(r@) == (match home {
            Some(h) => seq![join_path(h@, ".local/share/icons"@), join_path(h@, ".icons"@)],
            None => Seq::<Seq<char>>::empty(),
        }) + seq!["/usr/local/share/icons"@, "/usr/share/icons"@],
{
    let mut roots: Vec<String> = Vec::new();
    if let Some(h) = home {
        roots.push(joined(h, ".local/share/icons"));
        roots.push(joined(h, ".icons"));
    }
    roots.push(owned("/usr/local/share/icons"));
    roots.push(owned("/usr/share/icons"));
    proof {
        let expected = (match home {
            Some(h) => seq![join_path(h@, ".local/share/icons"@), join_path(h@, ".icons"@)],
            None => Seq::<Seq<char>>::empty(),
        }) + seq!["/usr/local/share/icons"@, "/usr/share/icons"@];
        assert(text_views(roots@) =~= expected);
    }
    roots
}

/// The flat pixmap directories: the user's own, then the system's.
pub fn pixmap_dirs(home: Option<&str>) -> (r: Vec<String>)
    ensures
        text_views(r@) == (match home {
            Some(h) => seq![join_path(h@, ".local/share/pixmaps"@)],
            None => Seq::<Seq<char>>::empty(),
        }) + seq!["/usr/local/share/pixmaps"@, "/usr/share/pixmaps"@],
{
    let mut dirs: Vec<String> = Vec::new();
    if let Some(h) = home {
        dirs.push(joined(h, ".local/share/pixmaps"));
    }
    dirs.push(owned("/usr/local/share/pixmaps"));
    dirs.push(owned("/usr/share/pixmaps"));
    proof {
        let expected = (match home {
            Some(h) => seq![join_path(h@, ".local/share/pixmaps"@)],
            None => Seq::<Seq<char>>::empty(),
        }) + seq!["/usr/local/share/pixmaps"@, "/usr/share/pixmaps"@];
        assert(text_views(dirs@) =~= expected);
    }
    dirs
}

fn joined(dir: &str, name: &str) -> (r: String)
    ensures
        r@ == join_path(dir@, name@),
{
    let d = chars_of(dir);
    let n = chars_of(name);
    string_of(&path_join(&d, &n))
}

/// The value of `gtk-icon-theme-name=` in a GTK `settings.ini`: the first
/// line that sets it to something non-empty, trimmed and unquoted.
pub open spec fn ini_theme(lines: Seq<Seq<char>>) -> Option<Seq<char>>
    decreases lines.len(),
{
    if lines.len() == 0 {
        None
    } else {
        let line = trim(lines[0]);
        if starts_with(line, "gtk-icon-theme-name="@) && trim_char(trim(line.skip(20)), '"').len() > 0 {
            Some(trim_char(trim(line.skip(20)), '"'))
        } else {
            ini_theme(lines.drop_first())
        }
    }
}

/// The desktop's configured icon theme, in order of authority: the
/// XSETTINGS manager's `Net/IconThemeName` (what Cinnamon uses) when it is
/// not blank, then the GTK 3 and GTK 4 `settings.ini` files, given as their
/// lines in that order.
pub open spec fn preferred_theme_of(xsettings: Option<Seq<char>>, ini_lines: Seq<Seq<Seq<char>>>) -> Option<Seq<char>>
    decreases ini_lines.len(),
{
    match xsettings {
        Some(v) if trim(v).len() > 0 => Some(trim(v)),
        _ => if ini_lines.len() == 0 {
            None
        } else {
            match ini_theme(ini_lines[0]) {
                Some(t) => Some(t),
                None => preferred_theme_of(None, ini_lines.drop_first()),
            }
        },
    }
}

fn ini_value(lines: &Vec<String>) -> (r: Option<String>)
    ensures
        match r {
            Some(t) => ini_theme(text_views(lines@)) == Some(t@),
            None => ini_theme(text_views(lines@)) is None,
        },
{
    let ghost all = text_views(lines@);
    let key = chars_of("gtk-icon-theme-name=");
    proof {
        reveal_strlit("gtk-icon-theme-name=");
    }
    let mut i: usize = 0;
    assert(all.skip(0) =~= all);
    while i < lines.len()
        invariant
            i <= lines.len(),
            all == text_views(lines@),
            key@ == "gtk-icon-theme-name="@,
            ini_theme(all) == ini_theme(all.skip(i as int)),
        decreases lines.len() - i,
    {
        proof {
            let rest = all.skip(i as int);
            assert(rest[0] == lines@[i as int]@);
            assert(rest.drop_first() =~= all.skip(i + 1));
        }
        let chars = chars_of(lines[i].as_str());
        let line = trim_chars(&chars);
        if crate::text::has_prefix(&line, &key) {
            proof {
                reveal_strlit("gtk-icon-theme-name=");
            }
            assert(key@.len() == 20);
            let rest = slice_chars(&line, 20, line.len());
            assert(rest@ =~= line@.skip(20));
            let value = crate::text::trim_char_chars(&trim_chars(&rest), '"');
            if value.len() > 0 {
                return Some(string_of(&value));
            }
        }
        i = i + 1;
    }
    None
}

/// Detect the desktop's configured icon theme.
pub fn detect_preferred_theme(xsettings: Option<&str>, ini_files: &Vec<Vec<String>>) -> (r: Option<String>)
    ensures
        match r {
            Some(t) => preferred_theme_of(
                match xsettings {
                    Some(x) => Some(x@),
                    None => None,
                },
                ini_files@.map_values(|f: Vec<String>| text_views(f@)),
            ) == Some(t@),
            None => preferred_theme_of(
                match xsettings {
                    Some(x) => Some(x@),
                    None => None,
                },
                ini_files@.map_values(|f: Vec<String>| text_views(f@)),
            ) is None,
        },
{
    let ghost files = ini_files@.map_values(|f: Vec<String>| text_views(f@));
    if let Some(x) = xsettings {
        let chars = chars_of(x);
        let t = trim_chars(&chars);
        if t.len() > 0 {
            return Some(string_of(&t));
        }
    }
    let mut i: usize = 0;
    assert(files.skip(0) =~= files);
    while i < ini_files.len()
        invariant
            i <= ini_files.len(),
            files == ini_files@.map_values(|f: Vec<String>| text_views(f@)),
            preferred_theme_of(
                match xsettings {
                    Some(x) => Some(x@),
                    None => None,
                },
                files,
            ) == preferred_theme_of(None, files.skip(i as int)),
        decreases ini_files.len() - i,
    {
        proof {
            let rest = files.skip(i as int);
            assert(rest[0] == text_views(ini_files@[i as int]@));
            assert(rest.drop_first() =~= files.skip(i + 1));
        }
        if let Some(t) = ini_value(&ini_files[i]) {
            return Some(t);
        }
        i = i + 1;
    }
    None
}

} // verus!
