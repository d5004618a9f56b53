//! The desktop's accent colour, normalised to `#rrggbb`.
use vstd::prelude::*;
use crate::number::{parse_u8_spec, parse_u8};
use crate::text::{
    chars_of, string_of, owned, chars_eq, trim, trim_chars, trim_char, trim_char_chars, ascii_lower_seq,
    ascii_lowercase_chars, slice_chars, extend_chars,
};

verus! {

broadcast use vstd::string::group_string_axioms;

/// The accent choices Cinnamon and GNOME expose, as the standard Adwaita
/// palette the desktops draw from.
pub open spec fn palette() -> Seq<(Seq<char>, Seq<char>)> {
    seq![
        ("blue"@, "#3584e4"@),
        ("teal"@, "#2190a4"@),
        ("green"@, "#3a944a"@),
        ("yellow"@, "#c88800"@),
        ("orange"@, "#ed5b00"@),
        ("red"@, "#e62d42"@),
        ("pink"@, "#d56199"@),
        ("purple"@, "#9141ac"@),
        ("slate"@, "#6f8396"@),
    ]
}

fn palette_table() -> (t: Vec<(&'static str, &'static str)>)
    ensures
        t@.len() == palette().len(),
        forall|i: int| 0 <= i < t@.len() ==> (#[trigger] t@[i]).0@ == palette()[i].0 && t@[i].1@ == palette()[i].1,
{
    let t = vec![
        ("blue", "#3584e4"),
        ("teal", "#2190a4"),
        ("green", "#3a944a"),
        ("yellow", "#c88800"),
        ("orange", "#ed5b00"),
        ("red", "#e62d42"),
        ("pink", "#d56199"),
        ("purple", "#9141ac"),
        ("slate", "#6f8396"),
    ];
    t
}

/// The first palette entry named `name`, from position `i` on.
pub open spec fn palette_from(name: Seq<char>, i: int) -> Option<Seq<char>>
    decreases palette().len() - i,
{
    if i < 0 || i >= palette().len() {
        None
    } else if palette()[i].0 == name {
        Some(palette()[i].1)
    } else {
        palette_from(name, i + 1)
    }
}

/// The colour for an accent name, read trimmed and ignoring ASCII case.
pub open spec fn palette_hex_of(name: Seq<char>) -> Option<Seq<char>> {
    palette_from(ascii_lower_seq(trim(name)), 0)
}

/// Map an accent name from the desktop's palette onto its hex colour.
pub fn palette_hex(name: &str) -> (r: Option<String>)
    ensures
        match r {
            Some(h) => palette_hex_of(name@) == Some(h@),
            None => palette_hex_of(name@) is None,
        },
{
    let n = ascii_lowercase_chars(&trim_chars(&chars_of(name)));
    let table = palette_table();
    let mut i: usize = table.len();
    let mut found: Option<usize> = None;
    while i > 0
        invariant
            i <= table@.len() == palette().len(),
            n@ == ascii_lower_seq(trim(name@)),
            forall|j: int| 0 <= j < table@.len() ==> (#[trigger] table@[j]).0@ == palette()[j].0 && table@[j].1@ == palette()[j].1,
            match found {
                Some(f) => f < table@.len() && palette_from(n@, i as int) == Some(palette()[f as int].1),
                None => palette_from(n@, i as int) is None,
            },
        decreases i,
    {
        i = i - 1;
        if chars_eq(&chars_of(table[i].0), &n) {
            found = Some(i);
        }
    }
    match found {
        Some(f) => Some(owned(table[f].1)),
        None => None,
    }
}

/// An ASCII hexadecimal digit.
pub open spec fn hex_digit(c: char) -> bool {
    ('0' <= c <= '9') || ('a' <= c <= 'f') || ('A' <= c <= 'F')
}

/// Whether every character is a hexadecimal digit.
pub open spec fn all_hex(s: Seq<char>) -> bool {
    forall|i: int| 0 <= i < s.len() ==> hex_digit(#[trigger] s[i])
}

fn is_hex(value: &[char]) -> (r: bool)
    ensures
        r == all_hex(value@),
{
    let mut i: usize = 0;
    while i < value.len()
        invariant
            i <= value.len(),
            forall|j: int| 0 <= j < i ==> hex_digit(#[trigger] value@[j]),
        decreases value.len() - i,
    {
        let c = value[i];
        if !(('0' <= c && c <= '9') || ('a' <= c && c <= 'f') || ('A' <= c && c <= 'F')) {
            assert(!hex_digit(value@[i as int]));
            return false;
        }
        i = i + 1;
    }
    true
}

/// Every character doubled: `abc` becomes `aabbcc`.
pub open spec fn doubled(s: Seq<char>) -> Seq<char>
    decreases s.len(),
{
    if s.len() == 0 {
        s
    } else {
        doubled(s.drop_last()).push(s.last()).push(s.last())
    }
}

/// A hexadecimal digit for `v < 16`, lowercase.
pub open spec fn hex_char(v: nat) -> char {
    if v < 10 {
        ((v + 48) as u32) as char
    } else {
        ((v + 87) as u32) as char
    }
}

/// A byte as two lowercase hexadecimal digits.
pub open spec fn hex2(b: u8) -> Seq<char> {
    seq![hex_char((b / 16) as nat), hex_char((b % 16) as nat)]
}

pub(crate) fn push_hex2(out: &mut Vec<char>, b: u8)
    ensures
        final(out)@ == old(out)@ + hex2(b),
{
    let hi = b / 16;
    let lo = b % 16;
    out.push(if hi < 10 { (hi + 48) as char } else { (hi + 87) as char });
    out.push(if lo < 10 { (lo + 48) as char } else { (lo + 87) as char });
    assert(final(out)@ =~= old(out)@ + hex2(b));
}

/// `s` split at every `c`, each piece trimmed.
pub open spec fn trimmed_pieces(s: Seq<char>, c: char) -> Seq<Seq<char>>
    decreases s.len(),
{
    let i = crate::text::first_index_of(s, c);
    if i < 0 {
        seq![trim(s)]
    } else {
        proof {
            crate::text::lemma_first_index_bounds(s, c);
        }
        seq![trim(s.take(i))] + trimmed_pieces(s.skip(i + 1), c)
    }
}

/// The value an `accent-rgb` setting is read as: trimmed, unquoted,
/// trimmed again and lowercased.
pub open spec fn cleaned_rgb(value: Seq<char>) -> Seq<char> {
    ascii_lower_seq(trim(trim_char(trim(value), '\'')))
}

/// A normalised `accent-rgb` value: `#rrggbb`, bare `rrggbb` or `#rgb`
/// (each nibble doubled), or a comma-separated triple of byte values.
pub open spec fn parse_rgb_of(value: Seq<char>) -> Option<Seq<char>> {
    let v = cleaned_rgb(value);
    if v.len() > 0 && v[0] == '#' {
        let rest = v.drop_first();
        if rest.len() == 3 {
            if all_hex(doubled(rest)) {
                Some(seq!['#'] + doubled(rest))
            } else {
                None
            }
        } else if rest.len() == 6 && all_hex(rest) {
            Some(seq!['#'] + rest)
        } else {
            None
        }
    } else if all_hex(v) && v.len() == 6 {
        Some(seq!['#'] + v)
    } else {
        let parts = trimmed_pieces(v, ',');
        if parts.len() == 3 && parse_u8_spec(parts[0]) is Some && parse_u8_spec(parts[1]) is Some
            && parse_u8_spec(parts[2]) is Some {
            Some(
                seq!['#'] + hex2(parse_u8_spec(parts[0])->0) + hex2(parse_u8_spec(parts[1])->0) + hex2(
                    parse_u8_spec(parts[2])->0,
                ),
            )
        } else {
            None
        }
    }
}

fn split_trimmed(s: &[char], c: char) -> (out: Vec<Vec<char>>)
    ensures
        out@.len() == trimmed_pieces(s@, c).len(),
        forall|i: int| 0 <= i < out@.len() ==> #[trigger] out@[i]@ == trimmed_pieces(s@, c)[i],
{
    let mut out: Vec<Vec<char>> = Vec::new();
    let mut start: usize = 0;
    assert(s@.skip(0) =~= s@);
    loop
        invariant
            start <= s.len(),
            trimmed_pieces(s@, c).len() == out@.len() + trimmed_pieces(s@.skip(start as int), c).len(),
            forall|i: int| 0 <= i < out@.len() ==> #[trigger] out@[i]@ == trimmed_pieces(s@, c)[i],
            forall|i: int| 0 <= i < trimmed_pieces(s@.skip(start as int), c).len() ==> #[trigger] trimmed_pieces(s@.skip(start as int), c)[i] == trimmed_pieces(s@, c)[out@.len() + i],
        decreases s.len() - start,
    {
        let rest = Ghost(s@.skip(start as int));
        match crate::text::find_char_from(s, c, start) {
            None => {
                let piece = slice_chars(s, start, s.len());
                assert(piece@ =~= rest@);
                let t = trim_chars(&piece);
                proof {
                    crate::text::lemma_first_index_bounds(rest@, c);
                    assert(trimmed_pieces(rest@, c) =~= seq![trim(rest@)]);
                    assert(trimmed_pieces(rest@, c)[0] == trimmed_pieces(s@, c)[out@.len() as int]);
                }
                out.push(t);
                return out;
            },
            Some(i) => {
                let piece = slice_chars(s, start, i);
                proof {
                    crate::text::lemma_first_index_bounds(rest@, c);
                    assert(piece@ =~= rest@.take(i - start));
                    assert(rest@.skip(i - start + 1) =~= s@.skip(i + 1));
                    let tail = trimmed_pieces(s@.skip(i + 1), c);
                    assert(trimmed_pieces(rest@, c) =~= seq![trim(piece@)] + tail);
                    assert(trimmed_pieces(rest@, c)[0] == trimmed_pieces(s@, c)[out@.len() as int]);
                    assert forall|j: int| 0 <= j < tail.len() implies #[trigger] tail[j] == trimmed_pieces(s@, c)[out@.len() + 1 + j] by {
                        assert(tail[j] == trimmed_pieces(rest@, c)[j + 1]);
                    }
                }
                let t = trim_chars(&piece);
                let ghost n = out@.len();
                out.push(t);
                                start = i + 1;
            },
        }
    }
}

/// Normalise an `accent-rgb` style value, which may be `#rrggbb`, bare
/// `rrggbb`, `#rgb`, or a comma-separated triple.
pub fn parse_rgb(value: &str) -> (r: Option<String>)
    ensures
        match r {
            Some(h) => parse_rgb_of(value@) == Some(h@),
            None => parse_rgb_of(value@) is None,
        },
{
    let v = ascii_lowercase_chars(&trim_chars(&trim_char_chars(&trim_chars(&chars_of(value)), '\'')));
    assert(v@ == cleaned_rgb(value@));
    if v.len() > 0 && v[0] == '#' {
        let rest = slice_chars(&v, 1, v.len());
        assert(rest@ =~= v@.drop_first());
        if rest.len() == 3 {
            let mut expanded: Vec<char> = Vec::new();
            let mut i: usize = 0;
            while i < 3
                invariant
                    i <= 3 == rest@.len(),
                    expanded@ == doubled(rest@.take(i as int)),
                decreases 3 - i,
            {
                expanded.push(rest[i]);
                expanded.push(rest[i]);
                assert(rest@.take(i + 1).drop_last() =~= rest@.take(i as int));
                i = i + 1;
            }
            assert(rest@.take(3) =~= rest@);
            if is_hex(&expanded) {
                let mut out = vec!['#'];
                extend_chars(&mut out, &expanded);
                assert(out@ =~= seq!['#'] + doubled(rest@));
                return Some(string_of(&out));
            }
            return None;
        } else if rest.len() == 6 {
            if is_hex(&rest) {
                let mut out = vec!['#'];
                extend_chars(&mut out, &rest);
                assert(out@ =~= seq!['#'] + rest@);
                return Some(string_of(&out));
            }
            return None;
        }
        return None;
    }
    if is_hex(&v) && v.len() == 6 {
        let mut out = vec!['#'];
        extend_chars(&mut out, &v);
        assert(out@ =~= seq!['#'] + v@);
        return Some(string_of(&out));
    }
    let parts = split_trimmed(&v, ',');
    if parts.len() == 3 {
        let a = parse_u8(&parts[0]);
        let b = parse_u8(&parts[1]);
        let c = parse_u8(&parts[2]);
        match (a, b, c) {
            (Some(a), Some(b), Some(c)) => {
                let mut out = vec!['#'];
                push_hex2(&mut out, a);
                push_hex2(&mut out, b);
                push_hex2(&mut out, c);
                assert(out@ =~= seq!['#'] + hex2(a) + hex2(b) + hex2(c));
                return Some(string_of(&out));
            },
            _ => {
                return None;
            },
        }
    }
    None
}

/// A `gsettings get` result as a setting value: `None` when the command
/// failed; otherwise the output trimmed and unquoted (`gsettings` prints
/// strings quoted), and `None` when nothing is left.
pub open spec fn setting_value_of(success: bool, output: Seq<char>) -> Option<Seq<char>> {
    let v = trim(trim_char(trim(output), '\''));
    if !success || v.len() == 0 {
        None
    } else {
        Some(v)
    }
}

/// Read one setting from the output of `gsettings get`.
pub fn setting_value(success: bool, output: &str) -> (r: Option<String>)
    ensures
        match r {
            Some(v) => setting_value_of(success, output@) == Some(v@),
            None => setting_value_of(success, output@) is None,
        },
{
    if !success {
        return None;
    }
    let v = trim_chars(&trim_char_chars(&trim_chars(&chars_of(output)), '\''));
    if v.len() == 0 {
        None
    } else {
        Some(string_of(&v))
    }
}

/// The accent colour from the desktop's settings, in order of authority:
/// Cinnamon's accent name, then the XApp portal's RGB value, then GNOME's
/// accent name.
pub open spec fn accent_of(
    cinnamon: Option<Seq<char>>,
    portal_rgb: Option<Seq<char>>,
    gnome: Option<Seq<char>>,
) -> Result<Seq<char>, Seq<char>> {
    let a = match cinnamon {
        Some(v) => palette_hex_of(v),
        None => None,
    };
    let b = match portal_rgb {
        Some(v) => parse_rgb_of(v),
        None => None,
    };
    let c = match gnome {
        Some(v) => palette_hex_of(v),
        None => None,
    };
    if a is Some {
        Ok(a->0)
    } else if b is Some {
        Ok(b->0)
    } else if c is Some {
        Ok(c->0)
    } else {
        Err("This desktop does not expose an accent colour"@)
    }
}

/// The desktop's accent colour as `#rrggbb`.
pub fn accent_color(cinnamon: Option<&str>, portal_rgb: Option<&str>, gnome: Option<&str>) -> (r: Result<String, String>)
    ensures
        match r {
            Ok(h) => accent_of(crate::apps::opt_str(cinnamon), crate::apps::opt_str(portal_rgb), crate::apps::opt_str(gnome)) == Ok::<Seq<char>, Seq<char>>(h@),
            Err(e) => accent_of(crate::apps::opt_str(cinnamon), crate::apps::opt_str(portal_rgb), crate::apps::opt_str(gnome)) == Err::<Seq<char>, Seq<char>>(e@),
        },
{
    if let Some(v) = cinnamon {
        if let Some(hex) = palette_hex(v) {
            return Ok(hex);
        }
    }
    if let Some(v) = portal_rgb {
        if let Some(hex) = parse_rgb(v) {
            return Ok(hex);
        }
    }
    if let Some(v) = gnome {
        if let Some(hex) = palette_hex(v) {
            return Ok(hex);
        }
    }
    Err(owned("This desktop does not expose an accent colour"))
}

/// A lowercase hexadecimal digit.
pub open spec fn lower_hex_digit(c: char) -> bool {
    ('0' <= c <= '9') || ('a' <= c <= 'f')
}

/// `#rrggbb` in lowercase hexadecimal.
pub open spec fn is_hex_colour(h: Seq<char>) -> bool {
    h.len() == 7 && h[0] == '#' && forall|i: int| 1 <= i < 7 ==> lower_hex_digit(#[trigger] h[i])
}

proof fn lemma_doubled(s: Seq<char>)
    ensures
        doubled(s).len() == 2 * s.len(),
        forall|k: int| 0 <= k < 2 * s.len() ==> #[trigger] doubled(s)[k] == s[k / 2],
    decreases s.len(),
{
    if s.len() > 0 {
        lemma_doubled(s.drop_last());
        let d = doubled(s);
        assert forall|k: int| 0 <= k < 2 * s.len() implies #[trigger] d[k] == s[k / 2] by {
            if k < 2 * s.len() - 2 {
                assert(d[k] == doubled(s.drop_last())[k]);
                assert(s.drop_last()[k / 2] == s[k / 2]);
            }
        }
    }
}

proof fn lemma_lower_is_not_upper(s: Seq<char>, i: int)
    requires
        0 <= i < s.len(),
    ensures
        !('A' <= ascii_lower_seq(s)[i] <= 'Z'),
{
    let c = s[i];
    if 'A' <= c <= 'Z' {
        assert(ascii_lower_seq(s)[i] == ((c as u32) + 32) as char);
    }
}

proof fn lemma_hex_char_is_lower(v: nat)
    requires
        v < 16,
    ensures
        lower_hex_digit(hex_char(v)),
{
}

/// Every accent value read from an RGB setting is normalised to `#rrggbb`
/// in lowercase.
pub proof fn lemma_rgb_is_normalised(value: Seq<char>)
    ensures
        parse_rgb_of(value) matches Some(h) ==> is_hex_colour(h),
{
    let v = cleaned_rgb(value);
    let raw = trim(trim_char(trim(value), '\''));
    assert(v == ascii_lower_seq(raw));
    assert forall|i: int| 0 <= i < v.len() implies !('A' <= #[trigger] v[i] <= 'Z') by {
        lemma_lower_is_not_upper(raw, i);
    }
    if v.len() > 0 && v[0] == '#' {
        let rest = v.drop_first();
        if rest.len() == 3 && all_hex(doubled(rest)) {
            lemma_doubled(rest);
            let h = seq!['#'] + doubled(rest);
            assert forall|i: int| 1 <= i < 7 implies lower_hex_digit(#[trigger] h[i]) by {
                assert(h[i] == doubled(rest)[i - 1]);
                assert(doubled(rest)[i - 1] == rest[(i - 1) / 2]);
                assert(rest[(i - 1) / 2] == v[(i - 1) / 2 + 1]);
                assert(hex_digit(doubled(rest)[i - 1]));
            }
        } else if rest.len() == 6 && all_hex(rest) {
            let h = seq!['#'] + rest;
            assert forall|i: int| 1 <= i < 7 implies lower_hex_digit(#[trigger] h[i]) by {
                assert(h[i] == rest[i - 1]);
                assert(rest[i - 1] == v[i]);
                assert(hex_digit(rest[i - 1]));
            }
        }
    } else if all_hex(v) && v.len() == 6 {
        let h = seq!['#'] + v;
        assert forall|i: int| 1 <= i < 7 implies lower_hex_digit(#[trigger] h[i]) by {
            assert(h[i] == v[i - 1]);
            assert(hex_digit(v[i - 1]));
        }
    } else {
        let parts = trimmed_pieces(v, ',');
        if parts.len() == 3 && parse_u8_spec(parts[0]) is Some && parse_u8_spec(parts[1]) is Some
            && parse_u8_spec(parts[2]) is Some {
            let a = parse_u8_spec(parts[0])->0;
            let b = parse_u8_spec(parts[1])->0;
            let c = parse_u8_spec(parts[2])->0;
            let h = seq!['#'] + hex2(a) + hex2(b) + hex2(c);
            lemma_hex_char_is_lower((a / 16) as nat);
            lemma_hex_char_is_lower((a % 16) as nat);
            lemma_hex_char_is_lower((b / 16) as nat);
            lemma_hex_char_is_lower((b % 16) as nat);
            lemma_hex_char_is_lower((c / 16) as nat);
            lemma_hex_char_is_lower((c % 16) as nat);
            assert(h[1] == hex2(a)[0] && h[2] == hex2(a)[1]);
            assert(h[3] == hex2(b)[0] && h[4] == hex2(b)[1]);
            assert(h[5] == hex2(c)[0] && h[6] == hex2(c)[1]);
        }
    }
}

/// The desktop's accent colour, whichever setting it comes from, is
/// `#rrggbb` in lowercase.
pub proof fn lemma_accent_is_normalised(
    cinnamon: Option<Seq<char>>,
    portal_rgb: Option<Seq<char>>,
    gnome: Option<Seq<char>>,
)
    ensures
        accent_of(cinnamon, portal_rgb, gnome) matches Ok(h) ==> is_hex_colour(h),
{
    reveal_strlit("#3584e4");
    reveal_strlit("#2190a4");
    reveal_strlit("#3a944a");
    reveal_strlit("#c88800");
    reveal_strlit("#ed5b00");
    reveal_strlit("#e62d42");
    reveal_strlit("#d56199");
    reveal_strlit("#9141ac");
    reveal_strlit("#6f8396");
    assert forall|i: int| 0 <= i < palette().len() implies is_hex_colour(#[trigger] palette()[i].1) by {}
    if cinnamon is Some {
        lemma_palette_entry(ascii_lower_seq(trim(cinnamon->0)), 0);
    }
    if gnome is Some {
        lemma_palette_entry(ascii_lower_seq(trim(gnome->0)), 0);
    }
    if portal_rgb is Some {
        lemma_rgb_is_normalised(portal_rgb->0);
    }
}

proof fn lemma_palette_entry(name: Seq<char>, i: int)
    requires
        forall|k: int| 0 <= k < palette().len() ==> is_hex_colour(#[trigger] palette()[k].1),
    ensures
        palette_from(name, i) matches Some(h) ==> is_hex_colour(h),
    decreases palette().len() - i,
{
    if 0 <= i < palette().len() && palette()[i].0 != name {
        lemma_palette_entry(name, i + 1);
    }
}

} // verus!
