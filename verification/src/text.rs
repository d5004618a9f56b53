//! Character-level text handling shared by the parsers.
//!
//! Text is handled as sequences of `char`: a `&str` is read into a
//! `Vec<char>` once, worked on with verified loops, and turned back into a
//! `String` at the end.
use vstd::prelude::*;

verus! {

broadcast use vstd::string::group_string_axioms;

/// The characters of `s`, one by one.
pub fn chars_of(s: &str) -> (out: Vec<char>)
    ensures
        out@ == s@,
{
    let mut out: Vec<char> = Vec::new();
    for c in it: s.chars()
        invariant
            out@ == it.seq().take(it.index() as int),
            it.seq() == s@,
    {
        out.push(c);
    }
    out
}

/// `String::push`: appends one character.
#[verifier::external_body]
pub(crate) fn push_char(s: &mut String, c: char)
    ensures
        final(s)@ == old(s)@.push(c),
{
    s.push(c);
}

/// Builds a string from a sequence of characters.
pub fn string_of(chars: &[char]) -> (s: String)
    ensures
        s@ == chars@,
{
    let mut s = String::new();
    let mut i: usize = 0;
    while i < chars.len()
        invariant
            i <= chars.len(),
            s@ == chars@.take(i as int),
        decreases chars.len() - i,
    {
        push_char(&mut s, chars[i]);
        assert(chars@.take(i as int).push(chars@[i as int]) =~= chars@.take(i + 1));
        i = i + 1;
    }
    assert(chars@.take(chars.len() as int) =~= chars@);
    s
}

/// A string holding exactly the characters of a `&str`.
pub fn owned(s: &str) -> (out: String)
    ensures
        out@ == s@,
{
    let chars = chars_of(s);
    string_of(&chars)
}

/// Appends all of `tail` to `out`.
pub fn extend_chars(out: &mut Vec<char>, tail: &[char])
    ensures
        final(out)@ == old(out)@ + tail@,
{
    let mut i: usize = 0;
    while i < tail.len()
        invariant
            i <= tail.len(),
            out@ == old(out)@ + tail@.take(i as int),
        decreases tail.len() - i,
    {
        out.push(tail[i]);
        assert(old(out)@ + tail@.take(i as int) + seq![tail@[i as int]] =~= old(out)@ + tail@.take(
            i + 1,
        ));
        i = i + 1;
    }
    assert(tail@.take(tail.len() as int) =~= tail@);
}

/// The characters `s[from..to]`.
pub fn slice_chars(s: &[char], from: usize, to: usize) -> (out: Vec<char>)
    requires
        from <= to <= s.len(),
    ensures
        out@ == s@.subrange(from as int, to as int),
{
    let mut out: Vec<char> = Vec::new();
    let mut i = from;
    while i < to
        invariant
            from <= i <= to <= s.len(),
            out@ == s@.subrange(from as int, i as int),
        decreases to - i,
    {
        out.push(s[i]);
        assert(s@.subrange(from as int, i as int).push(s@[i as int]) =~= s@.subrange(
            from as int,
            i + 1,
        ));
        i = i + 1;
    }
    out
}

/// Whether two character sequences are equal.
pub fn chars_eq(a: &[char], b: &[char]) -> (r: bool)
    ensures
        r == (a@ == b@),
{
    if a.len() != b.len() {
        return false;
    }
    let mut i: usize = 0;
    while i < a.len()
        invariant
            a.len() == b.len(),
            i <= a.len(),
            forall|j: int| 0 <= j < i ==> a@[j] == b@[j],
        decreases a.len() - i,
    {
        if a[i] != b[i] {
            return false;
        }
        i = i + 1;
    }
    assert(a@ =~= b@);
    true
}

/// Whether two strings hold the same characters.
pub fn str_eq(a: &str, b: &str) -> (r: bool)
    ensures
        r == (a@ == b@),
{
    let x = chars_of(a);
    let y = chars_of(b);
    chars_eq(&x, &y)
}

/// Unicode `White_Space`, the property `char::is_whitespace` tests.
pub open spec fn is_white(c: char) -> bool {
    let u = c as u32;
    ||| 0x09 <= u <= 0x0d
    ||| u == 0x20
    ||| u == 0x85
    ||| u == 0xa0
    ||| u == 0x1680
    ||| 0x2000 <= u <= 0x200a
    ||| u == 0x2028
    ||| u == 0x2029
    ||| u == 0x202f
    ||| u == 0x205f
    ||| u == 0x3000
}

/// `char::is_whitespace`.
pub fn is_whitespace(c: char) -> (r: bool)
    ensures
        r == is_white(c),
{
    let u = c as u32;
    (0x09 <= u && u <= 0x0d) || u == 0x20 || u == 0x85 || u == 0xa0 || u == 0x1680 || (0x2000 <= u
        && u <= 0x200a) || u == 0x2028 || u == 0x2029 || u == 0x202f || u == 0x205f || u == 0x3000
}

/// `s` without its leading characters that satisfy `drop`.
pub open spec fn strip_start(s: Seq<char>, drop: spec_fn(char) -> bool) -> Seq<char>
    decreases s.len(),
{
    if s.len() > 0 && drop(s[0]) {
        strip_start(s.drop_first(), drop)
    } else {
        s
    }
}

/// `s` without its trailing characters that satisfy `drop`.
pub open spec fn strip_end(s: Seq<char>, drop: spec_fn(char) -> bool) -> Seq<char>
    decreases s.len(),
{
    if s.len() > 0 && drop(s.last()) {
        strip_end(s.drop_last(), drop)
    } else {
        s
    }
}

/// `str::trim`: both ends stripped of Unicode whitespace.
pub open spec fn trim(s: Seq<char>) -> Seq<char> {
    strip_end(strip_start(s, |c: char| is_white(c)), |c: char| is_white(c))
}

/// `str::trim_matches` with a single character.
pub open spec fn trim_char(s: Seq<char>, t: char) -> Seq<char> {
    strip_end(strip_start(s, is_char(t)), is_char(t))
}

/// The test "is the character `t`".
pub open spec fn is_char(t: char) -> spec_fn(char) -> bool {
    |c: char| c == t
}

proof fn lemma_strip_start_skip(s: Seq<char>, drop: spec_fn(char) -> bool, i: int)
    requires
        0 <= i <= s.len(),
        forall|j: int| 0 <= j < i ==> drop(#[trigger] s[j]),
    ensures
        strip_start(s, drop) == strip_start(s.skip(i), drop),
    decreases i,
{
    if i > 0 {
        assert(s.drop_first().skip(i - 1) =~= s.skip(i));
        assert forall|j: int| 0 <= j < i - 1 implies drop(#[trigger] s.drop_first()[j]) by {
            assert(s.drop_first()[j] == s[j + 1]);
        }
        lemma_strip_start_skip(s.drop_first(), drop, i - 1);
    } else {
        assert(s.skip(0) =~= s);
    }
}

pub proof fn lemma_strip_end_take(s: Seq<char>, drop: spec_fn(char) -> bool, i: int)
    requires
        0 <= i <= s.len(),
        forall|j: int| i <= j < s.len() ==> drop(#[trigger] s[j]),
    ensures
        strip_end(s, drop) == strip_end(s.take(i), drop),
    decreases s.len() - i,
{
    if i < s.len() {
        assert(s.drop_last().take(i) =~= s.take(i));
        lemma_strip_end_take(s.drop_last(), drop, i);
    } else {
        assert(s.take(i) =~= s);
    }
}

fn drops(c: char, ws: bool, t: char) -> (r: bool)
    ensures
        r == if ws {
            is_white(c)
        } else {
            c == t
        },
{
    if ws {
        is_whitespace(c)
    } else {
        c == t
    }
}

/// The characters of `s` without leading and trailing ones that `drop` holds of.
fn strip_with(s: &[char], Ghost(drop): Ghost<spec_fn(char) -> bool>, ws: bool, t: char) -> (out: Vec<char>)
    requires
        forall|c: char| #[trigger] drop(c) == if ws {
            is_white(c)
        } else {
            c == t
        },
    ensures
        out@ == strip_end(strip_start(s@, drop), drop),
{
    let mut start: usize = 0;
    while start < s.len() && drops(s[start], ws, t)
        invariant
            start <= s.len(),
            forall|c: char| #[trigger] drop(c) == if ws {
                is_white(c)
            } else {
                c == t
            },
            forall|j: int| 0 <= j < start ==> drop(#[trigger] s@[j]),
        decreases s.len() - start,
    {
        start = start + 1;
    }
    proof {
        lemma_strip_start_skip(s@, drop, start as int);
        assert(strip_start(s@.skip(start as int), drop) == s@.skip(start as int));
    }
    let mut end: usize = s.len();
    while end > start && drops(s[end - 1], ws, t)
        invariant
            start <= end <= s.len(),
            forall|c: char| #[trigger] drop(c) == if ws {
                is_white(c)
            } else {
                c == t
            },
            forall|j: int| end <= j < s.len() ==> drop(#[trigger] s@[j]),
        decreases end - start,
    {
        end = end - 1;
    }
    proof {
        let rest = s@.skip(start as int);
        let k = end - start;
        assert forall|j: int| k <= j < rest.len() implies drop(#[trigger] rest[j]) by {
            assert(rest[j] == s@[j + start]);
        }
        lemma_strip_end_take(rest, drop, k);
        assert(rest.take(k) =~= s@.subrange(start as int, end as int));
    }
    slice_chars(s, start, end)
}

/// `str::trim` on characters.
pub fn trim_chars(s: &[char]) -> (out: Vec<char>)
    ensures
        out@ == trim(s@),
{
    strip_with(s, Ghost(|c: char| is_white(c)), true, ' ')
}

/// `str::trim_matches(t)` on characters.
pub fn trim_char_chars(s: &[char], t: char) -> (out: Vec<char>)
    ensures
        out@ == trim_char(s@, t),
{
    strip_with(s, Ghost(is_char(t)), false, t)
}

/// `str::trim_end_matches(t)` on characters.
pub fn trim_end_char_chars(s: &[char], t: char) -> (out: Vec<char>)
    ensures
        out@ == strip_end(s@, |c: char| c == t),
{
    let mut end: usize = s.len();
    while end > 0 && s[end - 1] == t
        invariant
            end <= s.len(),
            forall|j: int| end <= j < s.len() ==> #[trigger] s@[j] == t,
        decreases end,
    {
        end = end - 1;
    }
    proof {
        lemma_strip_end_take(s@, |c: char| c == t, end as int);
    }
    slice_chars(s, 0, end)
}

/// The ASCII lowercase form of a character; others are unchanged.
pub open spec fn ascii_lower(c: char) -> char {
    if 'A' <= c <= 'Z' {
        ((c as u32) + 32) as char
    } else {
        c
    }
}

/// `char::to_ascii_lowercase`.
pub fn to_ascii_lower(c: char) -> (r: char)
    ensures
        r == ascii_lower(c),
{
    if 'A' <= c && c <= 'Z' {
        ((c as u8) + 32) as char
    } else {
        c
    }
}

/// `str::to_ascii_lowercase`.
pub open spec fn ascii_lower_seq(s: Seq<char>) -> Seq<char> {
    s.map_values(|c: char| ascii_lower(c))
}

/// `str::to_ascii_lowercase` on characters.
pub fn ascii_lowercase_chars(s: &[char]) -> (out: Vec<char>)
    ensures
        out@ == ascii_lower_seq(s@),
{
    let mut out: Vec<char> = Vec::new();
    let mut i: usize = 0;
    while i < s.len()
        invariant
            i <= s.len(),
            out@ == ascii_lower_seq(s@.take(i as int)),
        decreases s.len() - i,
    {
        out.push(to_ascii_lower(s[i]));
        assert(ascii_lower_seq(s@.take(i as int)).push(ascii_lower(s@[i as int]))
            =~= ascii_lower_seq(s@.take(i + 1)));
        i = i + 1;
    }
    assert(s@.take(s.len() as int) =~= s@);
    out
}

/// `str::eq_ignore_ascii_case`.
pub open spec fn eq_ignore_ascii_case(a: Seq<char>, b: Seq<char>) -> bool {
    ascii_lower_seq(a) == ascii_lower_seq(b)
}

/// What `str::to_lowercase` returns: Unicode's full lowercase mapping of
/// every character, which takes tables to state.
pub uninterp spec fn lowercase(s: Seq<char>) -> Seq<char>;

/// `str::to_lowercase`.
#[verifier::external_body]
pub(crate) fn to_lowercase(s: &str) -> (out: String)
    ensures
        out@ == lowercase(s@),
{
    s.to_lowercase()
}

/// `str::to_lowercase` on characters.
pub fn lowercase_chars(s: &[char]) -> (out: Vec<char>)
    ensures
        out@ == lowercase(s@),
{
    let text = string_of(s);
    let lower = to_lowercase(text.as_str());
    chars_of(lower.as_str())
}

/// Whether `s` begins with `p`.
pub open spec fn starts_with(s: Seq<char>, p: Seq<char>) -> bool {
    p.len() <= s.len() && s.take(p.len() as int) == p
}

/// Whether `s` ends with `p`.
pub open spec fn ends_with(s: Seq<char>, p: Seq<char>) -> bool {
    p.len() <= s.len() && s.skip(s.len() - p.len()) == p
}

/// `str::starts_with` on characters.
pub fn has_prefix(s: &[char], p: &[char]) -> (r: bool)
    ensures
        r == starts_with(s@, p@),
{
    if p.len() > s.len() {
        return false;
    }
    let mut i: usize = 0;
    while i < p.len()
        invariant
            p.len() <= s.len(),
            i <= p.len(),
            forall|j: int| 0 <= j < i ==> s@[j] == p@[j],
        decreases p.len() - i,
    {
        if s[i] != p[i] {
            assert(s@.take(p.len() as int)[i as int] != p@[i as int]);
            return false;
        }
        i = i + 1;
    }
    assert(s@.take(p.len() as int) =~= p@);
    true
}

/// `str::ends_with` on characters.
pub fn has_suffix(s: &[char], p: &[char]) -> (r: bool)
    ensures
        r == ends_with(s@, p@),
{
    if p.len() > s.len() {
        return false;
    }
    let off = s.len() - p.len();
    let mut i: usize = 0;
    while i < p.len()
        invariant
            p.len() <= s.len(),
            off == s.len() - p.len(),
            i <= p.len(),
            forall|j: int| 0 <= j < i ==> s@[off + j] == p@[j],
        decreases p.len() - i,
    {
        if s[off + i] != p[i] {
            assert(s@.skip(off as int)[i as int] != p@[i as int]);
            return false;
        }
        i = i + 1;
    }
    assert(s@.skip(off as int) =~= p@);
    true
}

/// Whether `p` occurs in `s` as a contiguous run.
pub open spec fn contains_seq(s: Seq<char>, p: Seq<char>) -> bool {
    exists|i: int| 0 <= i && i + p.len() <= s.len() && #[trigger] s.subrange(i, i + p.len()) == p
}

/// `str::contains` with a string pattern, on characters.
pub fn contains_chars(s: &[char], p: &[char]) -> (r: bool)
    ensures
        r == contains_seq(s@, p@),
{
    if p.len() > s.len() {
        return false;
    }
    let mut i: usize = 0;
    while i <= s.len() - p.len()
        invariant
            p.len() <= s.len(),
            i <= s.len(),
            forall|k: int| 0 <= k < i && k + p.len() <= s.len() ==> #[trigger] s@.subrange(
                k,
                k + p.len(),
            ) != p@,
        decreases s.len() - i,
    {
        let mut j: usize = 0;
        let mut same = true;
        while j < p.len()
            invariant
                i + p.len() <= s.len(),
                j <= p.len(),
                same == forall|m: int| 0 <= m < j ==> s@[i + m] == p@[m],
            decreases p.len() - j,
        {
            if s[i + j] != p[j] {
                same = false;
            }
            j = j + 1;
        }
        if same {
            assert(s@.subrange(i as int, i + p.len()) =~= p@);
            return true;
        }
        assert(s@.subrange(i as int, i + p.len()) != p@) by {
            let m = choose|m: int| 0 <= m < p.len() && s@[i + m] != p@[m];
            assert(s@.subrange(i as int, i + p.len())[m] == s@[i + m]);
        }
        i = i + 1;
    }
    proof {
        assert forall|k: int| 0 <= k && k + p.len() <= s.len() implies #[trigger] s@.subrange(
            k,
            k + p.len(),
        ) != p@ by {
            assert(k < i);
        }
    }
    false
}

/// The index of the first `c` in `s`, or -1.
pub open spec fn first_index_of(s: Seq<char>, c: char) -> int
    decreases s.len(),
{
    if s.len() == 0 {
        -1
    } else if s[0] == c {
        0
    } else {
        let rest = first_index_of(s.drop_first(), c);
        if rest < 0 {
            -1
        } else {
            rest + 1
        }
    }
}

/// Finds the first `c` in `s` at or after `from`.
pub fn find_char_from(s: &[char], c: char, from: usize) -> (r: Option<usize>)
    requires
        from <= s.len(),
    ensures
        match r {
            Some(i) => from <= i < s.len() && s@[i as int] == c && first_index_of(
                s@.skip(from as int),
                c,
            ) == i - from,
            None => first_index_of(s@.skip(from as int), c) == -1,
        },
{
    let mut i = from;
    while i < s.len()
        invariant
            from <= i <= s.len(),
            forall|j: int| from <= j < i ==> s@[j] != c,
        decreases s.len() - i,
    {
        if s[i] == c {
            proof {
                lemma_first_index(s@.skip(from as int), c, i - from);
            }
            return Some(i);
        }
        i = i + 1;
    }
    proof {
        lemma_first_index_none(s@.skip(from as int), c);
    }
    None
}

pub proof fn lemma_first_index(s: Seq<char>, c: char, i: int)
    requires
        0 <= i < s.len(),
        s[i] == c,
        forall|j: int| 0 <= j < i ==> s[j] != c,
    ensures
        first_index_of(s, c) == i,
    decreases i,
{
    if i > 0 {
        lemma_first_index(s.drop_first(), c, i - 1);
    }
}

pub proof fn lemma_first_index_none(s: Seq<char>, c: char)
    requires
        forall|j: int| 0 <= j < s.len() ==> s[j] != c,
    ensures
        first_index_of(s, c) == -1,
    decreases s.len(),
{
    if s.len() > 0 {
        lemma_first_index_none(s.drop_first(), c);
    }
}

/// The first `c` in `s`, when there is one, is at an index of `s`.
pub proof fn lemma_first_index_bounds(s: Seq<char>, c: char)
    ensures
        -1 <= first_index_of(s, c) < s.len(),
        first_index_of(s, c) >= 0 ==> s[first_index_of(s, c)] == c,
        forall|j: int| 0 <= j < first_index_of(s, c) ==> s[j] != c,
        first_index_of(s, c) == -1 ==> forall|j: int| 0 <= j < s.len() ==> s[j] != c,
    decreases s.len(),
{
    if s.len() > 0 && s[0] != c {
        lemma_first_index_bounds(s.drop_first(), c);
        assert forall|j: int| 0 <= j < first_index_of(s, c) implies s[j] != c by {
            if j > 0 {
                assert(s[j] == s.drop_first()[j - 1]);
            }
        }
        if first_index_of(s, c) == -1 {
            assert forall|j: int| 0 <= j < s.len() implies s[j] != c by {
                if j > 0 {
                    assert(s[j] == s.drop_first()[j - 1]);
                }
            }
        }
    }
}

/// The decimal digit for `d < 10`.
pub open spec fn digit_char(d: nat) -> char {
    ((d + 48) as u32) as char
}

/// The decimal form of a natural number, without leading zeros.
pub open spec fn decimal(n: nat) -> Seq<char>
    decreases n,
{
    if n < 10 {
        seq![digit_char(n)]
    } else {
        decimal(n / 10).push(digit_char(n % 10))
    }
}

/// The decimal form of an integer, with a `-` sign when negative.
pub open spec fn signed_decimal(n: int) -> Seq<char> {
    if n < 0 {
        seq!['-'] + decimal((-n) as nat)
    } else {
        decimal(n as nat)
    }
}

/// `u64` formatted with `{}`.
pub fn decimal_chars(n: u64) -> (out: Vec<char>)
    ensures
        out@ == decimal(n as nat),
    decreases n,
{
    if n < 10 {
        let mut out = Vec::new();
        out.push(((n as u8) + 48) as char);
        out
    } else {
        let mut out = decimal_chars(n / 10);
        out.push((((n % 10) as u8) + 48) as char);
        out
    }
}

/// `i64` formatted with `{}`.
pub fn signed_decimal_chars(n: i64) -> (out: Vec<char>)
    ensures
        out@ == signed_decimal(n as int),
{
    if n < 0 {
        let magnitude: u64 = if n == i64::MIN {
            9223372036854775808u64
        } else {
            (-n) as u64
        };
        let mut out = Vec::new();
        out.push('-');
        let digits = decimal_chars(magnitude);
        extend_chars(&mut out, &digits);
        out
    } else {
        decimal_chars(n as u64)
    }
}

/// `prefix` followed by `detail`, as an error message is built.
pub fn prefixed(prefix: &str, detail: &str) -> (r: String)
    ensures
        r@ == prefix@ + detail@,
{
    let mut out = chars_of(prefix);
    let tail = chars_of(detail);
    extend_chars(&mut out, &tail);
    string_of(&out)
}

/// The first position at or after `k` where `p` occurs in `s`.
pub open spec fn occurrence_from(s: Seq<char>, p: Seq<char>, k: int) -> Option<int>
    decreases s.len() - k,
{
    if k < 0 || k + p.len() > s.len() {
        None
    } else if s.subrange(k, k + p.len()) == p {
        Some(k)
    } else {
        proof {
            if p.len() == 0 {
                assert(s.subrange(k, k) =~= p);
            }
        }
        occurrence_from(s, p, k + 1)
    }
}

/// What `str::split_once` splits at: the first occurrence of `p` in `s`.
pub open spec fn first_occurrence(s: Seq<char>, p: Seq<char>) -> Option<int> {
    occurrence_from(s, p, 0)
}

/// Whether `p` occurs in `s` at position `k`.
fn occurs_at(s: &[char], p: &[char], k: usize) -> (r: bool)
    requires
        k + p.len() <= s.len(),
    ensures
        r == (s@.subrange(k as int, k + p.len()) == p@),
{
    let mut i: usize = 0;
    while i < p.len()
        invariant
            k + p.len() <= s.len(),
            i <= p.len(),
            forall|j: int| 0 <= j < i ==> s@[k + j] == p@[j],
        decreases p.len() - i,
    {
        if s[k + i] != p[i] {
            assert(s@.subrange(k as int, k + p.len())[i as int] != p@[i as int]);
            return false;
        }
        i = i + 1;
    }
    assert(s@.subrange(k as int, k + p.len()) =~= p@);
    true
}

/// The first position of `p` in `s`, as `str::find` reports it.
pub fn find_text(s: &[char], p: &[char]) -> (r: Option<usize>)
    ensures
        match r {
            Some(k) => first_occurrence(s@, p@) == Some(k as int) && k + p.len() <= s.len(),
            None => first_occurrence(s@, p@) is None,
        },
{
    if p.len() > s.len() {
        return None;
    }
    let last = s.len() - p.len();
    let mut k: usize = 0;
    loop
        invariant
            p.len() <= s.len(),
            last == s.len() - p.len(),
            k <= last,
            occurrence_from(s@, p@, 0) == occurrence_from(s@, p@, k as int),
        decreases last - k,
    {
        if occurs_at(s, p, k) {
            return Some(k);
        }
        if k == last {
            return None;
        }
        k = k + 1;
    }
}

/// Whether `a` sorts before or equal to `b`, character by character as
/// `String`'s order compares them.
pub open spec fn text_le(a: Seq<char>, b: Seq<char>) -> bool
    decreases a.len(),
{
    if a.len() == 0 {
        true
    } else if b.len() == 0 {
        false
    } else if a[0] != b[0] {
        a[0] < b[0]
    } else {
        text_le(a.drop_first(), b.drop_first())
    }
}

pub fn chars_le(a: &[char], b: &[char]) -> (r: bool)
    ensures
        r == text_le(a@, b@),
{
    let mut i: usize = 0;
    assert(a@.skip(0) =~= a@);
    assert(b@.skip(0) =~= b@);
    while i < a.len() && i < b.len() && a[i] == b[i]
        invariant
            i <= a.len(),
            i <= b.len(),
            text_le(a@, b@) == text_le(a@.skip(i as int), b@.skip(i as int)),
        decreases a.len() - i,
    {
        proof {
            assert(a@.skip(i as int).drop_first() =~= a@.skip(i + 1));
            assert(b@.skip(i as int).drop_first() =~= b@.skip(i + 1));
        }
        i = i + 1;
    }
    proof {
        if i < a.len() && i < b.len() {
            assert(a@.skip(i as int)[0] == a@[i as int]);
            assert(b@.skip(i as int)[0] == b@[i as int]);
        }
    }
    if i == a.len() {
        true
    } else if i == b.len() {
        false
    } else {
        a[i] < b[i]
    }
}

/// Every text sorts before or equal to itself.
pub proof fn lemma_text_le_reflexive(a: Seq<char>)
    ensures
        text_le(a, a),
    decreases a.len(),
{
    if a.len() > 0 {
        lemma_text_le_reflexive(a.drop_first());
    }
}

pub proof fn lemma_text_le_total(a: Seq<char>, b: Seq<char>)
    ensures
        text_le(a, b) || text_le(b, a),
    decreases a.len(),
{
    if a.len() > 0 && b.len() > 0 && a[0] == b[0] {
        lemma_text_le_total(a.drop_first(), b.drop_first());
    }
}

pub proof fn lemma_text_le_transitive(a: Seq<char>, b: Seq<char>, c: Seq<char>)
    requires
        text_le(a, b),
        text_le(b, c),
    ensures
        text_le(a, c),
    decreases a.len(),
{
    if a.len() > 0 && b.len() > 0 && c.len() > 0 && a[0] == b[0] && b[0] == c[0] {
        lemma_text_le_transitive(a.drop_first(), b.drop_first(), c.drop_first());
    }
}

} // verus!
