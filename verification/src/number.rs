//! Unsigned decimal numbers, read the way `str::parse` reads them.
use vstd::prelude::*;
use crate::text::slice_chars;

verus! {

/// The digits `str::parse` reads for an unsigned type: the text without one
/// leading `+`.
pub open spec fn unsigned_digits(s: Seq<char>) -> Seq<char> {
    if s.len() > 0 && s[0] == '+' {
        s.drop_first()
    } else {
        s
    }
}

/// Every character is an ASCII decimal digit.
pub open spec fn all_decimal(d: Seq<char>) -> bool {
    forall|i: int| 0 <= i < d.len() ==> '0' <= #[trigger] d[i] <= '9'
}

/// The value of a run of decimal digits.
pub open spec fn decimal_value(digits: Seq<char>) -> nat
    decreases digits.len(),
{
    if digits.len() == 0 {
        0
    } else {
        decimal_value(digits.drop_last()) * 10 + ((digits.last() as u32) - 48) as nat
    }
}

/// What `str::parse` accepts for an unsigned type whose largest value is
/// `max`: an optional `+`, then one or more decimal digits whose value is at
/// most `max`.
pub open spec fn parse_unsigned(s: Seq<char>, max: nat) -> Option<nat> {
    let digits = unsigned_digits(s);
    if digits.len() > 0 && all_decimal(digits) && decimal_value(digits) <= max {
        Some(decimal_value(digits))
    } else {
        None
    }
}

/// `str::parse::<u8>`.
pub open spec fn parse_u8_spec(s: Seq<char>) -> Option<u8> {
    match parse_unsigned(s, 255) {
        Some(v) => Some(v as u8),
        None => None,
    }
}

/// `str::parse::<u32>`.
pub open spec fn parse_u32_spec(s: Seq<char>) -> Option<u32> {
    match parse_unsigned(s, 0xffff_ffff) {
        Some(v) => Some(v as u32),
        None => None,
    }
}

proof fn lemma_prefix_value_bound(d: Seq<char>, n: int)
    requires
        0 <= n <= d.len(),
        forall|j: int| 0 <= j < n ==> '0' <= #[trigger] d[j] <= '9',
    ensures
        all_decimal(d) ==> decimal_value(d.take(n)) <= decimal_value(d),
    decreases d.len() - n,
{
    if n < d.len() && all_decimal(d) {
        lemma_prefix_value_bound(d, n + 1);
        assert(d.take(n + 1).drop_last() =~= d.take(n));
        assert(d.take(n + 1).last() == d[n]);
    }
    if n == d.len() {
        assert(d.take(n) =~= d);
    }
}

/// The unsigned number `s` holds, when it is at most `max`.
fn parse_bounded(s: &[char], max: u32) -> (r: Option<u32>)
    ensures
        match r {
            Some(v) => parse_unsigned(s@, max as nat) == Some(v as nat),
            None => parse_unsigned(s@, max as nat) is None,
        },
{
    let start: usize = if s.len() > 0 && s[0] == '+' {
        1
    } else {
        0
    };
    let digits = slice_chars(s, start, s.len());
    proof {
        if start == 1 {
            assert(digits@ =~= s@.drop_first());
        } else {
            assert(digits@ =~= s@);
        }
    }
    if digits.len() == 0 {
        return None;
    }
    let mut value: u64 = 0;
    let mut i: usize = 0;
    while i < digits.len()
        invariant
            i <= digits.len(),
            forall|j: int| 0 <= j < i ==> '0' <= #[trigger] digits@[j] <= '9',
            digits@ == unsigned_digits(s@),
            value == decimal_value(digits@.take(i as int)),
            value <= max,
        decreases digits.len() - i,
    {
        let c = digits[i];
        if !('0' <= c && c <= '9') {
            assert(!('0' <= digits@[i as int] <= '9'));
            assert(!all_decimal(digits@));
            return None;
        }
        assert(digits@.take(i + 1).drop_last() =~= digits@.take(i as int));
        let next = value * 10 + ((c as u32) - 48) as u64;
        assert(digits@.take(i + 1).last() == c);
        assert(next == decimal_value(digits@.take(i + 1)));
        if next > max as u64 {
            proof {
                lemma_prefix_value_bound(digits@, i + 1);
            }
            assert(!(all_decimal(digits@) && decimal_value(digits@) <= max));
            return None;
        }
        value = next;
        i = i + 1;
    }
    assert(digits@.take(digits.len() as int) =~= digits@);
    Some(value as u32)
}

/// `str::parse::<u8>`.
pub fn parse_u8(s: &[char]) -> (r: Option<u8>)
    ensures
        r == parse_u8_spec(s@),
{
    match parse_bounded(s, 255) {
        Some(v) => Some(v as u8),
        None => None,
    }
}

/// `str::parse::<u32>`.
pub fn parse_u32(s: &[char]) -> (r: Option<u32>)
    ensures
        r == parse_u32_spec(s@),
{
    parse_bounded(s, 0xffff_ffff)
}

/// `a * b`, saturating at the largest `u32` as `u32::saturating_mul` does.
pub fn saturating_mul_u32(a: u32, b: u32) -> (r: u32)
    ensures
        r == (if a * b > u32::MAX {
            u32::MAX as int
        } else {
            a * b
        }),
{
    assert(a * b <= u32::MAX * u32::MAX) by (nonlinear_arith)
        requires
            a <= u32::MAX,
            b <= u32::MAX,
    ;
    let wide = (a as u64) * (b as u64);
    if wide > 0xffff_ffff {
        0xffff_ffff
    } else {
        wide as u32
    }
}

} // verus!
