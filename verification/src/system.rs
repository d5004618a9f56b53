//! System metrics: disk space, network traffic and the display backlight.
use vstd::prelude::*;
use crate::text::{chars_of, owned, string_of, trim, trim_chars};
use crate::number::{parse_u32, parse_u32_spec, saturating_mul_u32};
use crate::path::{file_name, path_file_name};

verus! {

/// The sum of some byte counts.
pub open spec fn total(s: Seq<u64>) -> int
    decreases s.len(),
{
    if s.len() == 0 {
        0
    } else {
        total(s.drop_last()) + s.last()
    }
}

/// The free space of all disks together, in bytes, from each disk's
/// available space.
pub fn disk_free_space(available: &[u64]) -> (r: u64)
    requires
        total(available@) <= u64::MAX,
    ensures
        r == total(available@),
{
    let mut sum: u64 = 0;
    let mut i: usize = 0;
    while i < available.len()
        invariant
            i <= available.len(),
            total(available@) <= u64::MAX,
            sum == total(available@.take(i as int)),
        decreases available.len() - i,
    {
        assert(available@.take(i + 1).drop_last() =~= available@.take(i as int));
        proof {
            lemma_total_prefix(available@, i + 1);
        }
        sum = sum + available[i];
        i = i + 1;
    }
    assert(available@.take(available.len() as int) =~= available@);
    sum
}

proof fn lemma_total_prefix(s: Seq<u64>, n: int)
    requires
        0 <= n <= s.len(),
    ensures
        total(s.take(n)) <= total(s),
    decreases s.len() - n,
{
    if n < s.len() {
        lemma_total_prefix(s, n + 1);
        assert(s.take(n + 1).drop_last() =~= s.take(n));
    } else {
        assert(s.take(n) =~= s);
    }
}

/// A memory reading to show as a share: the bytes in use and the total, which
/// must be known (not zero) for a share to mean anything.
pub fn memory_reading(used: u64, total: u64) -> (r: Result<(u64, u64), String>)
    ensures
        total == 0 <==> r is Err,
        r matches Err(e) ==> e@ == "System memory total is unavailable"@,
        r matches Ok(reading) ==> reading == (used, total),
{
    if total == 0 {
        Err(owned("System memory total is unavailable"))
    } else {
        Ok((used, total))
    }
}

/// The received counts of some interfaces' `(received, transmitted)` pairs.
pub open spec fn received(s: Seq<(u64, u64)>) -> Seq<u64> {
    s.map_values(|p: (u64, u64)| p.0)
}

/// The transmitted counts of some interfaces' `(received, transmitted)` pairs.
pub open spec fn transmitted(s: Seq<(u64, u64)>) -> Seq<u64> {
    s.map_values(|p: (u64, u64)| p.1)
}

/// A total that saturates at the largest `u64`.
pub open spec fn capped(n: int) -> int {
    if n > u64::MAX {
        u64::MAX as int
    } else {
        n
    }
}

/// Upload then download bytes observed since the previous refresh, summed
/// over the interfaces' `(received, transmitted)` deltas and saturating at
/// the largest `u64` rather than wrapping.
pub fn network_delta(traffic: &[(u64, u64)]) -> (r: (u64, u64))
    ensures
        r.0 == capped(total(transmitted(traffic@))),
        r.1 == capped(total(received(traffic@))),
{
    let mut rx: u64 = 0;
    let mut tx: u64 = 0;
    let mut i: usize = 0;
    while i < traffic.len()
        invariant
            i <= traffic.len(),
            rx == capped(total(received(traffic@.take(i as int)))),
            tx == capped(total(transmitted(traffic@.take(i as int)))),
        decreases traffic.len() - i,
    {
        let (r, t) = traffic[i];
        proof {
            let next = traffic@.take(i + 1);
            assert(received(next).drop_last() =~= received(traffic@.take(i as int)));
            assert(transmitted(next).drop_last() =~= transmitted(traffic@.take(i as int)));
            assert(received(next).last() == r);
            assert(transmitted(next).last() == t);
            lemma_total_nonnegative(received(traffic@.take(i as int)));
            lemma_total_nonnegative(transmitted(traffic@.take(i as int)));
        }
        rx = rx.saturating_add(r);
        tx = tx.saturating_add(t);
        i = i + 1;
    }
    assert(traffic@.take(traffic.len() as int) =~= traffic@);
    (tx, rx)
}

proof fn lemma_total_nonnegative(s: Seq<u64>)
    ensures
        total(s) >= 0,
    decreases s.len(),
{
    if s.len() > 0 {
        lemma_total_nonnegative(s.drop_last());
    }
}

/// A sysfs number: the file's text without surrounding whitespace, read as
/// a `u32`.
pub open spec fn sysfs_number(contents: Seq<char>) -> Option<u32> {
    parse_u32_spec(trim(contents))
}

/// The backlight's current and maximum levels, from the contents of its
/// `brightness` and `max_brightness` files.
pub open spec fn backlight_values_of(current: Seq<char>, maximum: Seq<char>) -> Result<(u32, u32), Seq<char>> {
    match sysfs_number(current) {
        None => Err("Kernel backlight brightness is invalid"@),
        Some(c) => match sysfs_number(maximum) {
            None => Err("Kernel backlight maximum is invalid"@),
            Some(m) => if m == 0 {
                Err("Kernel backlight maximum is zero"@)
            } else {
                Ok((c, m))
            },
        },
    }
}

fn read_number(contents: &str) -> (r: Option<u32>)
    ensures
        r == sysfs_number(contents@),
{
    let chars = chars_of(contents);
    let trimmed = trim_chars(&chars);
    parse_u32(&trimmed)
}

/// Read the backlight's levels from its sysfs files' contents.
pub fn backlight_values(current: &str, maximum: &str) -> (r: Result<(u32, u32), String>)
    ensures
        match r {
            Ok(v) => backlight_values_of(current@, maximum@) == Ok::<(u32, u32), Seq<char>>(v),
            Err(e) => backlight_values_of(current@, maximum@) == Err::<(u32, u32), Seq<char>>(e@),
        },
{
    let c = match read_number(current) {
        Some(c) => c,
        None => return Err(owned("Kernel backlight brightness is invalid")),
    };
    let m = match read_number(maximum) {
        Some(m) => m,
        None => return Err(owned("Kernel backlight maximum is invalid")),
    };
    if m == 0 {
        return Err(owned("Kernel backlight maximum is zero"));
    }
    Ok((c, m))
}

/// The backlight level as a percentage of its maximum, rounded down and
/// never above 100; `current * 100` saturates at the largest `u32`.
pub open spec fn percent_of(current: u32, maximum: u32) -> int {
    let scaled = if current * 100 > u32::MAX {
        u32::MAX as int
    } else {
        current * 100
    };
    if scaled / (maximum as int) > 100 {
        100
    } else {
        scaled / (maximum as int)
    }
}

/// The backlight level as a percentage.
pub fn brightness_percent(current: u32, maximum: u32) -> (r: u32)
    requires
        maximum > 0,
    ensures
        r == percent_of(current, maximum),
        r <= 100,
{
    let scaled = saturating_mul_u32(current, 100);
    let p = scaled / maximum;
    if p > 100 {
        100
    } else {
        p
    }
}

/// The display brightness in percent, from the contents of the backlight's
/// `brightness` and `max_brightness` files.
pub fn brightness(current: &str, maximum: &str) -> (r: Result<u32, String>)
    ensures
        match backlight_values_of(current@, maximum@) {
            Ok((c, m)) => r == Ok::<u32, String>(percent_of(c, m) as u32),
            Err(e) => r matches Err(m) && m@ == e,
        },
        r matches Ok(p) ==> p <= 100,
{
    match backlight_values(current, maximum) {
        Ok((c, m)) => Ok(brightness_percent(c, m)),
        Err(e) => Err(e),
    }
}

/// The raw backlight level for a percentage: the percentage capped at 100,
/// times the maximum (saturating), divided by 100.
pub fn brightness_raw(percent: u32, maximum: u32) -> (r: u32)
    ensures
        r == (if (if percent > 100 { 100 } else { percent as int }) * maximum > u32::MAX {
            u32::MAX as int
        } else {
            (if percent > 100 { 100 } else { percent as int }) * maximum
        }) / 100,
{
    let p = if percent > 100 {
        100
    } else {
        percent
    };
    saturating_mul_u32(p, maximum) / 100
}

/// The kernel's name for a backlight device: the last component of its
/// sysfs path, which is what logind is given.
pub fn backlight_name(device: &str) -> (r: Result<String, String>)
    ensures
        match file_name(device@) {
            Some(n) => r matches Ok(s) && s@ == n,
            None => r matches Err(m) && m@ == "The kernel backlight device has no name"@,
        },
{
    let chars = chars_of(device);
    match path_file_name(&chars) {
        Some(n) => Ok(string_of(&n)),
        None => Err(owned("The kernel backlight device has no name")),
    }
}

/// Changes to the backlight within this many milliseconds of Bloom setting
/// it are Bloom's own.
pub const ECHO_WINDOW_MS: i64 = 2000;

/// Watches the backlight and decides which changes to announce.
pub struct BrightnessWatch {
    /// The last level seen, seeded at startup rather than announced.
    pub previous: Option<u32>,
}

impl BrightnessWatch {
    /// Start from the level read at startup, if any.
    pub fn new(initial: Option<u32>) -> (w: Self)
        ensures
            w.previous == initial,
    {
        BrightnessWatch { previous: initial }
    }

    /// A new reading at time `now`, Bloom itself having last set the
    /// brightness at `last_change`: whether to announce it. A level that did
    /// not change is not announced; a change is remembered either way, and
    /// announced unless it falls within the echo window of Bloom's own.
    pub fn observe(&mut self, percent: u32, now: i64, last_change: i64) -> (announce: bool)
        requires
            i64::MIN <= now - last_change <= i64::MAX,
        ensures
            final(self).previous == Some(percent),
            announce == (old(self).previous != Some(percent) && now - last_change >= ECHO_WINDOW_MS),
    {
        if self.previous == Some(percent) {
            return false;
        }
        self.previous = Some(percent);
        let echo = now - last_change < ECHO_WINDOW_MS;
        !echo
    }
}

/// A brightness key press on the Windows backend: ten percent up, capped at
/// 100, or ten percent down, stopping at 0.
pub fn brightness_step(current: u32, up: bool) -> (r: u32)
    requires
        up ==> current + 10 <= u32::MAX,
    ensures
        r == if up {
            if current + 10 > 100 {
                100
            } else {
                current + 10
            }
        } else if current > 10 {
            current - 10
        } else {
            0
        },
{
    if up {
        let raised = current + 10;
        if raised > 100 {
            100
        } else {
            raised
        }
    } else if current > 10 {
        current - 10
    } else {
        0
    }
}

} // verus!
