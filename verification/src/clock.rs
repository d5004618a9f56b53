//! Wall-clock time in milliseconds since the Unix epoch, for ordering and
//! cache stamps.
use vstd::prelude::*;
use std::time::{Duration, SystemTime};

verus! {

#[verifier::external_type_specification]
#[verifier::external_body]
pub struct ExSystemTime(SystemTime);

/// `SystemTime::now`: the clock's current reading, of which nothing can be
/// stated.
#[verifier::external_body]
fn system_now() -> SystemTime {
    SystemTime::now()
}

/// `SystemTime::duration_since` the Unix epoch; `None` when the clock reads
/// earlier than the epoch. Which of the two comes back depends on the clock.
#[verifier::external_body]
fn since_epoch(t: &SystemTime) -> Option<Duration> {
    t.duration_since(std::time::UNIX_EPOCH).ok()
}

/// `Duration::as_millis`: the whole milliseconds of a duration read from
/// the clock.
#[verifier::external_body]
fn whole_millis(d: &Duration) -> u128 {
    d.as_millis()
}

/// The milliseconds elapsed since the epoch as an `i64` (truncated, as an
/// `as` conversion does), or 0 when the clock is before the epoch.
pub open spec fn epoch_millis_of(elapsed: Option<u128>) -> i64 {
    match elapsed {
        Some(m) => m as i64,
        None => 0,
    }
}

/// The conversion `now_ms` applies to the clock's reading.
pub fn epoch_millis(elapsed: Option<u128>) -> (r: i64)
    ensures
        r == epoch_millis_of(elapsed),
{
    match elapsed {
        Some(m) => m as i64,
        None => 0,
    }
}

/// The conversion the media poller applies: the elapsed milliseconds as a
/// `u64` (truncated), or 0 when the clock is before the epoch.
pub fn epoch_millis_unsigned(elapsed: Option<u128>) -> (r: u64)
    ensures
        r == match elapsed {
            Some(m) => m as u64,
            None => 0u64,
        },
{
    match elapsed {
        Some(m) => m as u64,
        None => 0,
    }
}

fn elapsed_millis() -> Option<u128> {
    let now = system_now();
    match since_epoch(&now) {
        Some(d) => Some(whole_millis(&d)),
        None => None,
    }
}

/// Milliseconds since the Unix epoch, used for ordering and cache stamps.
pub fn now_ms() -> i64 {
    epoch_millis(elapsed_millis())
}

/// Milliseconds since the Unix epoch, as the media poller stamps positions.
pub fn now_ms_unsigned() -> u64 {
    epoch_millis_unsigned(elapsed_millis())
}

/// Milliseconds since the Unix epoch; a clock before the epoch reads 0.
pub fn get_now_ms() -> i64 {
    epoch_millis(elapsed_millis())
}

} // verus!
