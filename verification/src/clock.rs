//! Points in time, as RFC 3339 text writes them.

use vstd::prelude::*;

use crate::text::{trim, trimmed};

verus! {

/// A point in time: whole seconds since 1970-01-01T00:00:00Z and the nanoseconds that follow them.
/// Within a leap second the nanoseconds count on past 999,999,999.
#[derive(Debug, Clone, Copy, PartialEq, Eq, Structural)]
pub struct Timestamp {
    pub seconds: i64,
    pub nanos: u32,
}

/// What `chrono::DateTime::parse_from_rfc3339` reads in a text: seconds and nanoseconds of the
/// point in time, `None` where it reports an error.
pub uninterp spec fn rfc3339_instant(s: Seq<char>) -> Option<(i64, u32)>;

/// What chrono's `signed_duration_since` and `num_nanoseconds` give for two points in time.
pub uninterp spec fn chrono_nanoseconds(
    later_seconds: i64,
    later_nanos: u32,
    earlier_seconds: i64,
    earlier_nanos: u32,
) -> Option<i64>;

/// The point in time that RFC 3339 text writes.
pub open spec fn instant_of(s: Seq<char>) -> Option<Timestamp> {
    match rfc3339_instant(s) {
        Some((seconds, nanos)) => Some(Timestamp { seconds, nanos }),
        None => None,
    }
}

/// Whether a point in time lies outside leap seconds and within the years that chrono's calendar
/// reaches for certain.
pub open spec fn is_ordinary(t: Timestamp) -> bool {
    &&& t.nanos < 1_000_000_000
    &&& -8_000_000_000_000 <= t.seconds <= 8_000_000_000_000
}

/// Nanoseconds from `earlier` to `later`, leap seconds aside.
pub open spec fn exact_nanoseconds(later: Timestamp, earlier: Timestamp) -> int {
    (later.seconds - earlier.seconds) * 1_000_000_000 + (later.nanos - earlier.nanos)
}

/// Nanoseconds from `earlier` to `later` as chrono counts them.
pub open spec fn nanoseconds_of(later: Timestamp, earlier: Timestamp) -> Option<i64> {
    chrono_nanoseconds(later.seconds, later.nanos, earlier.seconds, earlier.nanos)
}

/// Calls `chrono::DateTime::parse_from_rfc3339`, and on its result `timestamp` and
/// `timestamp_subsec_nanos`. The contract gives the outcome a name; which texts are accepted is
/// left to chrono.
#[verifier::external_body]
fn parse_rfc3339(s: &str) -> (r: Option<(i64, u32)>)
    ensures
        r == rfc3339_instant(s@),
{
    match chrono::DateTime::parse_from_rfc3339(s) {
        Ok(d) => Some((d.timestamp(), d.timestamp_subsec_nanos())),
        Err(_) => None,
    }
}

/// Calls chrono's `DateTime::signed_duration_since`, and `TimeDelta::num_nanoseconds` on its
/// result, for two points in time that `DateTime::from_timestamp` makes. The contract gives the
/// outcome a name, and states it for ordinary points in time: the exact difference where a 64-bit
/// number holds it, else `None`. How leap seconds are counted is left to chrono.
#[verifier::external_body]
fn nanoseconds_between(later: Timestamp, earlier: Timestamp) -> (r: Option<i64>)
    ensures
        r == chrono_nanoseconds(later.seconds, later.nanos, earlier.seconds, earlier.nanos),
        is_ordinary(later) && is_ordinary(earlier) ==> r == if i64::MIN <= exact_nanoseconds(later, earlier)
            <= i64::MAX {
            Some(exact_nanoseconds(later, earlier) as i64)
        } else {
            None
        },
{
    let to = chrono::DateTime::from_timestamp(later.seconds, later.nanos)?;
    let from = chrono::DateTime::from_timestamp(earlier.seconds, earlier.nanos)?;
    to.signed_duration_since(from).num_nanoseconds()
}

/// The point in time that RFC 3339 text writes.
fn read_rfc3339(s: &str) -> (r: Option<Timestamp>)
    ensures
        r == instant_of(s@),
{
    match parse_rfc3339(s) {
        Some((seconds, nanos)) => Some(Timestamp { seconds, nanos }),
        None => None,
    }
}

/// The point in time that RFC 3339 text writes, white space around it aside.
pub fn parse_ts(s: &str) -> (r: Option<Timestamp>)
    ensures
        r == instant_of(trimmed(s@)),
{
    read_rfc3339(trim(s))
}

/// Unix seconds of a point in time; `now` where there is none.
pub open spec fn instant_or(now: int, t: Option<Timestamp>) -> int {
    match t {
        Some(t) => t.seconds as int,
        None => now,
    }
}

/// Unix seconds of RFC 3339 text; `now` where there is no such text.
pub open spec fn seconds_or(now: int, rfc3339: Option<Seq<char>>) -> int {
    match rfc3339 {
        Some(s) => instant_or(now, instant_of(s)),
        None => now,
    }
}

/// A time that can be read is told in its own seconds; any other text, and none, stands for now.
pub proof fn readable_times_are_told(now: int, text: Seq<char>)
    ensures
        rfc3339_instant(text) matches Some((seconds, _)) ==> seconds_or(now, Some(text)) == seconds,
        rfc3339_instant(text) is None ==> seconds_or(now, Some(text)) == now,
        seconds_or(now, None) == now,
{
}

/// Unix seconds of a point in time; `now` where there is none.
pub fn timestamp_or(now: i64, t: Option<Timestamp>) -> (r: i64)
    ensures
        r == instant_or(now as int, t),
{
    match t {
        Some(t) => t.seconds,
        None => now,
    }
}

/// Unix seconds of RFC 3339 text; `now` where there is no such text.
pub fn ts_or(now: i64, rfc3339: Option<&str>) -> (r: i64)
    ensures
        r == seconds_or(
            now as int,
            match rfc3339 {
                Some(s) => Some(s@),
                None => None,
            },
        ),
{
    match rfc3339 {
        Some(s) => timestamp_or(now, read_rfc3339(s)),
        None => now,
    }
}

/// Nanoseconds from one point in time to the next, zero where one is missing, where they run
/// backwards or where the count is too large.
pub open spec fn elapsed_of(later: Option<Timestamp>, earlier: Option<Timestamp>) -> u64 {
    match (later, earlier) {
        (Some(to), Some(from)) => match nanoseconds_of(to, from) {
            Some(n) => if n > 0 {
                n as u64
            } else {
                0
            },
            None => 0,
        },
        _ => 0,
    }
}

/// Nanoseconds from one point in time to the next.
pub fn elapsed(later: Option<Timestamp>, earlier: Option<Timestamp>) -> (r: u64)
    ensures
        r == elapsed_of(later, earlier),
        later matches Some(to) && earlier matches Some(from) && is_ordinary(to) && is_ordinary(from) ==> r
            == if 0 < exact_nanoseconds(later->0, earlier->0) <= i64::MAX {
            exact_nanoseconds(later->0, earlier->0)
        } else {
            0
        },
{
    match (later, earlier) {
        (Some(to), Some(from)) => match nanoseconds_between(to, from) {
            Some(n) => if n > 0 {
                n as u64
            } else {
                0
            },
            None => 0,
        },
        _ => 0,
    }
}

} // verus!
