//! UTC instants as plain values, and the calls into `chrono` that read them
//! from text or from the system clock.
use chrono::TimeZone;
use vstd::prelude::*;

verus! {

/// An instant in UTC: whole seconds since the Unix epoch and the nanoseconds
/// past that second.
#[derive(Debug, Clone, Copy, PartialEq, Eq, Structural)]
pub struct UtcTime {
    pub secs: i64,
    pub nanos: u32,
}

/// Seconds of the earliest instant `chrono` represents (-262143-01-01T00:00:00Z).
pub open spec fn min_utc_secs() -> int {
    -8334601228800
}

/// Seconds of the latest instant `chrono` represents (262142-12-31T23:59:59Z).
pub open spec fn max_utc_secs() -> int {
    8210266876799
}

/// Day number of 1970-01-01 counted from 0001-01-01 as day 1.
pub open spec fn unix_epoch_day() -> int {
    719163
}

/// Midnight (UTC) of the day with the given day number.
pub open spec fn day_start(days_from_ce: int) -> int {
    (days_from_ce - unix_epoch_day()) * 86400
}

/// The instant that `chrono::DateTime::parse_from_rfc3339` reads from `s`, as
/// (seconds, nanoseconds) in UTC.
pub uninterp spec fn rfc3339_instant(s: Seq<char>) -> Option<(i64, u32)>;

/// The day number (`num_days_from_ce`) of the date that
/// `chrono::NaiveDate::parse_from_str(s, "%Y-%m-%d")` reads from `s`.
pub uninterp spec fn ymd_day_number(s: Seq<char>) -> Option<i32>;

/// The instant that `chrono::NaiveDateTime::parse_from_str(s, fmt)` reads from
/// `s`, taken as UTC, as (seconds, nanoseconds).
pub uninterp spec fn naive_instant(s: Seq<char>, fmt: Seq<char>) -> Option<(i64, u32)>;

/// `chrono::DateTime::parse_from_rfc3339`, converted to the UTC instant.
/// Trusted: the result is whatever chrono reads from `s` (named, not stated).
#[verifier::external_body]
pub(crate) fn parse_rfc3339(s: &str) -> (r: Option<(i64, u32)>)
    ensures
        r == rfc3339_instant(s@),
{
    match chrono::DateTime::parse_from_rfc3339(s) {
        Ok(dt) => Some((dt.timestamp(), dt.timestamp_subsec_nanos())),
        Err(_) => None,
    }
}

/// `chrono::NaiveDate::parse_from_str(s, "%Y-%m-%d")`, converted to its day
/// number. Trusted: the result is whatever chrono reads from `s`; chrono's
/// dates lie between years -262143 and 262142, so the day number lies in
/// [-95746129, 95745399].
#[verifier::external_body]
pub(crate) fn parse_ymd(s: &str) -> (r: Option<i32>)
    ensures
        r == ymd_day_number(s@),
        r matches Some(d) ==> -95746129 <= d <= 95745399,
{
    match chrono::NaiveDate::parse_from_str(s, "%Y-%m-%d") {
        Ok(d) => Some(chrono::Datelike::num_days_from_ce(&d)),
        Err(_) => None,
    }
}

/// `chrono::NaiveDateTime::parse_from_str(s, fmt)` read as UTC
/// (`Utc.from_utc_datetime`). Trusted: the result is whatever chrono reads.
#[verifier::external_body]
pub(crate) fn parse_naive(s: &str, fmt: &str) -> (r: Option<(i64, u32)>)
    ensures
        r == naive_instant(s@, fmt@),
{
    match chrono::NaiveDateTime::parse_from_str(s, fmt) {
        Ok(naive) => {
            let dt = chrono::Utc.from_utc_datetime(&naive);
            Some((dt.timestamp(), dt.timestamp_subsec_nanos()))
        },
        Err(_) => None,
    }
}

#[verifier::external_type_specification]
#[verifier::external_body]
pub struct ExSystemTime(std::time::SystemTime);

/// `std::time::SystemTime::now()`. Trusted, with nothing stated: the value is
/// whatever the system clock reads.
#[verifier::external_body]
fn system_clock() -> (t: std::time::SystemTime) {
    std::time::SystemTime::now()
}

/// `t.duration_since(UNIX_EPOCH)`, as whole seconds and the nanoseconds past
/// them. Trusted: `None` when `t` is before the epoch; the nanoseconds of a
/// `Duration` are below one second, as its documentation states. What else
/// comes back depends on the clock reading and is not stated.
#[verifier::external_body]
fn since_unix_epoch(t: &std::time::SystemTime) -> (r: Option<(u64, u32)>)
    ensures
        r matches Some(p) ==> p.1 < 1_000_000_000,
{
    match t.duration_since(std::time::UNIX_EPOCH) {
        Ok(d) => Some((d.as_secs(), d.subsec_nanos())),
        Err(_) => None,
    }
}

/// `chrono::DateTime::from_timestamp(secs, nanos)`, read back as a
/// [`UtcTime`]. Trusted: chrono accepts exactly the seconds of its date range
/// (the days `NaiveDate::from_num_days_from_ce_opt` takes), and for nanoseconds
/// below one second keeps both values as they are.
#[verifier::external_body]
fn utc_from_timestamp(secs: i64, nanos: u32) -> (r: Option<UtcTime>)
    requires
        nanos < 1_000_000_000,
    ensures
        r == if min_utc_secs() <= secs <= max_utc_secs() {
            Some(UtcTime { secs, nanos })
        } else {
            None
        },
{
    match chrono::DateTime::from_timestamp(secs, nanos) {
        Some(dt) => Some(UtcTime { secs: dt.timestamp(), nanos: dt.timestamp_subsec_nanos() }),
        None => None,
    }
}

/// The current instant, read as `chrono::Utc::now()` reads it: the system
/// clock's offset from the Unix epoch, made a chrono instant. `None` where
/// that call would panic: a clock before 1970, or one beyond chrono's range.
pub fn utc_now() -> (r: Option<UtcTime>)
    ensures
        r matches Some(t) ==> 0 <= t.secs <= max_utc_secs() && t.nanos < 1_000_000_000,
{
    let t = system_clock();
    match since_unix_epoch(&t) {
        None => None,
        Some((s, n)) => {
            if s > 9223372036854775807 {
                None
            } else {
                utc_from_timestamp(s as i64, n)
            }
        },
    }
}

/// Midnight UTC of the day with number `days_from_ce`.
pub fn start_of_day(days_from_ce: i32) -> (t: UtcTime)
    requires
        -95746129 <= days_from_ce <= 95745399,
    ensures
        t.secs == day_start(days_from_ce as int),
        t.nanos == 0,
{
    let d = days_from_ce as i64 - 719163;
    UtcTime { secs: d * 86400, nanos: 0 }
}

/// Whole seconds from `from` to `to`, truncated toward zero.
pub open spec fn elapsed_secs(from: UtcTime, to: UtcTime) -> int {
    let ns = (to.secs - from.secs) * 1_000_000_000 + (to.nanos - from.nanos);
    if ns >= 0 {
        ns / 1_000_000_000
    } else {
        -((-ns) / 1_000_000_000)
    }
}

/// Whole seconds from `from` to `to`, truncated toward zero.
pub fn elapsed_seconds(from: UtcTime, to: UtcTime) -> (s: i128)
    ensures
        s == elapsed_secs(from, to),
{
    let d: i128 = to.secs as i128 - from.secs as i128;
    let n: i128 = to.nanos as i128 - from.nanos as i128;
    assert(-0x4000_0000_0000_0000_0000_0000 < d * 1_000_000_000 < 0x4000_0000_0000_0000_0000_0000) by (nonlinear_arith)
        requires
            -0x1_0000_0000_0000_0000 < d < 0x1_0000_0000_0000_0000,
    ;
    let ns: i128 = d * 1_000_000_000 + n;
    if ns >= 0 {
        ns / 1_000_000_000
    } else {
        -((-ns) / 1_000_000_000)
    }
}


/// Nanoseconds from `from` to `to`.
pub open spec fn elapsed_nanos(from: UtcTime, to: UtcTime) -> int {
    (to.secs - from.secs) * 1_000_000_000 + (to.nanos - from.nanos)
}

/// Nanoseconds from `from` to `to`.
pub fn elapsed_nanoseconds(from: UtcTime, to: UtcTime) -> (n: i128)
    ensures
        n == elapsed_nanos(from, to),
{
    let d: i128 = to.secs as i128 - from.secs as i128;
    let n: i128 = to.nanos as i128 - from.nanos as i128;
    assert(-0x4000_0000_0000_0000_0000_0000 < d * 1_000_000_000 < 0x4000_0000_0000_0000_0000_0000) by (nonlinear_arith)
        requires
            -0x1_0000_0000_0000_0000 < d < 0x1_0000_0000_0000_0000,
    ;
    d * 1_000_000_000 + n
}

} // verus!
