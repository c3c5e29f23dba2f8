//! Build analytics: the time window asked for, its bucket size, and the
//! optional ChQL filter.
use crate::api::error::{chql_message, ApiError, ApiErrorV};
use crate::query::compile::{compile, compile_error_text, spec_compile, FragV, SqlFragment};
use crate::query::parser::{parse, spec_parse};
use crate::text::{chars_eq_str, chars_of, lower, lower_chars, trim, trim_bounds};
use crate::time::{max_utc_secs, min_utc_secs, UtcTime};
use vstd::prelude::*;

verus! {

/// Bucket size of a time series.
#[derive(PartialEq, Eq, Structural, Debug, Clone, Copy)]
pub enum Granularity {
    Hour,
    Day,
}

/// The time window of an analytics request.
pub enum AnalyticsWindow {
    Range { from: UtcTime, to: UtcTime },
    /// The last `n` days up to now.
    LastDays(i32),
}

/// Instants as nanoseconds since the epoch.
pub open spec fn nanos_of(t: UtcTime) -> int {
    t.secs * 1_000_000_000 + t.nanos
}

/// Auto bucket: hourly when `to - from` is at most 7 days (negative spans
/// included), daily otherwise.
pub open spec fn auto_spec(from: UtcTime, to: UtcTime) -> Granularity {
    if nanos_of(to) - nanos_of(from) <= 7 * 86400 * 1_000_000_000 {
        Granularity::Hour
    } else {
        Granularity::Day
    }
}

/// `hour` and `day` (in any ASCII case) force the bucket; anything else,
/// or nothing, picks automatically.
pub open spec fn granularity_spec(mode: Option<Seq<char>>, from: UtcTime, to: UtcTime) -> Granularity {
    match mode {
        Some(m) => if lower(m) == "hour"@ {
            Granularity::Hour
        } else if lower(m) == "day"@ {
            Granularity::Day
        } else {
            auto_spec(from, to)
        },
        None => auto_spec(from, to),
    }
}

pub fn auto_granularity(from: UtcTime, to: UtcTime) -> (g: Granularity)
    requires
        from.nanos < 1_000_000_000,
        to.nanos < 1_000_000_000,
    ensures
        g == auto_spec(from, to),
{
    let span_secs = to.secs as i128 - from.secs as i128;
    let span = span_secs * 1_000_000_000 + (to.nanos as i128 - from.nanos as i128);
    if span <= 604_800_000_000_000 {
        Granularity::Hour
    } else {
        Granularity::Day
    }
}

pub fn resolve_granularity(mode: Option<&str>, from: UtcTime, to: UtcTime) -> (g: Granularity)
    requires
        from.nanos < 1_000_000_000,
        to.nanos < 1_000_000_000,
    ensures
        g == granularity_spec(
            match mode {
                Some(m) => Some(m@),
                None => None,
            },
            from,
            to,
        ),
{
    match mode {
        Some(m) => {
            let l = lower_chars(&chars_of(m));
            if chars_eq_str(&l, "hour") {
                Granularity::Hour
            } else if chars_eq_str(&l, "day") {
                Granularity::Day
            } else {
                auto_granularity(from, to)
            }
        },
        None => auto_granularity(from, to),
    }
}

/// The concrete `(from, to)` of a window; the last `n` days end at `now`.
pub fn window_bounds(window: &AnalyticsWindow, now: UtcTime) -> (r: (UtcTime, UtcTime))
    requires
        window matches AnalyticsWindow::LastDays(d) ==> min_utc_secs() <= now.secs - d * 86400
            <= max_utc_secs(),
    ensures
        r == match *window {
            AnalyticsWindow::Range { from, to } => (from, to),
            AnalyticsWindow::LastDays(d) => (
                UtcTime { secs: (now.secs - d * 86400) as i64, nanos: now.nanos },
                now,
            ),
        },
{
    match window {
        AnalyticsWindow::Range { from, to } => (*from, *to),
        AnalyticsWindow::LastDays(d) => {
            let secs = now.secs as i128 - (*d as i128) * 86400;
            (UtcTime { secs: secs as i64, nanos: now.nanos }, now)
        },
    }
}

/// The number of days of a window without `from`: 30 by default, kept within 1..=365.
pub fn clamp_days(days: Option<i32>) -> (d: i32)
    ensures
        d == match days {
            Some(x) => if x < 1 {
                1
            } else if x > 365 {
                365
            } else {
                x
            },
            None => 30,
        },
{
    match days {
        Some(x) => if x < 1 {
            1
        } else if x > 365 {
            365
        } else {
            x
        },
        None => 30,
    }
}

/// What a `?q=` parameter yields: nothing when absent or blank, else the
/// parsed and compiled filter, or the bad request it is.
pub open spec fn chql_param_spec(q: Option<Seq<char>>) -> Result<Option<FragV>, ApiErrorV> {
    match q {
        None => Ok(None),
        Some(raw) => if trim(raw).len() == 0 {
            Ok(None)
        } else {
            match spec_parse(raw) {
                Err(e) => Err(ApiErrorV::BadRequest(chql_message(e))),
                Ok(None) => Ok(None),
                Ok(Some(a)) => match spec_compile(a) {
                    Ok(f) => Ok(Some(f)),
                    Err(e) => Err(ApiErrorV::BadRequest(compile_error_text(e))),
                },
            }
        },
    }
}

/// Parse and compile an optional `?q=` ChQL expression; empty or blank input
/// yields `None`.
pub fn compile_chql_param(q: Option<&str>) -> (r: Result<Option<SqlFragment>, ApiError>)
    requires
        q matches Some(s) ==> s@.len() <= usize::MAX / 8,
    ensures
        match r {
            Ok(Some(f)) => chql_param_spec(
                match q {
                    Some(s) => Some(s@),
                    None => None,
                },
            ) == Ok::<Option<FragV>, ApiErrorV>(Some(f@)),
            Ok(None) => chql_param_spec(
                match q {
                    Some(s) => Some(s@),
                    None => None,
                },
            ) == Ok::<Option<FragV>, ApiErrorV>(None),
            Err(e) => chql_param_spec(
                match q {
                    Some(s) => Some(s@),
                    None => None,
                },
            ) == Err::<Option<FragV>, ApiErrorV>(e@),
        },
{
    let raw = match q {
        None => return Ok(None),
        Some(raw) => raw,
    };
    let v = chars_of(raw);
    let (lo, hi) = trim_bounds(&v);
    if lo == hi {
        return Ok(None);
    }
    let ast = match parse(raw) {
        Err(e) => return Err(ApiError::from_chql(e)),
        Ok(None) => return Ok(None),
        Ok(Some(a)) => a,
    };
    match compile(&ast) {
        Ok(f) => Ok(Some(f)),
        Err(e) => Err(ApiError::BadRequest(e.to_text())),
    }
}

} // verus!
