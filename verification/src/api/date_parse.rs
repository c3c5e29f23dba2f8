//! Date expressions of the API's query parameters, relative or absolute.
//!
//! Accepted forms, tried in this order:
//! 1. Relative: `now`, `now-1h`, `now+30m`, `now-7d`; units `s` seconds,
//!    `m` minutes, `h` hours, `d` days, `w` weeks, `M` months (30 days),
//!    `y` years (365 days). `now` is case-insensitive, the unit is not.
//! 2. RFC 3339: `2026-04-23T15:30:00Z`, `2026-04-23T15:30:00+05:30`.
//! 3. ISO datetime-local without seconds: `2026-04-23T15:30`.
//! 4. ISO datetime-local with seconds: `2026-04-23T15:30:00`.
//! 5. Date only: `2026-04-23`, the start of the day in UTC, or its last
//!    second when the end of the day is asked for.
use crate::api::error::{ApiError, ApiErrorV};
use crate::text::{
    all_digits, chars_eq_str, chars_of, digits_value, is_ascii_digit, lower, lower_chars,
    push_str, skip_white, starts_with, starts_with_chars, string_of, trim, trim_bounds,
    trim_start,
};
use crate::time::{
    day_start, max_utc_secs, min_utc_secs, naive_instant, parse_naive, parse_rfc3339, parse_ymd,
    rfc3339_instant, start_of_day, utc_now, ymd_day_number, UtcTime,
};
use vstd::prelude::*;

verus! {

/// What `format!("{:?}", s)` writes for a string slice: `s` quoted, with
/// std's escapes.
pub uninterp spec fn str_debug(s: Seq<char>) -> Seq<char>;

/// What `format!("{:?}", c)` writes for a `char`: `c` in single quotes, with
/// std's escapes.
pub uninterp spec fn char_debug(c: char) -> Seq<char>;

/// The `Debug` rendering of a string slice (`<str as Debug>::fmt`).
/// Trusted: the text is named, not stated; it depends on `s` alone.
#[verifier::external_body]
fn debug_str(s: &str) -> (r: String)
    ensures
        r@ == str_debug(s@),
{
    format!("{:?}", s)
}

/// The `Debug` rendering of a `char` (`<char as Debug>::fmt`).
/// Trusted: the text is named, not stated; it depends on `c` alone.
#[verifier::external_body]
fn debug_char(c: char) -> (r: String)
    ensures
        r@ == char_debug(c),
{
    format!("{:?}", c)
}

/// The reading of a text as a relative date.
pub enum Relative {
    /// Not a relative expression: it does not start with `now`.
    NotRelative,
    /// `now` plus this many seconds (negative for the past).
    Offset(int),
    /// Starts with `now` but is malformed; the message of the bad request.
    Bad(Seq<char>),
}

/// Seconds per unit character.
pub open spec fn unit_seconds(u: char) -> Option<int> {
    if u == 's' {
        Some(1)
    } else if u == 'm' {
        Some(60)
    } else if u == 'h' {
        Some(3600)
    } else if u == 'd' {
        Some(86400)
    } else if u == 'w' {
        Some(604800)
    } else if u == 'M' {
        Some(2592000)
    } else if u == 'y' {
        Some(31536000)
    } else {
        None
    }
}

/// Number of leading ASCII digits.
pub open spec fn digit_run(s: Seq<char>) -> nat
    decreases s.len(),
{
    if s.len() > 0 && is_ascii_digit(s[0]) {
        1 + digit_run(s.drop_first())
    } else {
        0
    }
}

pub open spec fn bad_relative(t: Seq<char>, tail: Seq<char>) -> Relative {
    Relative::Bad("Invalid relative date "@ + str_debug(t) + tail)
}

/// `t` (already trimmed) read as `now`, `now+<n><unit>` or `now-<n><unit>`.
pub open spec fn relative(t: Seq<char>) -> Relative {
    let lt = lower(t);
    if lt == "now"@ {
        Relative::Offset(0)
    } else if !starts_with(lt, "now"@) {
        Relative::NotRelative
    } else {
        let rest = trim_start(t.skip(3));
        if rest.len() == 0 || (rest[0] != '+' && rest[0] != '-') {
            bad_relative(t, ": expected `now`, `now+<n><unit>`, or `now-<n><unit>`"@)
        } else {
            let a = trim_start(rest.skip(1));
            let de = digit_run(a);
            if de == 0 {
                bad_relative(t, ": missing numeric amount"@)
            } else if digits_value(a.take(de as int)) > i64::MAX {
                Relative::Bad("Invalid amount in "@ + str_debug(t))
            } else {
                let u = trim_start(a.skip(de as int));
                if u.len() == 0 {
                    bad_relative(t, ": missing unit (s/m/h/d/w/M/y)"@)
                } else if u.len() > 1 {
                    bad_relative(
                        t,
                        ": unknown unit "@ + str_debug(u) + " — use one of s/m/h/d/w/M/y"@,
                    )
                } else {
                    match unit_seconds(u[0]) {
                        None => bad_relative(
                            t,
                            ": unknown unit "@ + char_debug(u[0]) + " — use one of s/m/h/d/w/M/y"@,
                        ),
                        Some(k) => {
                            let n = digits_value(a.take(de as int)) as int;
                            Relative::Offset(if rest[0] == '+' {
                                n * k
                            } else {
                                -(n * k)
                            })
                        },
                    }
                }
            }
        }
    }
}

/// Largest offset, in seconds, that `chrono::TimeDelta::seconds` takes.
pub open spec fn max_delta_secs() -> int {
    9223372036854775
}

/// Shifting `now` by the relative offset of `value`, if it has one, stays
/// within the durations and instants chrono represents (beyond them the
/// shift panics).
pub open spec fn shift_fits(value: Seq<char>, now: UtcTime) -> bool {
    match relative(trim(value)) {
        Relative::Offset(o) => -max_delta_secs() <= o <= max_delta_secs() && min_utc_secs() <= now.secs
            + o <= max_utc_secs(),
        _ => true,
    }
}

/// The message for a value that matches no form.
pub open spec fn invalid_message(field: Seq<char>, value: Seq<char>) -> Seq<char> {
    "Invalid "@ + field
        + " (expected now/now±<n><unit>, RFC3339, ISO datetime, or YYYY-MM-DD): "@
        + str_debug(value)
}

/// The instant that `value` denotes at `now`, or the bad request it is.
pub open spec fn flexible_datetime(field: Seq<char>, value: Seq<char>, end_of_day: bool, now: UtcTime) -> Result<
    UtcTime,
    ApiErrorV,
> {
    let t = trim(value);
    match relative(t) {
        Relative::Offset(o) => Ok(UtcTime { secs: (now.secs + o) as i64, nanos: now.nanos }),
        Relative::Bad(m) => Err(ApiErrorV::BadRequest(m)),
        Relative::NotRelative => match rfc3339_instant(t) {
            Some((s, n)) => Ok(UtcTime { secs: s, nanos: n }),
            None => match naive_instant(t, "%Y-%m-%dT%H:%M"@) {
                Some((s, n)) => Ok(UtcTime { secs: s, nanos: n }),
                None => match naive_instant(t, "%Y-%m-%dT%H:%M:%S"@) {
                    Some((s, n)) => Ok(UtcTime { secs: s, nanos: n }),
                    None => match ymd_day_number(t) {
                        Some(d) => Ok(
                            UtcTime {
                                secs: (day_start(d as int) + if end_of_day {
                                    86399int
                                } else {
                                    0
                                }) as i64,
                                nanos: 0,
                            },
                        ),
                        None => Err(ApiErrorV::BadRequest(invalid_message(field, value))),
                    },
                },
            },
        },
    }
}

pub open spec fn result_view(r: Result<UtcTime, ApiError>) -> Result<UtcTime, ApiErrorV> {
    match r {
        Ok(t) => Ok(t),
        Err(e) => Err(e@),
    }
}

proof fn lemma_digit_run_bound(s: Seq<char>)
    ensures
        digit_run(s) <= s.len(),
        forall|j: int| 0 <= j < digit_run(s) ==> is_ascii_digit(#[trigger] s[j]),
        digit_run(s) < s.len() ==> !is_ascii_digit(s[digit_run(s) as int]),
    decreases s.len(),
{
    if s.len() > 0 && is_ascii_digit(s[0]) {
        lemma_digit_run_bound(s.drop_first());
        assert forall|j: int| 0 <= j < digit_run(s) implies is_ascii_digit(#[trigger] s[j]) by {
            if j > 0 {
                assert(s[j] == s.drop_first()[j - 1]);
            }
        }
        if digit_run(s) < s.len() {
            assert(s[digit_run(s) as int] == s.drop_first()[digit_run(s.drop_first()) as int]);
        }
    }
}

proof fn lemma_digit_run_exact(s: Seq<char>, k: int)
    requires
        0 <= k <= s.len(),
        forall|j: int| 0 <= j < k ==> is_ascii_digit(#[trigger] s[j]),
        k < s.len() ==> !is_ascii_digit(s[k]),
    ensures
        digit_run(s) == k,
    decreases k,
{
    if k > 0 {
        assert forall|j: int| 0 <= j < k - 1 implies is_ascii_digit(#[trigger] s.drop_first()[j]) by {
            assert(s.drop_first()[j] == s[j + 1]);
        }
        if k < s.len() {
            assert(s.drop_first()[k - 1] == s[k]);
        }
        lemma_digit_run_exact(s.drop_first(), k - 1);
    }
}

/// A bad request whose message is `head`, the quoted text `t`, then `tail`.
fn bad_with(head: &str, t: &str, tail: &str) -> (e: ApiError)
    ensures
        e@ == ApiErrorV::BadRequest(head@ + str_debug(t@) + tail@),
{
    let mut m = String::new();
    push_str(&mut m, head);
    let d = debug_str(t);
    push_str(&mut m, d.as_str());
    push_str(&mut m, tail);
    assert(m@ =~= head@ + str_debug(t@) + tail@);
    ApiError::BadRequest(m)
}

/// A bad request whose message is `head` followed by the quoted text `t`.
fn bad_quoted(head: &str, t: &str) -> (e: ApiError)
    ensures
        e@ == ApiErrorV::BadRequest(head@ + str_debug(t@)),
{
    let mut m = String::new();
    push_str(&mut m, head);
    let d = debug_str(t);
    push_str(&mut m, d.as_str());
    ApiError::BadRequest(m)
}

/// Seconds per unit of a relative date: `s`, `m`, `h`, `d`, `w`, `M` (30
/// days) and `y` (365 days).
fn unit_to_duration(unit: char) -> (r: Option<u64>)
    ensures
        match unit_seconds(unit) {
            Some(p) => r == Some(p as u64),
            None => r is None,
        },
{
    match unit {
        's' => Some(1),
        'm' => Some(60),
        'h' => Some(3600),
        'd' => Some(86400),
        'w' => Some(604800),
        'M' => Some(2592000),
        'y' => Some(31536000),
        _ => None,
    }
}

/// Reads `t` (already trimmed) as a relative date: `Ok(None)` when it does
/// not start with `now`, `Ok(Some(offset))` in seconds, or the bad request.
pub fn try_parse_relative(t: &str) -> (r: Result<Option<i128>, ApiError>)
    ensures
        match relative(t@) {
            Relative::NotRelative => r matches Ok(None),
            Relative::Offset(o) => r matches Ok(Some(x)) && x == o,
            Relative::Bad(m) => r matches Err(e) && e@ == ApiErrorV::BadRequest(m),
        },
        r matches Ok(Some(x)) ==> -290868260554252209849552000 <= x <= 290868260554252209849552000,
{
    let v = chars_of(t);
    let lv = lower_chars(&v);
    if chars_eq_str(&lv, "now") {
        return Ok(Some(0));
    }
    let now_lit = chars_of("now");
    if !starts_with_chars(&lv, &now_lit) {
        return Ok(None);
    }
    proof {
        reveal_strlit("now");
        assert(lower(v@).len() == v@.len());
    }
    let rs = skip_white(&v, 3);
    let ghost rest = v@.subrange(rs as int, v.len() as int);
    assert(rest == trim_start(v@.skip(3))) by {
        assert(v@.subrange(3, v.len() as int) == v@.skip(3));
    }
    if rs == v.len() || (v[rs] != '+' && v[rs] != '-') {
        return Err(bad_with("Invalid relative date ", t, ": expected `now`, `now+<n><unit>`, or `now-<n><unit>`"));
    }
    let negative = v[rs] == '-';
    let a0 = skip_white(&v, rs + 1);
    let ghost a = v@.subrange(a0 as int, v.len() as int);
    assert(a == trim_start(rest.skip(1))) by {
        assert(v@.subrange(rs + 1, v.len() as int) == rest.skip(1));
    }
    let mut de = a0;
    while de < v.len() && v[de] >= '0' && v[de] <= '9'
        invariant
            a0 <= de <= v.len(),
            a == v@.subrange(a0 as int, v.len() as int),
            forall|j: int| a0 <= j < de ==> is_ascii_digit(#[trigger] v@[j]),
        decreases v.len() - de,
    {
        de += 1;
    }
    proof {
        assert forall|j: int| 0 <= j < de - a0 implies is_ascii_digit(#[trigger] a[j]) by {
            assert(a[j] == v@[a0 + j]);
        }
        if de < v.len() {
            assert(a[de - a0] == v@[de as int]);
        }
        lemma_digit_run_exact(a, de - a0);
    }
    if de == a0 {
        return Err(bad_with("Invalid relative date ", t, ": missing numeric amount"));
    }
    assert(a.take(de - a0) == v@.subrange(a0 as int, de as int));
    let n = match crate::text::parse_u64_chars(&v, a0, de) {
        Some(n) => n,
        None => {
            proof {
                assert(all_digits(v@.subrange(a0 as int, de as int))) by {
                    assert forall|j: int| 0 <= j < de - a0 implies is_ascii_digit(
                        #[trigger] v@.subrange(a0 as int, de as int)[j],
                    ) by {
                        assert(v@.subrange(a0 as int, de as int)[j] == v@[a0 + j]);
                    }
                }
                let ds = v@.subrange(a0 as int, de as int);
                assert(ds.len() > 0);
                assert(ds[0] != '+');
            }
            return Err(bad_quoted("Invalid amount in ", t));
        },
    };
    proof {
        let ds = v@.subrange(a0 as int, de as int);
        assert forall|j: int| 0 <= j < ds.len() implies is_ascii_digit(#[trigger] ds[j]) by {
            assert(ds[j] == v@[a0 + j]);
        }
        assert(ds[0] != '+');
    }
    if n > 9223372036854775807u64 {
        return Err(bad_quoted("Invalid amount in ", t));
    }
    let us = skip_white(&v, de);
    let ghost u = v@.subrange(us as int, v.len() as int);
    assert(u == trim_start(a.skip(de - a0))) by {
        assert(v@.subrange(de as int, v.len() as int) == a.skip(de - a0));
    }
    if us == v.len() {
        return Err(bad_with("Invalid relative date ", t, ": missing unit (s/m/h/d/w/M/y)"));
    }
    if v.len() - us > 1 {
        let us_text = string_of(&v, us, v.len());
        let mut m = String::new();
        push_str(&mut m, "Invalid relative date ");
        let d = debug_str(t);
        push_str(&mut m, d.as_str());
        push_str(&mut m, ": unknown unit ");
        let du = debug_str(us_text.as_str());
        push_str(&mut m, du.as_str());
        push_str(&mut m, " — use one of s/m/h/d/w/M/y");
        assert(m@ =~= "Invalid relative date "@ + str_debug(t@) + (": unknown unit "@ + str_debug(u)
            + " — use one of s/m/h/d/w/M/y"@));
        return Err(ApiError::BadRequest(m));
    }
    let unit = v[us];
    assert(u[0] == unit);
    let per: u64 = match unit_to_duration(unit) {
        Some(p) => p,
        None => {
            let mut m = String::new();
            push_str(&mut m, "Invalid relative date ");
            let d = debug_str(t);
            push_str(&mut m, d.as_str());
            push_str(&mut m, ": unknown unit ");
            let du = debug_char(unit);
            push_str(&mut m, du.as_str());
            push_str(&mut m, " — use one of s/m/h/d/w/M/y");
            assert(m@ =~= "Invalid relative date "@ + str_debug(t@) + (": unknown unit "@ + char_debug(unit)
                + " — use one of s/m/h/d/w/M/y"@));
            return Err(ApiError::BadRequest(m));
        },
    };
    proof {
        assert((n as int) * (per as int) <= 9223372036854775807 * 31536000) by (nonlinear_arith)
            requires
                n <= 9223372036854775807,
                per <= 31536000,
        ;
        assert((n as int) * (per as int) >= 0) by (nonlinear_arith);
    }
    let secs = (n as i128) * (per as i128);
    if negative {
        Ok(Some(-secs))
    } else {
        Ok(Some(secs))
    }
}

/// The instant that `value` denotes when the clock reads `now`: a relative
/// expression counts from `now`; a date alone gives the start of that day in
/// UTC, or its last second when `end_of_day` is set; anything else is a bad
/// request naming `field`.
pub fn parse_flexible_datetime(field: &str, value: &str, end_of_day: bool, now: UtcTime) -> (r:
    Result<UtcTime, ApiError>)
    requires
        0 <= now.secs <= max_utc_secs(),
        shift_fits(value@, now),
    ensures
        result_view(r) == flexible_datetime(field@, value@, end_of_day, now),
{
    let v = chars_of(value);
    let (lo, hi) = trim_bounds(&v);
    let trimmed = string_of(&v, lo, hi);
    assert(trimmed@ == trim(value@));
    match try_parse_relative(trimmed.as_str()) {
        Err(e) => return Err(e),
        Ok(Some(o)) => {
            return Ok(UtcTime { secs: (now.secs as i128 + o) as i64, nanos: now.nanos });
        },
        Ok(None) => {},
    }
    match parse_rfc3339(trimmed.as_str()) {
        Some((s, n)) => return Ok(UtcTime { secs: s, nanos: n }),
        None => {},
    }
    match parse_naive(trimmed.as_str(), "%Y-%m-%dT%H:%M") {
        Some((s, n)) => return Ok(UtcTime { secs: s, nanos: n }),
        None => {},
    }
    match parse_naive(trimmed.as_str(), "%Y-%m-%dT%H:%M:%S") {
        Some((s, n)) => return Ok(UtcTime { secs: s, nanos: n }),
        None => {},
    }
    match parse_ymd(trimmed.as_str()) {
        Some(d) => {
            let t = start_of_day(d);
            if end_of_day {
                return Ok(UtcTime { secs: t.secs + 86399, nanos: 0 });
            } else {
                return Ok(t);
            }
        },
        None => {},
    }
    let mut m = String::new();
    push_str(&mut m, "Invalid ");
    push_str(&mut m, field);
    push_str(&mut m, " (expected now/now±<n><unit>, RFC3339, ISO datetime, or YYYY-MM-DD): ");
    let d = debug_str(value);
    push_str(&mut m, d.as_str());
    assert(m@ =~= invalid_message(field@, value@));
    Err(ApiError::BadRequest(m))
}

/// [`parse_flexible_datetime`] at the current time. `None` when the clock
/// cannot be read (see [`utc_now`]), or when `value` asks for an offset from
/// now so large that the shifted instant is out of range (where the
/// controller's date arithmetic would panic).
pub fn parse_flexible_datetime_now(field: &str, value: &str, end_of_day: bool) -> (r: Option<
    Result<UtcTime, ApiError>,
>)
    ensures
        r matches Some(res) ==> exists|now: UtcTime|
            0 <= now.secs <= max_utc_secs() && shift_fits(value@, now) && result_view(res)
                == flexible_datetime(field@, value@, end_of_day, now),
{
    let now = match utc_now() {
        Some(t) => t,
        None => return None,
    };
    if !shift_in_range(value, now) {
        return None;
    }
    Some(parse_flexible_datetime(field, value, end_of_day, now))
}

/// Whether [`shift_fits`] holds.
pub fn shift_in_range(value: &str, now: UtcTime) -> (b: bool)
    requires
        0 <= now.secs <= max_utc_secs(),
    ensures
        b == shift_fits(value@, now),
{
    let v = chars_of(value);
    let (lo, hi) = trim_bounds(&v);
    let trimmed = string_of(&v, lo, hi);
    match try_parse_relative(trimmed.as_str()) {
        Ok(Some(o)) => {
            let s = now.secs as i128 + o;
            -9223372036854775i128 <= o && o <= 9223372036854775i128 && -8334601228800i128 <= s && s
                <= 8210266876799i128
        },
        _ => true,
    }
}

} // verus!
