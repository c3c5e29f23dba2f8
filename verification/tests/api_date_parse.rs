use chola_controller::api::date_parse::{
    parse_flexible_datetime, parse_flexible_datetime_now, shift_in_range, try_parse_relative,
};
use chola_controller::api::error::ApiError;
use chola_controller::time::UtcTime;
use chrono::TimeZone;

fn now_secs() -> i64 {
    chrono::Utc::now().timestamp()
}

fn parse_now(field: &str, value: &str, end_of_day: bool) -> Result<UtcTime, ApiError> {
    parse_flexible_datetime_now(field, value, end_of_day).expect("offset in range")
}

fn rfc3339(t: UtcTime) -> String {
    chrono::Utc.timestamp_opt(t.secs, t.nanos).unwrap().to_rfc3339()
}

fn fixed_now() -> UtcTime {
    UtcTime { secs: 1_776_945_600, nanos: 250 }
}

// ── Relative expressions ──────────────────────────────────────────────────

#[test]
fn now_returns_current() {
    let before = now_secs();
    let r = parse_now("from", "now", false).unwrap();
    let after = now_secs();
    assert!(r.secs >= before && r.secs <= after, "now() should be in [before, after]");
}

#[test]
fn now_minus_1h() {
    let before = now_secs() - 3600;
    let r = parse_now("from", "now-1h", false).unwrap();
    let after = now_secs() - 3600;
    assert!(r.secs >= before - 2 && r.secs <= after + 2, "now-1h out of expected window");
}

#[test]
fn now_minus_30m() {
    let before = now_secs() - 30 * 60;
    let r = parse_now("from", "now-30m", false).unwrap();
    let after = now_secs() - 30 * 60;
    assert!(r.secs >= before - 2 && r.secs <= after + 2, "now-30m out of expected window");
}

#[test]
fn now_minus_7d() {
    let before = now_secs() - 7 * 86400;
    let r = parse_now("from", "now-7d", false).unwrap();
    let after = now_secs() - 7 * 86400;
    assert!(r.secs >= before - 2 && r.secs <= after + 2, "now-7d out of expected window");
}

#[test]
fn now_minus_1m_is_30_days() {
    let expected = now_secs() - 30 * 86400;
    let r = parse_now("from", "now-1M", false).unwrap();
    let delta = (r.secs - expected).unsigned_abs();
    assert!(delta <= 2, "now-1M should be ~30 days ago, delta={delta}s");
}

#[test]
fn now_plus_offset() {
    let before = now_secs() + 2 * 3600;
    let r = parse_now("to", "now+2h", false).unwrap();
    let after = now_secs() + 2 * 3600;
    assert!(r.secs >= before - 2 && r.secs <= after + 2, "now+2h out of expected window");
}

#[test]
fn case_insensitive_now() {
    let r_upper = parse_now("from", "NOW", false);
    let r_mixed = parse_now("from", "Now", false);
    assert!(r_upper.is_ok(), "NOW should parse");
    assert!(r_mixed.is_ok(), "Now should parse");
}

#[test]
fn whitespace_tolerant() {
    let r = parse_now("from", "  now-1h  ", false);
    assert!(r.is_ok(), "whitespace-padded now-1h should parse");
}

#[test]
fn invalid_unit_returns_error() {
    let err = parse_now("from", "now-1x", false).unwrap_err();
    match err {
        ApiError::BadRequest(msg) => {
            assert!(msg.contains("unknown unit"), "msg={msg}");
        }
        _ => panic!("expected BadRequest"),
    }
}

#[test]
fn invalid_format_returns_error() {
    let err = parse_now("from", "now-abc", false).unwrap_err();
    assert!(matches!(err, ApiError::BadRequest(_)));
}

// ── Absolute forms ─────────────────────────────────────────────────────────

#[test]
fn rfc3339_with_z() {
    let r = parse_now("from", "2026-04-23T15:30:00Z", false).unwrap();
    assert_eq!(rfc3339(r), "2026-04-23T15:30:00+00:00");
}

#[test]
fn rfc3339_with_offset() {
    let r = parse_now("from", "2026-04-23T15:30:00+05:30", false).unwrap();
    assert_eq!(rfc3339(r), "2026-04-23T10:00:00+00:00");
}

#[test]
fn datetime_local_no_seconds() {
    let r = parse_now("from", "2026-04-23T15:30", false).unwrap();
    assert_eq!(rfc3339(r), "2026-04-23T15:30:00+00:00");
}

#[test]
fn datetime_local_with_seconds() {
    let r = parse_now("from", "2026-04-23T15:30:45", false).unwrap();
    assert_eq!(rfc3339(r), "2026-04-23T15:30:45+00:00");
}

#[test]
fn date_only_start_of_day() {
    let r = parse_now("from", "2026-04-23", false).unwrap();
    assert_eq!(rfc3339(r), "2026-04-23T00:00:00+00:00");
}

#[test]
fn date_only_end_of_day() {
    let r = parse_now("to", "2026-04-23", true).unwrap();
    assert_eq!(rfc3339(r), "2026-04-23T23:59:59+00:00");
}

#[test]
fn garbage_returns_bad_request() {
    let err = parse_now("from", "not-a-date", false).unwrap_err();
    match err {
        ApiError::BadRequest(msg) => {
            assert!(msg.contains("Invalid from"));
            assert!(msg.contains("not-a-date"));
        }
        _ => panic!("expected BadRequest"),
    }
}

#[test]
fn empty_string_returns_bad_request() {
    let err = parse_now("from", "", false).unwrap_err();
    assert!(matches!(err, ApiError::BadRequest(_)));
}

// ── At a fixed clock ───────────────────────────────────────────────────────

#[test]
fn relative_offsets_at_fixed_now() {
    let now = fixed_now();
    let cases: [(&str, i64); 8] = [
        ("now", 0),
        ("now-5s", -5),
        ("now+2m", 120),
        ("now - 3h", -3 * 3600),
        ("now+1d", 86400),
        ("now-2w", -14 * 86400),
        ("now-1M", -30 * 86400),
        ("now+1y", 365 * 86400),
    ];
    for (text, off) in cases {
        let r = parse_flexible_datetime("from", text, false, now).unwrap();
        assert_eq!(r, UtcTime { secs: now.secs + off, nanos: now.nanos }, "{text}");
    }
}

#[test]
fn garbage_message_is_exact() {
    let err = parse_flexible_datetime("from", " not-a-date", false, fixed_now()).unwrap_err();
    match err {
        ApiError::BadRequest(msg) => assert_eq!(
            msg,
            "Invalid from (expected now/now\u{b1}<n><unit>, RFC3339, ISO datetime, or YYYY-MM-DD): \" not-a-date\""
        ),
        _ => panic!("expected BadRequest"),
    }
}

#[test]
fn relative_error_messages() {
    let msg = |v: &str| match try_parse_relative(v) {
        Err(ApiError::BadRequest(m)) => m,
        other => panic!("expected BadRequest for {v}, got {other:?}"),
    };
    assert_eq!(
        msg("now5h"),
        "Invalid relative date \"now5h\": expected `now`, `now+<n><unit>`, or `now-<n><unit>`"
    );
    assert_eq!(msg("now-h"), "Invalid relative date \"now-h\": missing numeric amount");
    assert_eq!(msg("now-5"), "Invalid relative date \"now-5\": missing unit (s/m/h/d/w/M/y)");
    assert_eq!(
        msg("now-5hours"),
        "Invalid relative date \"now-5hours\": unknown unit \"hours\" \u{2014} use one of s/m/h/d/w/M/y"
    );
    assert_eq!(
        msg("now-1x"),
        "Invalid relative date \"now-1x\": unknown unit 'x' \u{2014} use one of s/m/h/d/w/M/y"
    );
    assert_eq!(msg("now-99999999999999999999d"), "Invalid amount in \"now-99999999999999999999d\"");
}

#[test]
fn non_relative_text_is_not_relative() {
    assert!(matches!(try_parse_relative("2026-04-23"), Ok(None)));
    assert!(matches!(try_parse_relative("tomorrow"), Ok(None)));
    assert!(matches!(try_parse_relative("now+10s"), Ok(Some(10))));
}

#[test]
fn huge_offset_is_out_of_range() {
    let now = fixed_now();
    assert!(!shift_in_range("now+9223372036854775807y", now));
    assert!(!shift_in_range("now+300000y", now));
    assert!(shift_in_range("now+1000y", now));
    assert!(shift_in_range("2026-04-23", now));
}

#[test]
fn clock_reads_current_instant() {
    let before = now_secs();
    let t = chola_controller::time::utc_now().expect("clock after 1970");
    let after = now_secs();
    assert!(t.secs >= before && t.secs <= after);
    assert!(t.nanos < 1_000_000_000);
}
