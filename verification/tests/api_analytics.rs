use chola_controller::api::analytics::{
    auto_granularity, clamp_days, compile_chql_param, resolve_granularity, window_bounds,
    AnalyticsWindow, Granularity,
};
use chola_controller::api::error::ApiError;
use chola_controller::time::UtcTime;
use chrono::TimeZone;

fn anchor() -> UtcTime {
    let t = chrono::Utc.with_ymd_and_hms(2026, 4, 23, 12, 0, 0).unwrap();
    UtcTime { secs: t.timestamp(), nanos: 0 }
}

fn days_before(t: UtcTime, days: i64) -> UtcTime {
    UtcTime { secs: t.secs - days * 86400, nanos: t.nanos }
}

#[test]
fn auto_one_day_picks_hour() {
    let to = anchor();
    let from = days_before(to, 1);
    assert_eq!(auto_granularity(from, to), Granularity::Hour);
}

#[test]
fn auto_seven_days_picks_hour() {
    let to = anchor();
    let from = days_before(to, 7);
    assert_eq!(auto_granularity(from, to), Granularity::Hour);
}

#[test]
fn auto_eight_days_picks_day() {
    let to = anchor();
    let from = days_before(to, 8);
    assert_eq!(auto_granularity(from, to), Granularity::Day);
}

#[test]
fn auto_sixty_days_picks_day() {
    let to = anchor();
    let from = days_before(to, 60);
    assert_eq!(auto_granularity(from, to), Granularity::Day);
}

#[test]
fn auto_just_over_seven_days_picks_day() {
    let to = anchor();
    let seven = days_before(to, 7);
    let from = UtcTime { secs: seven.secs - 1, nanos: 0 };
    assert_eq!(auto_granularity(from, to), Granularity::Day);
}

#[test]
fn explicit_hour_overrides_long_range() {
    let to = anchor();
    let from = days_before(to, 90);
    assert_eq!(resolve_granularity(Some("hour"), from, to), Granularity::Hour);
}

#[test]
fn explicit_day_overrides_short_range() {
    let to = anchor();
    let from = days_before(to, 1);
    assert_eq!(resolve_granularity(Some("day"), from, to), Granularity::Day);
}

#[test]
fn auto_mode_string_matches_default() {
    let to = anchor();
    let from = days_before(to, 3);
    assert_eq!(resolve_granularity(Some("auto"), from, to), Granularity::Hour);
}

#[test]
fn unknown_mode_falls_back_to_auto() {
    let to = anchor();
    let from = days_before(to, 30);
    assert_eq!(resolve_granularity(Some("week"), from, to), Granularity::Day);
}

#[test]
fn case_insensitive_explicit_mode() {
    let to = anchor();
    let from = days_before(to, 30);
    assert_eq!(resolve_granularity(Some("HOUR"), from, to), Granularity::Hour);
}

#[test]
fn no_mode_is_auto() {
    let to = anchor();
    assert_eq!(resolve_granularity(None, days_before(to, 2), to), Granularity::Hour);
    assert_eq!(resolve_granularity(None, days_before(to, 20), to), Granularity::Day);
}

#[test]
fn seven_days_and_one_nanosecond_picks_day() {
    let to = UtcTime { secs: 1_000_000, nanos: 1 };
    let from = UtcTime { secs: 1_000_000 - 604_800, nanos: 0 };
    assert_eq!(auto_granularity(from, to), Granularity::Day);
    let to_exact = UtcTime { secs: 1_000_000, nanos: 0 };
    assert_eq!(auto_granularity(from, to_exact), Granularity::Hour);
}

#[test]
fn negative_span_picks_hour() {
    let t = anchor();
    assert_eq!(auto_granularity(t, days_before(t, 100)), Granularity::Hour);
}

#[test]
fn last_days_window_ends_now() {
    let now = UtcTime { secs: 2_000_000_000, nanos: 5 };
    let (from, to) = window_bounds(&AnalyticsWindow::LastDays(30), now);
    assert_eq!(to, now);
    assert_eq!(from, UtcTime { secs: 2_000_000_000 - 30 * 86400, nanos: 5 });
    let a = UtcTime { secs: 1, nanos: 0 };
    let b = UtcTime { secs: 2, nanos: 0 };
    assert_eq!(window_bounds(&AnalyticsWindow::Range { from: a, to: b }, now), (a, b));
}

#[test]
fn days_are_clamped() {
    assert_eq!(clamp_days(None), 30);
    assert_eq!(clamp_days(Some(0)), 1);
    assert_eq!(clamp_days(Some(-5)), 1);
    assert_eq!(clamp_days(Some(7)), 7);
    assert_eq!(clamp_days(Some(400)), 365);
}

#[test]
fn blank_query_param_yields_none() {
    assert!(matches!(compile_chql_param(None), Ok(None)));
    assert!(matches!(compile_chql_param(Some("")), Ok(None)));
    assert!(matches!(compile_chql_param(Some("   ")), Ok(None)));
}

#[test]
fn query_param_compiles() {
    let frag = compile_chql_param(Some("branch:main")).unwrap().unwrap();
    assert!(frag.sql.contains('?'));
    assert_eq!(frag.binds.len(), 1);
}

#[test]
fn query_param_parse_error_is_bad_request_with_position() {
    match compile_chql_param(Some("branch:main AND")) {
        Err(ApiError::BadRequest(msg)) => assert!(msg.contains("(position"), "msg={msg}"),
        other => panic!("expected BadRequest, got {other:?}"),
    }
}

#[test]
fn query_param_unknown_field_is_bad_request() {
    match compile_chql_param(Some("nosuchfield:1")) {
        Err(ApiError::BadRequest(_)) => {}
        other => panic!("expected BadRequest, got {other:?}"),
    }
}
