use chola_controller::api::error::ApiError;
use chola_controller::api::settings::{
    check_setting_update, setting_bool, setting_u64,
    check_tier_ordering, editable_key, parse_bool, resolve, validate_int_range, validate_path,
    validate_setting_value,
};

fn bad(r: Result<(), ApiError>) -> String {
    match r {
        Err(ApiError::BadRequest(m)) => m,
        other => panic!("expected a bad request, got {:?}", other),
    }
}

fn db(pairs: &[(&str, &str)]) -> Vec<(String, String)> {
    pairs.iter().map(|(k, v)| (k.to_string(), v.to_string())).collect()
}

#[test]
fn editable_keys() {
    assert!(editable_key("scheduling.strategy"));
    assert!(editable_key("retention.enable_worker_fanout"));
    assert!(!editable_key("auth.jwt_secret"));
}

#[test]
fn bool_values() {
    assert_eq!(parse_bool("k", "TRUE").unwrap(), true);
    assert_eq!(parse_bool("k", "false").unwrap(), false);
    match parse_bool("k", "yes") {
        Err(ApiError::BadRequest(m)) => assert_eq!(m, "k must be 'true' or 'false'"),
        _ => panic!("expected an error"),
    }
}

#[test]
fn path_values() {
    assert!(validate_path("execution.work_dir", "/var/ci").is_ok());
    assert_eq!(bad(validate_path("execution.work_dir", "")), "execution.work_dir must not be empty");
    assert_eq!(
        bad(validate_path("execution.work_dir", "var/ci")),
        "execution.work_dir must be an absolute path (start with /)"
    );
    assert_eq!(bad(validate_path("execution.work_dir", "/a/../b")), "execution.work_dir must not contain '..'");
}

#[test]
fn int_ranges() {
    assert!(validate_int_range("k", "5", 5, 300).is_ok());
    assert_eq!(bad(validate_int_range("k", "4", 5, 300)), "k must be between 5 and 300");
    assert_eq!(bad(validate_int_range("k", "x", 5, 300)), "k must be an integer");
    assert_eq!(bad(validate_int_range("k", "-1", -5, -2)), "k must be between -5 and -2");
}

#[test]
fn setting_values() {
    assert!(validate_setting_value("scheduling.strategy", "best-fit").is_ok());
    assert_eq!(
        bad(validate_setting_value("scheduling.strategy", "random")),
        "strategy must be 'best-fit' or 'round-robin'"
    );
    assert_eq!(
        bad(validate_setting_value("logging.level", "verbose")),
        "level must be one of: trace, debug, info, warn, error"
    );
    assert_eq!(
        bad(validate_setting_value("retention.cleanup_interval_secs", "10")),
        "retention.cleanup_interval_secs must be between 60 and 86400"
    );
    assert!(validate_setting_value("unknown.key", "anything").is_ok());
}

#[test]
fn resolve_prefers_stored_override() {
    let d = db(&[("logging.level", "debug")]);
    let (v, src) = resolve(&d, "logging.level", "info");
    assert_eq!((v.as_str(), src.as_str()), ("debug", "database"));
    let (v, src) = resolve(&d, "scheduling.strategy", "best-fit");
    assert_eq!((v.as_str(), src.as_str()), ("best-fit", "config"));
}

#[test]
fn tier_ordering() {
    let d = db(&[("retention.t2_archive_after_days", "30")]);
    assert!(check_tier_ordering("retention.t1_purge_files_after_days", "7", &d, 7, 90, 365).is_ok());
    assert_eq!(
        bad(check_tier_ordering("retention.t1_purge_files_after_days", "30", &d, 7, 90, 365)),
        "retention tier ordering violated: t1 (30) must be < t2 (30)"
    );
    assert_eq!(
        bad(check_tier_ordering("retention.t3_delete_archive_after_days", "20", &d, 7, 90, 365)),
        "retention tier ordering violated: t2 (30) must be < t3 (20)"
    );
    let broken = db(&[("retention.t2_archive_after_days", "soon")]);
    match check_tier_ordering("retention.t1_purge_files_after_days", "7", &broken, 7, 90, 365) {
        Err(ApiError::Internal(m)) => {
            assert_eq!(m, "stored retention.t2_archive_after_days is not an integer: soon")
        }
        _ => panic!("expected an internal error"),
    }
}

#[test]
fn typed_settings_fall_back_to_config() {
    let d = db(&[("workers.idle_timeout_secs", "900"), ("retention.enable_worker_fanout", "TRUE"), ("workers.stall_timeout_secs", "soon")]);
    assert_eq!(setting_u64(&d, "workers.idle_timeout_secs", 600), 900);
    assert_eq!(setting_u64(&d, "workers.stall_timeout_secs", 300), 300);
    assert_eq!(setting_u64(&d, "missing", 7), 7);
    assert!(!setting_bool(&d, "retention.enable_worker_fanout", false));
    let d = db(&[("scheduling.nvme_preference", "true")]);
    assert!(setting_bool(&d, "scheduling.nvme_preference", false));
}

#[test]
fn setting_updates() {
    let d = db(&[("retention.t2_archive_after_days", "30")]);
    assert_eq!(bad(check_setting_update(None, Some("x"), &d, 7, 90, 365)), "key is required");
    assert_eq!(bad(check_setting_update(Some("logging.level"), None, &d, 7, 90, 365)), "value is required");
    assert_eq!(
        bad(check_setting_update(Some("server.bind_address"), Some("0.0.0.0"), &d, 7, 90, 365)),
        "Setting 'server.bind_address' is not editable at runtime"
    );
    assert_eq!(
        bad(check_setting_update(Some("logging.level"), Some("loud"), &d, 7, 90, 365)),
        "level must be one of: trace, debug, info, warn, error"
    );
    assert!(check_setting_update(Some("logging.level"), Some("warn"), &d, 7, 90, 365).is_ok());
    assert_eq!(
        bad(check_setting_update(Some("retention.t1_purge_files_after_days"), Some("40"), &d, 7, 90, 365)),
        "retention tier ordering violated: t1 (40) must be < t2 (30)"
    );
    assert!(check_setting_update(Some("retention.t1_purge_files_after_days"), Some("10"), &d, 7, 90, 365).is_ok());
}
