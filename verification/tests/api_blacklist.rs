use chola_controller::api::blacklist::{
    check_regex, validate_branch_blacklist, validate_command_blacklist, validate_pattern_update,
};
use chola_controller::api::error::ApiError;

fn bad(r: Result<(), ApiError>) -> String {
    match r {
        Err(ApiError::BadRequest(m)) => m,
        other => panic!("expected a bad request, got {:?}", other),
    }
}

#[test]
fn command_patterns() {
    assert!(validate_command_blacklist(Some("^rm -rf")).is_ok());
    assert_eq!(bad(validate_command_blacklist(None)), "pattern is required");
    assert_eq!(bad(validate_command_blacklist(Some(""))), "pattern cannot be empty");
    let m = bad(validate_command_blacklist(Some("a(")));
    assert!(m.starts_with("Invalid regex: regex parse error"), "{m}");
}

#[test]
fn branch_entries() {
    assert!(validate_branch_blacklist(Some("w1"), Some("^release/")).is_ok());
    assert_eq!(bad(validate_branch_blacklist(None, Some("x"))), "worker_id is required");
    assert_eq!(bad(validate_branch_blacklist(Some(""), Some("x"))), "worker_id cannot be empty");
    assert_eq!(bad(validate_branch_blacklist(Some("w1"), None)), "pattern is required");
}

#[test]
fn pattern_updates() {
    assert!(validate_pattern_update(None).is_ok());
    // An update may clear nothing: an empty pattern compiles.
    assert!(validate_pattern_update(Some("")).is_ok());
    assert!(bad(validate_pattern_update(Some("[z-a]"))).starts_with("Invalid regex: "));
    assert!(check_regex("feature/.*").is_ok());
}
