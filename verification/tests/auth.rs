use chola_controller::auth::{classify_credentials, query_token, runner_token_user, AuthRefusal, Credential};
use chola_controller::time::UtcTime;

fn at(secs: i64) -> UtcTime {
    UtcTime { secs, nanos: 0 }
}

#[test]
fn disabled_auth_is_anonymous() {
    assert!(matches!(classify_credentials(false, None, None, None), Credential::Anonymous));
}

#[test]
fn api_key_header() {
    assert!(matches!(classify_credentials(true, Some("chola_svc_abc"), None, None), Credential::RunnerToken(t) if t == "chola_svc_abc"));
    assert!(matches!(classify_credentials(true, Some("chola_abc"), Some("Bearer x"), None), Credential::ApiKey(k) if k == "chola_abc"));
}

#[test]
fn authorization_header_kinds() {
    assert!(matches!(classify_credentials(true, None, Some("Bearer chola_svc_1"), None), Credential::RunnerToken(t) if t == "chola_svc_1"));
    assert!(matches!(classify_credentials(true, None, Some("Bearer chola_k"), None), Credential::ApiKey(k) if k == "chola_k"));
    assert!(matches!(classify_credentials(true, None, Some("Bearer eyJ.x.y"), None), Credential::Session(t) if t == "eyJ.x.y"));
    assert!(matches!(classify_credentials(true, None, Some("Basic abc"), None), Credential::BadFormat));
    assert!(matches!(classify_credentials(true, None, None, None), Credential::Missing));
}

#[test]
fn query_token_for_event_streams() {
    assert_eq!(query_token("a=1&token=abc&b=2"), Some("abc".to_string()));
    assert_eq!(query_token("token="), Some(String::new()));
    assert_eq!(query_token("xtoken=1&b=2"), None);
    assert!(matches!(classify_credentials(true, None, None, Some("from=1&token=jwt1")), Credential::Session(t) if t == "jwt1"));
    assert!(matches!(classify_credentials(true, None, None, Some("from=1")), Credential::Missing));
}

#[test]
fn runner_token_checks() {
    assert_eq!(runner_token_user(true, "runner", None, "ci", at(10)).ok(), Some("runner:ci".to_string()));
    assert_eq!(runner_token_user(true, "runner", Some(at(20)), "ci", at(10)).ok(), Some("runner:ci".to_string()));
    assert!(matches!(runner_token_user(false, "runner", None, "ci", at(10)), Err(AuthRefusal::RunnerTokenInactive)));
    assert!(matches!(runner_token_user(true, "worker", None, "ci", at(10)), Err(AuthRefusal::InvalidRunnerToken)));
    let r = runner_token_user(true, "runner", Some(at(5)), "ci", at(10));
    assert!(matches!(r, Err(AuthRefusal::RunnerTokenExpired)));
    assert_eq!(AuthRefusal::RunnerTokenExpired.message(), "Runner token has expired");
}
