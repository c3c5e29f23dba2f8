use chola_controller::csrf::{csrf_blocks, origin_allowed};

#[test]
fn same_origin_via_host_allowed() {
    // localhost and any other host both pass when Origin == Host.
    assert!(origin_allowed("http://localhost:3000", None, Some(Some("localhost:3000")), &vec![]));
    assert!(origin_allowed(
        "http://dashboard.local:3000",
        None,
        Some(Some("dashboard.local:3000")),
        &vec![]
    ));
}

#[test]
fn same_origin_via_forwarded_host_allowed() {
    // Behind a proxy that rewrites Host: X-Forwarded-Host carries the real host.
    assert!(origin_allowed(
        "http://dashboard.local:3000",
        Some(Some("dashboard.local:3000")),
        Some(Some("localhost:8080")),
        &vec![]
    ));
}

#[test]
fn cross_origin_blocked() {
    assert!(!origin_allowed(
        "http://evil.example.com",
        None,
        Some(Some("dashboard.local:3000")),
        &vec![]
    ));
}

#[test]
fn allowlisted_cross_origin_allowed() {
    let allowed = vec!["https://ci.example.com".to_string()];
    assert!(origin_allowed("https://ci.example.com", None, Some(Some("localhost:8080")), &allowed));
    assert!(!origin_allowed("https://other.example.com", None, Some(Some("localhost:8080")), &allowed));
}

#[test]
fn no_host_header_blocks_nonlisted_origin() {
    assert!(!origin_allowed("http://localhost:3000", None, None, &vec![]));
}

#[test]
fn host_comparison_ignores_ascii_case() {
    assert!(origin_allowed("http://LOCALHOST:3000", None, Some(Some("localhost:3000")), &vec![]));
}

#[test]
fn forwarded_host_list_uses_first_entry() {
    assert!(origin_allowed(
        "https://a.example:443",
        Some(Some("a.example:443, b.example")),
        Some(Some("internal:8080")),
        &vec![]
    ));
}

#[test]
fn get_requests_never_blocked() {
    assert!(!csrf_blocks(
        "GET",
        "/api/v1/repos",
        Some(Some("http://evil.example.com")),
        None,
        Some(Some("localhost:3000")),
        &vec![]
    ));
}

#[test]
fn cross_origin_post_blocked() {
    assert!(csrf_blocks(
        "POST",
        "/api/v1/repos",
        Some(Some("http://evil.example.com")),
        None,
        Some(Some("localhost:3000")),
        &vec![]
    ));
}

#[test]
fn webhook_post_not_blocked() {
    assert!(!csrf_blocks(
        "POST",
        "/api/v1/webhooks/github",
        Some(Some("http://evil.example.com")),
        None,
        Some(Some("localhost:3000")),
        &vec![]
    ));
}

#[test]
fn post_without_origin_not_blocked() {
    assert!(!csrf_blocks("DELETE", "/api/v1/repos/1", None, None, Some(Some("localhost:3000")), &vec![]));
}
