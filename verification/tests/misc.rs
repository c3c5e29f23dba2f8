use chola_controller::retention::filter_live_workers;
use chola_controller::time::UtcTime;
use chola_controller::api::badge::{badge_for, badge_svg};
use chola_controller::api::error::ApiError;
use chola_controller::api::webhooks::{check_delivery, event_configured, parse_github_push, parse_gitlab_push};
use chola_controller::auth::{AuthConfig, Claims};
use chola_controller::job_group_registry::JobGroupState;
use chola_controller::reservation::ReservationManager;
use chola_controller::retention::{effective_interval, tick_gate, RunOnceOpts, RunOnceResult, TickSkip};
use chola_controller::scheduler::{BestFitScheduler, JobFit, RoundRobinScheduler, WorkerFit};

#[test]
fn github_push_payload() {
    let p = parse_github_push(Some("refs/heads/main"), Some("abc123")).unwrap();
    assert_eq!((p.branch.as_str(), p.commit_sha.as_str()), ("main", "abc123"));
    assert!(parse_github_push(Some("refs/tags/v1"), Some("abc")).is_none());
    assert!(parse_github_push(Some("refs/heads/main"), Some("0000000000000000000000000000000000000000")).is_none());
    assert!(parse_gitlab_push(None, Some("abc")).is_none());
    let p = parse_gitlab_push(Some("refs/heads/feature/x"), Some("def")).unwrap();
    assert_eq!(p.branch, "feature/x");
}

#[test]
fn delivery_checks() {
    assert!(check_delivery("gitlab", "gitlab", "tok", "", "tok", b"{}").is_ok());
    assert!(check_delivery("gitlab", "gitlab", "tok", "", "", b"{}").is_ok());
    assert!(matches!(
        check_delivery("gitlab", "gitlab", "tok", "", "bad", b"{}"),
        Err(ApiError::Unauthorized(m)) if m == "Invalid token"
    ));
    assert!(matches!(
        check_delivery("github", "gitlab", "tok", "", "", b"{}"),
        Err(ApiError::BadRequest(m)) if m == "Provider mismatch"
    ));
    assert!(matches!(
        check_delivery("github", "github", "s", "sha256=00", "", b"{}"),
        Err(ApiError::Unauthorized(m)) if m == "Invalid signature"
    ));
    assert!(matches!(
        check_delivery("bitbucket", "bitbucket", "s", "", "", b"{}"),
        Err(ApiError::BadRequest(m)) if m == "Unsupported provider"
    ));
    assert!(event_configured(&vec!["push".to_string()], "push"));
    assert!(!event_configured(&vec!["push".to_string()], "tag"));
}

#[test]
fn badges() {
    assert_eq!(badge_for(Some(JobGroupState::Success)), ("passing", "#4c1"));
    assert_eq!(badge_for(Some(JobGroupState::Failed)), ("failing", "#e05d44"));
    assert_eq!(badge_for(Some(JobGroupState::Reserved)), ("running", "#007ec6"));
    assert_eq!(badge_for(None), ("unknown", "#9f9f9f"));
    let svg = badge_svg("passing", "#4c1");
    assert!(svg.starts_with("<svg xmlns=\"http://www.w3.org/2000/svg\" width=\"96\" height=\"20\">"));
    assert!(svg.contains("<rect x=\"37\" width=\"59\" height=\"20\" fill=\"#4c1\"/>"));
    assert!(svg.ends_with(">passing</text></svg>"));
}

fn worker(mem: i64, load_rank: u64, nvme: bool, running: bool) -> WorkerFit {
    WorkerFit {
        free_memory_mb: mem,
        free_disk_mb: 10_000,
        cpu_fits: true,
        supports_job_type: true,
        load_rank,
        nvme,
        running_jobs: running,
    }
}

#[test]
fn best_fit_choice() {
    let job = JobFit { required_memory_mb: 1000, required_disk_mb: 100, is_nix: true, branch_id: None };
    let ws = vec![worker(500, 0, false, false), worker(4000, 2, true, false), worker(2000, 1, false, true)];
    let plain = BestFitScheduler { nvme_preference: false, branch_affinity: false };
    assert_eq!(plain.select_worker(&job, &ws), Some(2));
    let nvme = BestFitScheduler { nvme_preference: true, branch_affinity: false };
    assert_eq!(nvme.select_worker(&job, &ws), Some(1));
    let job2 = JobFit { required_memory_mb: 100_000, required_disk_mb: 0, is_nix: false, branch_id: None };
    assert_eq!(plain.select_worker(&job2, &ws), None);
    let affine = BestFitScheduler { nvme_preference: false, branch_affinity: true };
    let job3 = JobFit { required_memory_mb: 0, required_disk_mb: 0, is_nix: false, branch_id: Some("b".to_string()) };
    let ws3 = vec![worker(100, 0, false, false), worker(100, 5, false, true)];
    assert_eq!(affine.select_worker(&job3, &ws3), Some(1));
}

#[test]
fn round_robin_cycles() {
    let job = JobFit { required_memory_mb: 0, required_disk_mb: 0, is_nix: false, branch_id: None };
    let three = vec![worker(1, 0, false, false), worker(1, 0, false, false), worker(1, 0, false, false)];
    let two = vec![worker(1, 0, false, false), worker(1, 0, false, false)];
    let mut rr = RoundRobinScheduler::new();
    assert_eq!(rr.select_worker(&job, &vec![]), None);
    assert_eq!(rr.select_worker(&job, &three), Some(0));
    assert_eq!(rr.select_worker(&job, &three), Some(1));
    assert_eq!(rr.select_worker(&job, &three), Some(2));
    assert_eq!(rr.select_worker(&job, &three), Some(0));
    assert_eq!(rr.select_worker(&job, &two), Some(0));
}

#[test]
fn retention_decisions() {
    let none = RunOnceOpts { run_t1: false, run_t2: false, run_t3: false };
    assert_eq!(none.tiers(), (true, true, true));
    let only_t2 = RunOnceOpts { run_t1: false, run_t2: true, run_t3: false };
    assert_eq!(only_t2.tiers(), (false, true, false));
    assert_eq!(RunOnceOpts::all().tiers(), (true, true, true));
    let z = RunOnceResult::zero();
    assert_eq!((z.t1_purged, z.t2_archived, z.t3_deleted), (0, 0, 0));
    assert!(tick_gate(7, 90, 365).is_ok());
    assert!(matches!(tick_gate(0, 90, 365), Err(TickSkip::NonPositive)));
    assert!(matches!(tick_gate(90, 90, 365), Err(TickSkip::BadOrdering)));
    assert_eq!(effective_interval(10), 60);
    assert_eq!(effective_interval(3600), 3600);
}

#[test]
fn auth_data() {
    let c = Claims::issue("u1".into(), "alice".into(), "admin".into(), "j1".into(), 1000, 3600);
    assert_eq!((c.iat, c.exp), (1000, 4600));
    let a = AuthConfig::from_controller_config(true, "SECRET-REDACTED");
    assert!(a.enabled);
    assert_eq!(a.jwt_secret, "SECRET-REDACTED");
}

#[test]
fn reservation_keys() {
    assert_eq!(
        ReservationManager::reservation_key("chola:", "w1", "g1"),
        "chola:worker:reservation:w1:g1"
    );
}

#[test]
fn live_workers_by_heartbeat() {
    let owners = vec!["w1".to_string(), "w2".to_string(), "w3".to_string()];
    let beats = vec![
        ("w1".to_string(), Some(UtcTime { secs: 95, nanos: 0 })),
        ("w2".to_string(), Some(UtcTime { secs: 10, nanos: 0 })),
        ("w3".to_string(), None),
    ];
    assert_eq!(filter_live_workers(&owners, &beats, UtcTime { secs: 100, nanos: 0 }, 30), vec!["w1".to_string()]);
}

#[test]
fn tick_reads_tiers_and_interval() {
    let db = vec![
        ("retention.t2_archive_after_days".to_string(), "5".to_string()),
        ("retention.cleanup_interval_secs".to_string(), "10".to_string()),
    ];
    let (ages, gate, interval) = chola_controller::retention::tick_settings(&db, 7, 90, 365, 3600);
    assert_eq!(ages, (7, 5, 365));
    assert!(matches!(gate, Err(TickSkip::BadOrdering)));
    assert_eq!(interval, 60);
    let (ages, gate, interval) = chola_controller::retention::tick_settings(&vec![], 7, 90, 365, 3600);
    assert_eq!(ages, (7, 90, 365));
    assert!(gate.is_ok());
    assert_eq!(interval, 3600);
}
