use chola_controller::job_group_registry::{Job, JobState};
use chola_controller::job_registry::{job_state_from_code, JobRegistry, JobStatusUpdate};
use chola_controller::time::elapsed_seconds;
use chola_controller::time::UtcTime;

fn at(secs: i64) -> UtcTime {
    UtcTime { secs, nanos: 0 }
}

fn job(id: &str, state: JobState) -> Job {
    Job {
        job_id: id.to_string(),
        stage_name: None,
        state,
        exit_code: None,
        assigned_worker: None,
        output: None,
        status_reason: None,
        cancel_reason: None,
        job_group_id: None,
        submitter_connection_id: None,
        created_at: at(0),
        updated_at: at(0),
        completed_at: None,
    }
}

#[test]
fn state_codes() {
    assert_eq!(job_state_from_code(1), JobState::Queued);
    assert_eq!(job_state_from_code(4), JobState::Success);
    assert_eq!(job_state_from_code(6), JobState::Cancelled);
    assert_eq!(job_state_from_code(0), JobState::Unknown);
    assert_eq!(job_state_from_code(42), JobState::Unknown);
}

#[test]
fn add_get_and_replace() {
    let mut reg = JobRegistry::new();
    assert!(reg.get("a").is_none());
    reg.add_job(job("a", JobState::Queued));
    reg.add_job(job("a", JobState::Running));
    assert_eq!(reg.get("a").unwrap().state, JobState::Running);
    assert_eq!(reg.queued_jobs().len(), 0);
}

#[test]
fn next_job_assigns_first_queued() {
    let mut reg = JobRegistry::new();
    reg.add_job(job("a", JobState::Running));
    reg.add_job(job("b", JobState::Queued));
    reg.add_job(job("c", JobState::Queued));
    let j = reg.next_job_for("w1", at(5)).unwrap();
    assert_eq!(j.job_id, "b");
    assert_eq!(j.state, JobState::Assigned);
    assert_eq!(j.assigned_worker.as_deref(), Some("w1"));
    assert_eq!(reg.get("b").unwrap().state, JobState::Assigned);
    let q: Vec<&str> = reg.queued_jobs().iter().map(|j| j.job_id.as_str()).collect();
    assert_eq!(q, vec!["c"]);
    assert!(reg.next_job_for("w2", at(6)).is_some());
    assert!(reg.next_job_for("w2", at(7)).is_none());
}

#[test]
fn assign_only_queued() {
    let mut reg = JobRegistry::new();
    reg.add_job(job("a", JobState::Queued));
    assert!(reg.assign_job("a", "w1", at(1)).is_some());
    assert!(reg.assign_job("a", "w2", at(2)).is_none());
    assert_eq!(reg.get("a").unwrap().assigned_worker.as_deref(), Some("w1"));
    assert!(reg.assign_job("missing", "w1", at(3)).is_none());
}

#[test]
fn status_report_applies() {
    let mut reg = JobRegistry::new();
    let mut j = job("a", JobState::Running);
    j.output = Some("earlier".to_string());
    reg.add_job(j);
    reg.update_status(&JobStatusUpdate { job_id: "a".into(), state: 5, exit_code: 2, output: String::new() }, at(9));
    let j = reg.get("a").unwrap();
    assert_eq!(j.state, JobState::Failed);
    assert_eq!(j.exit_code, Some(2));
    assert_eq!(j.output.as_deref(), Some("earlier"));
    assert_eq!(j.updated_at, at(9));
    reg.update_status(&JobStatusUpdate { job_id: "a".into(), state: 4, exit_code: 0, output: "done".into() }, at(10));
    assert_eq!(reg.get("a").unwrap().output.as_deref(), Some("done"));
}

#[test]
fn worker_loss_marks_running_jobs_unknown() {
    let mut reg = JobRegistry::new();
    let mut a = job("a", JobState::Running);
    a.assigned_worker = Some("w1".into());
    let mut b = job("b", JobState::Assigned);
    b.assigned_worker = Some("w1".into());
    let mut c = job("c", JobState::Running);
    c.assigned_worker = Some("w2".into());
    reg.add_job(a);
    reg.add_job(b);
    reg.add_job(c);
    assert_eq!(reg.mark_unknown_for_worker("w1", at(3)), 1);
    assert_eq!(reg.get("a").unwrap().state, JobState::Unknown);
    assert_eq!(reg.get("b").unwrap().state, JobState::Assigned);
    assert_eq!(reg.get("c").unwrap().state, JobState::Running);
}

#[test]
fn cancel_requests() {
    let mut reg = JobRegistry::new();
    let mut a = job("a", JobState::Running);
    a.assigned_worker = Some("w1".into());
    reg.add_job(a);
    reg.add_job(job("b", JobState::Success));
    assert_eq!(reg.cancel_job("a", "user asked", at(4)), Some("w1".to_string()));
    let a = reg.get("a").unwrap();
    assert_eq!(a.state, JobState::Running);
    assert_eq!(a.cancel_reason.as_deref(), Some("user asked"));
    assert_eq!(reg.cancel_job("b", "late", at(5)), None);
    assert_eq!(reg.cancel_job("zzz", "none", at(5)), None);
}

#[test]
fn orphans_are_cancelled_after_timeout() {
    let mut reg = JobRegistry::new();
    let mut old = job("old", JobState::Queued);
    old.created_at = at(100);
    old.submitter_connection_id = Some("conn-1".into());
    let mut grouped = job("grouped", JobState::Queued);
    grouped.job_group_id = Some(7);
    let mut fresh = job("fresh", JobState::Assigned);
    fresh.created_at = at(190);
    reg.add_job(old);
    reg.add_job(grouped);
    reg.add_job(fresh);
    let orphans: Vec<&str> = reg.get_orphaned_jobs("conn-1").iter().map(|j| j.job_id.as_str()).collect();
    assert_eq!(orphans, vec!["old"]);
    assert_eq!(reg.cancel_orphaned_jobs(30, at(200)), 1);
    let o = reg.get("old").unwrap();
    assert_eq!(o.state, JobState::Cancelled);
    assert_eq!(o.cancel_reason.as_deref(), Some("Orphaned (submitter disconnected)"));
    assert_eq!(reg.get("fresh").unwrap().state, JobState::Assigned);
    assert!(reg.get_orphaned_jobs("conn-1").is_empty());
}

#[test]
fn elapsed_seconds_truncates_toward_zero() {
    let a = UtcTime { secs: 10, nanos: 900_000_000 };
    let b = UtcTime { secs: 12, nanos: 100_000_000 };
    assert_eq!(elapsed_seconds(a, b), 1);
    assert_eq!(elapsed_seconds(b, a), -1);
    assert_eq!(elapsed_seconds(a, a), 0);
}

#[test]
fn worker_takes_first_suitable_queued_job() {
    use_job_for_worker();
}

fn use_job_for_worker() {
    let q = vec![
        (Some("w2".to_string()), true),
        (None, false),
        (None, true),
        (Some("w1".to_string()), false),
    ];
    assert_eq!(chola_controller::job_registry::job_for_worker(&q, "w1"), Some(2));
    assert_eq!(chola_controller::job_registry::job_for_worker(&q, "w2"), Some(0));
    let q2 = vec![(Some("w9".to_string()), true), (None, false)];
    assert_eq!(chola_controller::job_registry::job_for_worker(&q2, "w1"), None);
}
