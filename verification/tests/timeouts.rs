use chola_controller::job_group_registry::{
    idle_seconds, reap_reason, Job, JobGroup, JobGroupRegistry, JobGroupState, JobState,
};
use chola_controller::time::UtcTime;

fn at(secs: i64) -> UtcTime {
    UtcTime { secs, nanos: 0 }
}

fn group(id: u128, state: JobGroupState, last: i64) -> JobGroup {
    JobGroup {
        id,
        state,
        reserved_stages: vec![],
        reserved_worker_id: Some("w1".to_string()),
        status_reason: None,
        created_at: at(0),
        updated_at: at(0),
        completed_at: None,
        last_activity_at: at(last),
    }
}

fn job(id: &str, state: JobState) -> Job {
    Job {
        job_id: id.to_string(),
        stage_name: None,
        state,
        exit_code: None,
        assigned_worker: None,
        output: None,
        status_reason: None,
        cancel_reason: None,
        job_group_id: None,
        submitter_connection_id: None,
        created_at: at(0),
        updated_at: at(0),
        completed_at: None,
    }
}

#[test]
fn idle_is_never_negative() {
    assert_eq!(idle_seconds(at(100), at(160)), 60);
    assert_eq!(idle_seconds(at(100), at(50)), 0);
}

#[test]
fn stale_reservations_are_found() {
    let mut reg = JobGroupRegistry::new();
    reg.add_group(group(1, JobGroupState::Reserved, 0)); // idle 1000 > 600
    reg.add_group(group(2, JobGroupState::Reserved, 900)); // idle 100
    reg.add_group(group(3, JobGroupState::Running, 0)); // stalled, no stage running
    reg.add_group(group(4, JobGroupState::Running, 0)); // stage in progress
    reg.add_job_to_group(4, job("4-build", JobState::Running));
    reg.add_group(group(5, JobGroupState::Success, 0)); // finished
    let mut stale = reg.stale_groups(at(1000), 600, 300);
    stale.sort();
    assert_eq!(stale, vec![1u128, 3u128]);
    assert!(reg.is_stale(1, at(1000), 600, 300));
    assert!(!reg.is_stale(4, at(1000), 600, 300));
}

#[test]
fn time_until_timeout_counts_down() {
    let mut reg = JobGroupRegistry::new();
    reg.add_group(group(1, JobGroupState::Reserved, 100));
    reg.add_group(group(2, JobGroupState::Running, 100));
    reg.add_job_to_group(2, job("2-build", JobState::Assigned));
    assert_eq!(reg.time_until_timeout(1, at(400), 600, 300), 300);
    assert_eq!(reg.time_until_timeout(1, at(2000), 600, 300), 0);
    assert_eq!(reg.time_until_timeout(2, at(400), 600, 300), -1);
    assert_eq!(reg.time_until_timeout(99, at(400), 600, 300), -1);
}

#[test]
fn reap_reasons() {
    assert_eq!(reap_reason(true, 600, 300), "Reservation expired: no stage submitted within 600s");
    assert_eq!(reap_reason(false, 600, 300), "Reservation expired: no activity for 300s after last stage");
}

#[test]
fn reaping_fails_group_and_jobs() {
    let mut reg = JobGroupRegistry::new();
    reg.add_group(group(1, JobGroupState::Running, 0));
    reg.add_job_to_group(1, job("1-build", JobState::Queued));
    reg.add_job_to_group(1, job("1-lint", JobState::Success));
    let reason = reap_reason(false, 600, 300);
    reg.close_group(1, JobGroupState::Expired, &reason, at(50));
    let g = reg.get(1).unwrap();
    assert_eq!(g.state, JobGroupState::Failed);
    assert_eq!(g.status_reason.as_deref(), Some(reason.as_str()));
    assert_eq!(g.completed_at, Some(at(50)));
    let js = reg.get_jobs_for_group(1);
    assert_eq!(js[0].state, JobState::Failed);
    assert_eq!(js[0].status_reason.as_deref(), Some(reason.as_str()));
    assert_eq!(js[1].state, JobState::Success);
}

#[test]
fn cancel_refuses_finished_groups() {
    use_cancel();
}

fn use_cancel() {
    let mut reg = JobGroupRegistry::new();
    reg.add_group(group(1, JobGroupState::Success, 0));
    match reg.cancel_group(1, "alice", at(5)) {
        Err(chola_controller::api::error::ApiError::Conflict(m)) => {
            assert_eq!(m, "Job group already in terminal state")
        }
        _ => panic!("expected a conflict"),
    }
    reg.add_group(group(2, JobGroupState::Running, 0));
    reg.add_job_to_group(2, job("2-build", JobState::Running));
    assert!(reg.cancel_group(2, "alice", at(6)).is_ok());
    let g = reg.get(2).unwrap();
    assert_eq!(g.state, JobGroupState::Failed);
    assert_eq!(g.status_reason.as_deref(), Some("Cancelled via API by alice"));
    assert_eq!(reg.get_jobs_for_group(2)[0].state, JobState::Failed);
}

#[test]
fn counts_of_unfinished_and_running_groups() {
    let mut reg = JobGroupRegistry::new();
    reg.add_group(group(1, JobGroupState::Running, 0));
    reg.add_group(group(2, JobGroupState::Reserved, 0));
    reg.add_group(group(3, JobGroupState::Failed, 0));
    assert_eq!(reg.group_counts(), (2, 1));
}

fn group_at(id: u128, state: JobGroupState, created: i64, updated: i64) -> JobGroup {
    JobGroup {
        created_at: at(created),
        updated_at: at(updated),
        ..group(id, state, 0)
    }
}

#[test]
fn stuck_groups_are_running_four_hours_without_update() {
    let mut reg = JobGroupRegistry::new();
    reg.add_group(group_at(1, JobGroupState::Running, 0, 0)); // 14400 s: stuck
    reg.add_group(group_at(2, JobGroupState::Running, 0, 1)); // 14399 s
    reg.add_group(group_at(3, JobGroupState::Reserved, 0, 0)); // not running
    reg.add_group(group_at(4, JobGroupState::Failed, 0, 0)); // finished
    let stuck = reg.stuck_groups(at(14400));
    assert_eq!(stuck, vec![1u128]);
    assert!(reg.stuck_groups(at(14399)).is_empty());
}

#[test]
fn startup_expires_old_reservations_only() {
    let mut reg = JobGroupRegistry::new();
    reg.add_group(group_at(1, JobGroupState::Reserved, 0, 0)); // 3601 s old
    reg.add_group(group_at(2, JobGroupState::Reserved, 1, 1)); // exactly 3600 s
    reg.add_group(group_at(3, JobGroupState::Running, 0, 0)); // not reserved
    let expired = reg.expire_stale_on_startup(at(3601), 3600);
    assert_eq!(expired, vec![(1u128, Some("w1".to_string()))]);
    let g1 = reg.get(1).unwrap();
    assert_eq!(g1.state, JobGroupState::Expired);
    assert_eq!(
        g1.status_reason.as_deref(),
        Some("Reservation expired on startup (stale from previous run)")
    );
    assert_eq!(g1.updated_at, at(3601));
    assert_eq!(g1.completed_at, Some(at(3601)));
    assert_eq!(reg.get(2).unwrap().state, JobGroupState::Reserved);
    assert_eq!(reg.get(3).unwrap().state, JobGroupState::Running);
}

#[test]
fn startup_expiry_counts_nanoseconds() {
    let mut reg = JobGroupRegistry::new();
    reg.add_group(group_at(1, JobGroupState::Reserved, 0, 0));
    let just_after = UtcTime { secs: 10, nanos: 1 };
    assert_eq!(reg.expire_stale_on_startup(at(10), 10), vec![]);
    assert_eq!(reg.expire_stale_on_startup(just_after, 10).len(), 1);
}

#[test]
fn startup_timeout_beyond_chrono_range_means_four_hours() {
    let mut reg = JobGroupRegistry::new();
    reg.add_group(group_at(1, JobGroupState::Reserved, 0, 0));
    assert!(reg.expire_stale_on_startup(at(14400), u64::MAX).is_empty());
    assert_eq!(reg.expire_stale_on_startup(at(14401), u64::MAX).len(), 1);
}

#[test]
fn reserved_group_is_created_as_reserved() {
    let mut reg = JobGroupRegistry::new();
    reg.create_reserved_group(9, "w7", at(50));
    let g = reg.get(9).unwrap();
    assert_eq!(g.id, 9);
    assert_eq!(g.state, JobGroupState::Reserved);
    assert_eq!(g.reserved_worker_id.as_deref(), Some("w7"));
    assert!(g.reserved_stages.is_empty());
    assert_eq!(g.created_at, at(50));
    assert_eq!(g.updated_at, at(50));
    assert_eq!(g.last_activity_at, at(50));
    assert_eq!(g.completed_at, None);
    assert!(reg.get_jobs_for_group(9).is_empty());
}
