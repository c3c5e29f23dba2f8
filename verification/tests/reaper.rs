use chola_controller::job_group_registry::{Job, JobGroup, JobGroupRegistry, JobGroupState, JobState};
use chola_controller::job_registry::JobRegistry;
use chola_controller::monitoring::Metrics;
use chola_controller::reaper::{handle_dead_worker, reap_stale_reservations};
use chola_controller::time::UtcTime;

fn at(secs: i64) -> UtcTime {
    UtcTime { secs, nanos: 0 }
}

fn job(id: &str, state: JobState, worker: &str) -> Job {
    Job {
        job_id: id.to_string(),
        stage_name: None,
        state,
        exit_code: None,
        assigned_worker: Some(worker.to_string()),
        output: None,
        status_reason: None,
        cancel_reason: None,
        job_group_id: None,
        submitter_connection_id: None,
        created_at: at(0),
        updated_at: at(0),
        completed_at: None,
    }
}

fn group(id: u128, state: JobGroupState, worker: &str, last: i64) -> JobGroup {
    JobGroup {
        id,
        state,
        reserved_stages: vec![],
        reserved_worker_id: Some(worker.to_string()),
        status_reason: None,
        created_at: at(0),
        updated_at: at(0),
        completed_at: None,
        last_activity_at: at(last),
    }
}

#[test]
fn dead_worker_fails_its_idle_groups_and_loses_its_jobs() {
    let mut jobs = JobRegistry::new();
    jobs.add_job(job("a", JobState::Running, "w1"));
    jobs.add_job(job("b", JobState::Running, "w2"));
    let mut groups = JobGroupRegistry::new();
    groups.add_group(group(1, JobGroupState::Running, "w1", 0)); // nothing pending: fails
    groups.add_group(group(2, JobGroupState::Running, "w1", 0)); // a queued job: migrates
    groups.add_job_to_group(2, job("2-x", JobState::Queued, "w1"));
    groups.add_job_to_group(1, job("1-x", JobState::Running, "w1"));
    groups.add_group(group(3, JobGroupState::Running, "w2", 0)); // other worker
    let mut m = Metrics::new();
    m.inc_active_builds();
    m.inc_active_builds();
    m.inc_active_stages();
    let (migrate, fail) = handle_dead_worker(&mut jobs, &mut groups, &mut m, "w1", at(9));
    assert_eq!(migrate, vec![2u128]);
    assert_eq!(fail, vec![1u128]);
    assert_eq!(jobs.get("a").unwrap().state, JobState::Unknown);
    assert_eq!(jobs.get("b").unwrap().state, JobState::Running);
    let g1 = groups.get(1).unwrap();
    assert_eq!(g1.state, JobGroupState::Failed);
    let j = &groups.get_jobs_for_group(1)[0];
    assert_eq!(j.state, JobState::Failed);
    assert_eq!(j.status_reason.as_deref(), Some("Worker w1 died"));
    assert_eq!(groups.get(2).unwrap().state, JobGroupState::Running);
    assert_eq!(groups.get(3).unwrap().state, JobGroupState::Running);
    assert_eq!(m.active_builds, 1);
    assert_eq!(m.active_stages, 0);
}

#[test]
fn reaper_expires_idle_reservations() {
    let mut groups = JobGroupRegistry::new();
    groups.add_group(group(1, JobGroupState::Reserved, "w1", 0)); // idle 1000 > 600
    groups.add_group(group(2, JobGroupState::Reserved, "w1", 900)); // idle 100
    groups.add_group(group(3, JobGroupState::Running, "w2", 0)); // stalled
    groups.add_job_to_group(3, job("3-x", JobState::Success, "w2"));
    let mut m = Metrics::new();
    let mut reaped = reap_stale_reservations(&mut groups, &mut m, at(1000), 600, 300);
    reaped.sort();
    assert_eq!(
        reaped,
        vec![(1u128, Some("w1".to_string())), (3u128, Some("w2".to_string()))]
    );
    let g1 = groups.get(1).unwrap();
    assert_eq!(g1.state, JobGroupState::Failed);
    assert_eq!(
        g1.status_reason.as_deref(),
        Some("Reservation expired: no stage submitted within 600s")
    );
    assert_eq!(
        groups.get(3).unwrap().status_reason.as_deref(),
        Some("Reservation expired: no activity for 300s after last stage")
    );
    assert_eq!(groups.get(2).unwrap().state, JobGroupState::Reserved);
    assert_eq!(m.active_builds, -2);
}
