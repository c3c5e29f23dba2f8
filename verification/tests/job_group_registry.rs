use chola_controller::job_group_registry::{
    job_id_matches, transition_allowed, Job, JobGroup, JobGroupRegistry, JobGroupState, JobState,
};
use chola_controller::time::UtcTime;

fn at(secs: i64) -> UtcTime {
    UtcTime { secs, nanos: 0 }
}

fn job(id: &str, stage: Option<&str>, state: JobState) -> Job {
    Job {
        job_id: id.to_string(),
        stage_name: stage.map(|s| s.to_string()),
        state,
        exit_code: None,
        assigned_worker: None,
        output: None,
        status_reason: None,
        cancel_reason: None,
        job_group_id: None,
        submitter_connection_id: None,
        created_at: at(0),
        updated_at: at(0),
        completed_at: None,
    }
}

fn group(id: u128, state: JobGroupState, stages: &[&str], worker: Option<&str>) -> JobGroup {
    JobGroup {
        id,
        state,
        reserved_stages: stages.iter().map(|s| s.to_string()).collect(),
        reserved_worker_id: worker.map(|w| w.to_string()),
        status_reason: None,
        created_at: at(0),
        updated_at: at(0),
        completed_at: None,
        last_activity_at: at(0),
    }
}

#[test]
fn job_id_matches_raw_form() {
    let raw = "acab57ba-a068-478b-b755-f9299f3c7c66-vira-ci";
    assert!(job_id_matches(raw, raw));
}

#[test]
fn job_id_matches_v5_form() {
    // Recovery stores the v5-hashed form; the worker reports the raw form.
    let raw = "acab57ba-a068-478b-b755-f9299f3c7c66-vira-ci";
    let v5 = uuid::Uuid::new_v5(&uuid::Uuid::NAMESPACE_OID, raw.as_bytes()).to_string();
    assert_ne!(raw, v5);
    assert!(job_id_matches(&v5, raw));
}

#[test]
fn job_id_matches_rejects_unrelated() {
    let raw = "acab57ba-a068-478b-b755-f9299f3c7c66-vira-ci";
    let other_raw = "deadbeef-dead-beef-dead-beefdeadbeef-other";
    assert!(!job_id_matches(other_raw, raw));
}

#[test]
fn mark_stale_jobs_unknown_transitions_running_and_assigned() {
    let mut reg = JobGroupRegistry::new();
    let g1: u128 = 0x1111_2222_3333_4444_5555_6666_7777_8888;
    let g2: u128 = 0x9999_aaaa_bbbb_cccc_dddd_eeee_ffff_0000;

    reg.add_job_to_group(g1, job("j1", None, JobState::Running));
    reg.add_job_to_group(g1, job("j3", None, JobState::Success));
    reg.add_job_to_group(g2, job("j2", None, JobState::Assigned));

    let transitioned = reg.mark_stale_jobs_unknown(at(100));
    assert_eq!(transitioned, 2);

    let g1_jobs = reg.get_jobs_for_group(g1);
    assert_eq!(g1_jobs[0].state, JobState::Unknown);
    // Terminal jobs are untouched.
    assert_eq!(g1_jobs[1].state, JobState::Success);

    let g2_jobs = reg.get_jobs_for_group(g2);
    assert_eq!(g2_jobs[0].state, JobState::Unknown);
}

#[test]
fn update_job_in_group_matches_v5_stored_id() {
    // Post-restart state: the registry holds a job keyed by the v5-hashed
    // UUID, but the worker pushes status using the raw job id.
    let group_id: u128 = 0x0123_4567_89ab_cdef_0123_4567_89ab_cdef;
    let raw = format!("{}-vira-ci", uuid::Uuid::from_u128(group_id));
    let v5 = uuid::Uuid::new_v5(&uuid::Uuid::NAMESPACE_OID, raw.as_bytes()).to_string();

    let mut reg = JobGroupRegistry::new();
    reg.add_job_to_group(group_id, job(&v5, None, JobState::Running));

    reg.update_job_in_group(group_id, &raw, JobState::Success, Some(0), at(5));

    let stored = reg.get_jobs_for_group(group_id);
    assert_eq!(stored.len(), 1);
    assert_eq!(stored[0].state, JobState::Success);
    assert_eq!(stored[0].exit_code, Some(0));
}

#[test]
fn terminal_group_states_admit_no_transition() {
    assert!(transition_allowed(JobGroupState::Pending, JobGroupState::Reserved));
    assert!(!transition_allowed(JobGroupState::Success, JobGroupState::Running));
    assert!(!transition_allowed(JobGroupState::Failed, JobGroupState::Pending));
}

#[test]
fn unknown_group_has_no_jobs() {
    let reg = JobGroupRegistry::new();
    assert_eq!(reg.get_jobs_for_group(42).len(), 0);
    assert!(reg.get(42).is_none());
}

#[test]
fn group_completes_when_all_reserved_stages_succeed() {
    let mut reg = JobGroupRegistry::new();
    reg.add_group(group(7, JobGroupState::Running, &["build", "test"], Some("w1")));
    reg.add_job_to_group(7, job("7-build", Some("build"), JobState::Success));
    assert_eq!(reg.check_group_completion(7, at(10)), None);
    reg.add_job_to_group(7, job("7-test", Some("test"), JobState::Success));
    assert_eq!(reg.check_group_completion(7, at(11)), Some(JobGroupState::Success));
    assert_eq!(reg.get(7).unwrap().state, JobGroupState::Success);
}

#[test]
fn group_fails_when_a_job_fails() {
    let mut reg = JobGroupRegistry::new();
    reg.add_group(group(8, JobGroupState::Running, &["build", "test"], Some("w1")));
    let mut j = job("8-build", Some("build"), JobState::Failed);
    j.exit_code = Some(2);
    reg.add_job_to_group(8, j);
    reg.add_job_to_group(8, job("8-test", Some("test"), JobState::Success));
    assert_eq!(reg.check_group_completion(8, at(10)), Some(JobGroupState::Failed));
}

#[test]
fn worker_death_splits_groups() {
    let mut reg = JobGroupRegistry::new();
    reg.add_group(group(1, JobGroupState::Running, &["build"], Some("w1")));
    reg.add_group(group(2, JobGroupState::Reserved, &["build"], Some("w1")));
    reg.add_group(group(3, JobGroupState::Running, &["build"], Some("w2")));
    reg.add_job_to_group(1, job("1-build", Some("build"), JobState::Running));
    reg.add_job_to_group(2, job("2-build", Some("build"), JobState::Queued));
    let (to_migrate, to_fail) = reg.handle_worker_death("w1");
    assert_eq!(to_fail, vec![1u128]);
    assert_eq!(to_migrate, vec![2u128]);
    let mut on_w1 = reg.get_groups_for_worker("w1");
    on_w1.sort();
    assert_eq!(on_w1, vec![1u128, 2u128]);
}

#[test]
fn migrate_moves_group_to_new_worker() {
    let mut reg = JobGroupRegistry::new();
    reg.add_group(group(2, JobGroupState::Reserved, &["build"], Some("w1")));
    reg.migrate_group(2, "w9", at(3));
    assert_eq!(reg.get(2).unwrap().reserved_worker_id.as_deref(), Some("w9"));
}

#[test]
fn evict_terminal_drops_old_finished_groups() {
    let mut reg = JobGroupRegistry::new();
    let mut g = group(5, JobGroupState::Success, &[], None);
    g.completed_at = Some(at(10));
    reg.add_group(g);
    reg.add_group(group(6, JobGroupState::Running, &[], None));
    assert_eq!(reg.evict_terminal(at(20)), 1);
    assert!(reg.get(5).is_none());
    assert!(reg.get(6).is_some());
}

#[test]
fn stage_waits_for_its_dependencies() {
    let mut reg = JobGroupRegistry::new();
    reg.add_group(group(4, JobGroupState::Running, &["build", "test"], Some("w1")));
    reg.add_job_to_group(4, job("4-build", Some("build"), JobState::Running));
    let deps = vec!["build".to_string()];
    assert!(!reg.can_submit_stage(4, "test", &deps));
    reg.update_job_in_group(4, "4-build", JobState::Success, Some(0), at(9));
    assert!(reg.can_submit_stage(4, "test", &deps));
}
