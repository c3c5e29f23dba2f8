use chola_controller::job_group_registry::{Job, JobGroup, JobGroupRegistry, JobGroupState, JobState};
use chola_controller::stages::{
    merge_variables, stage_command, stage_info, stage_infos, stage_job_id, RepoVariable, SubmitRefusal,
};
use chola_controller::time::UtcTime;

fn at(secs: i64) -> UtcTime {
    UtcTime { secs, nanos: 0 }
}

fn job(id: &str, stage: &str) -> Job {
    Job {
        job_id: id.to_string(),
        stage_name: Some(stage.to_string()),
        state: JobState::Queued,
        exit_code: None,
        assigned_worker: None,
        output: None,
        status_reason: None,
        cancel_reason: None,
        job_group_id: None,
        submitter_connection_id: None,
        created_at: at(0),
        updated_at: at(0),
        completed_at: None,
    }
}

#[test]
fn job_id_defaults_to_group_and_stage() {
    let g: u128 = 0x0123_4567_89ab_cdef_0123_4567_89ab_cdef;
    assert_eq!(stage_job_id(g, "build", ""), "01234567-89ab-cdef-0123-456789abcdef-build");
    assert_eq!(stage_job_id(g, "build", "custom-id"), "custom-id");
}

#[test]
fn command_defaults_to_echo() {
    assert_eq!(stage_command("test", ""), "echo 'Running stage: test'");
    assert_eq!(stage_command("test", "make check"), "make check");
}

fn var(name: &str, value: &str, secret: bool) -> RepoVariable {
    RepoVariable { name: name.to_string(), value: value.to_string(), is_secret: secret }
}

#[test]
fn variables_fill_gaps_and_mark_secrets() {
    let env = vec![("CI".to_string(), "1".to_string())];
    let vars = vec![var("CI", "0", false), var("TOKEN", "s3cr3t", true), var("TOKEN", "other", true), var("MODE", "fast", false)];
    let (merged, secrets) = merge_variables(&env, &vars);
    let got: Vec<(&str, &str)> = merged.iter().map(|(k, v)| (k.as_str(), v.as_str())).collect();
    assert_eq!(got, vec![("CI", "1"), ("TOKEN", "s3cr3t"), ("MODE", "fast")]);
    assert_eq!(secrets, vec!["TOKEN".to_string(), "TOKEN".to_string()]);
}

#[test]
fn reservation_stage_list() {
    let deps = vec![("test".to_string(), vec!["build".to_string()])];
    let info = stage_info("test", &deps);
    assert_eq!(info.stage_name, "test");
    assert_eq!(info.depends_on, vec!["build".to_string()]);
    assert_eq!(info.job_type, "common");
    assert_eq!((info.required_cpu, info.max_duration_secs), (0, 0));
    let all = stage_infos(&vec!["build".to_string(), "test".to_string()], &deps);
    assert_eq!(all.len(), 2);
    assert!(all[0].depends_on.is_empty());
    assert_eq!(all[1].depends_on, vec!["build".to_string()]);
}

fn group(id: u128, state: JobGroupState, worker: Option<&str>) -> JobGroup {
    JobGroup {
        id,
        state,
        reserved_stages: vec![],
        reserved_worker_id: worker.map(|w| w.to_string()),
        status_reason: None,
        created_at: at(0),
        updated_at: at(0),
        completed_at: None,
        last_activity_at: at(0),
    }
}

#[test]
fn submission_targets_reserved_worker_and_starts_group() {
    let mut reg = JobGroupRegistry::new();
    assert!(matches!(reg.stage_target(1), Err(SubmitRefusal::GroupNotFound)));
    reg.add_group(group(1, JobGroupState::Reserved, None));
    assert!(matches!(reg.stage_target(1), Err(SubmitRefusal::NoReservedWorker)));
    reg.add_group(group(2, JobGroupState::Reserved, Some("w1")));
    assert_eq!(reg.stage_target(2).ok(), Some("w1".to_string()));
    reg.submit_stage_job(2, job("2-build", "build"), at(5));
    assert_eq!(reg.get(2).unwrap().state, JobGroupState::Running);
    assert_eq!(reg.get_jobs_for_group(2).len(), 1);
    reg.submit_stage_job(2, job("2-test", "test"), at(6));
    assert_eq!(reg.get(2).unwrap().state, JobGroupState::Running);
    assert_eq!(reg.get_jobs_for_group(2).len(), 2);
}
