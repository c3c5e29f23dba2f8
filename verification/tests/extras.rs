use chola_controller::api::dto::{
    default_branch, validate_path_component, CreateTokenRequest, ResourceQuery, TriggerRequest,
};
use chola_controller::api::error::ApiError;
use chola_controller::api::scripts::default_lock_timeout;
use chola_controller::job_group_registry::{Job, JobGroup, JobGroupRegistry, JobGroupState, JobState};
use chola_controller::log_aggregator::{ChunkFate, LogAggregator, MAX_BUFFERED_BYTES_PER_JOB};
use chola_controller::query::error::ChqlError;
use chola_controller::text::i64_string;
use chola_controller::time::UtcTime;

fn at(secs: i64) -> UtcTime {
    UtcTime { secs, nanos: 0 }
}

fn job(id: &str, state: JobState) -> Job {
    Job {
        job_id: id.to_string(),
        stage_name: None,
        state,
        exit_code: None,
        assigned_worker: None,
        output: None,
        status_reason: None,
        cancel_reason: None,
        job_group_id: None,
        submitter_connection_id: None,
        created_at: at(0),
        updated_at: at(0),
        completed_at: None,
    }
}

fn group(id: u128, state: JobGroupState) -> JobGroup {
    JobGroup {
        id,
        state,
        reserved_stages: vec![],
        reserved_worker_id: Some("w1".to_string()),
        status_reason: None,
        created_at: at(0),
        updated_at: at(0),
        completed_at: None,
        last_activity_at: at(0),
    }
}

#[test]
fn request_defaults() {
    assert_eq!(default_branch(), "main");
    assert_eq!(default_lock_timeout(), 120);
    let t = CreateTokenRequest { name: "n".into(), scope: None, expires_at: None, max_uses: None };
    assert_eq!(t.scope_or_default(), "shared");
    let t = CreateTokenRequest { name: "n".into(), scope: Some("runner".into()), expires_at: None, max_uses: None };
    assert_eq!(t.scope_or_default(), "runner");
    let r = TriggerRequest { repo_name: "r".into(), branch: None, commit_sha: None, stages: None, priority: None, idempotency_key: None };
    assert_eq!(r.priority_or_default(), 0);
    assert_eq!(ResourceQuery { limit: None }.limit_or_default(), 20);
    assert_eq!(ResourceQuery { limit: Some(500) }.limit_or_default(), 100);
}

#[test]
fn artifact_path_components() {
    assert!(validate_path_component("name", "build.log").is_ok());
    for bad in ["../etc", "a/b", "a\\b", "x\0"] {
        match validate_path_component("name", bad) {
            Err(ApiError::BadRequest(m)) => assert_eq!(m, "Invalid name"),
            _ => panic!("expected a bad request for {bad:?}"),
        }
    }
}

#[test]
fn activity_completion_and_parallel_batches() {
    let mut reg = JobGroupRegistry::new();
    reg.add_group(group(1, JobGroupState::Running));
    reg.touch_activity(1, at(77));
    assert_eq!(reg.get(1).unwrap().last_activity_at, at(77));
    assert_eq!(reg.on_group_completed(1), None);
    reg.add_group(group(2, JobGroupState::Success));
    assert_eq!(reg.on_group_completed(2), Some("w1".to_string()));
    reg.add_job_to_group(1, job("1-a", JobState::Queued));
    reg.add_job_to_group(1, job("1-b", JobState::Running));
    reg.add_job_to_group(1, job("1-c", JobState::Queued));
    assert_eq!(reg.get_parallel_stages(1), vec![vec!["1-a".to_string()], vec!["1-c".to_string()]]);
}

#[test]
fn buffer_stays_bounded_without_disk() {
    let mut agg = LogAggregator::new();
    let big = vec![b'x'; MAX_BUFFERED_BYTES_PER_JOB];
    let r = agg.append_chunk("job", 0, &big);
    assert!(matches!(r.fate, ChunkFate::Stored));
    let r = agg.append_chunk("job", r.last_offset, b"more");
    assert!(matches!(r.fate, ChunkFate::Unbuffered));
    assert_eq!(r.last_offset, MAX_BUFFERED_BYTES_PER_JOB as u64 + 4);
    assert_eq!(agg.get_log_data("job").len(), MAX_BUFFERED_BYTES_PER_JOB);
}

#[test]
fn buffer_drains_oldest_when_disk_backed() {
    let mut agg = LogAggregator::with_log_dir("/tmp/logs".to_string());
    let big = vec![b'x'; MAX_BUFFERED_BYTES_PER_JOB];
    let r = agg.append_chunk("job", 0, &big);
    let r = agg.append_chunk("job", r.last_offset, b"tail");
    assert!(matches!(r.fate, ChunkFate::Stored));
    let data = agg.get_log_data("job");
    assert_eq!(data.len(), MAX_BUFFERED_BYTES_PER_JOB);
    assert!(data.ends_with(b"xtail"));
}

#[test]
fn query_error_text() {
    let e = ChqlError::at("bad token".to_string(), 4).with_hint("quote it".to_string());
    assert_eq!(e.to_text(), "ChQL error at position 4: bad token (hint: quote it)");
    assert_eq!(ChqlError::new("oops".to_string()).to_text(), "ChQL error: oops");
}

#[test]
fn decimal_text() {
    assert_eq!(i64_string(-42), "-42");
    assert_eq!(i64_string(0), "0");
    assert_eq!(i64_string(i64::MIN), "-9223372036854775808");
}
