use chola_controller::job_group_registry::{Job, JobGroupState, JobState};
use chola_controller::job_registry::job_state_to_code;
use chola_controller::job_registry::job_state_from_code;
use chola_controller::monitoring::Metrics;
use chola_controller::reporting::{group_job_state_of, notification_event, record_report, reported_group};

#[test]
fn group_id_of_report() {
    assert_eq!(reported_group(""), None);
    assert_eq!(reported_group("not-a-uuid"), None);
    assert_eq!(
        reported_group("01234567-89ab-cdef-0123-456789abcdef"),
        Some(0x0123_4567_89ab_cdef_0123_4567_89ab_cdef)
    );
}

#[test]
fn reported_states_in_groups() {
    assert_eq!(group_job_state_of(4), JobState::Success);
    assert_eq!(group_job_state_of(3), JobState::Running);
    assert_eq!(group_job_state_of(1), JobState::Unknown);
}

#[test]
fn report_metrics() {
    let mut m = Metrics::new();
    record_report(&mut m, 5);
    assert_eq!((m.jobs_failed, m.stage_failures, m.active_stages), (1, 1, -1));
    record_report(&mut m, 3);
    assert_eq!((m.jobs_completed, m.jobs_failed, m.active_stages), (0, 1, -1));
    record_report(&mut m, 4);
    assert_eq!((m.jobs_completed, m.active_stages), (1, -2));
}

#[test]
fn notification_events() {
    assert_eq!(notification_event(JobGroupState::Success), "on_success");
    assert_eq!(notification_event(JobGroupState::Expired), "on_failure");
}

#[test]
fn state_codes_roundtrip() {
    for s in [JobState::Queued, JobState::Assigned, JobState::Running, JobState::Success, JobState::Failed, JobState::Cancelled, JobState::Unknown] {
        assert_eq!(job_state_from_code(job_state_to_code(s)), s);
    }
}

#[test]
fn reconnecting_worker_resumes_its_logs() {
    use_resumes();
}

fn use_resumes() {
    use_resumes_with(|id, worker| Job {
        job_id: id.to_string(),
        stage_name: None,
        state: JobState::Running,
        exit_code: None,
        assigned_worker: worker.map(|w| w.to_string()),
        output: None,
        status_reason: None,
        cancel_reason: None,
        job_group_id: None,
        submitter_connection_id: None,
        created_at: chola_controller::time::UtcTime { secs: 0, nanos: 0 },
        updated_at: chola_controller::time::UtcTime { secs: 0, nanos: 0 },
        completed_at: None,
    });
}

fn use_resumes_with(mk: impl Fn(&str, Option<&str>) -> chola_controller::job_group_registry::Job) {
    let mut jobs = chola_controller::job_registry::JobRegistry::new();
    jobs.add_job(mk("a", Some("w1")));
    jobs.add_job(mk("b", Some("w2")));
    jobs.add_job(mk("c", Some("w1")));
    let mut logs = chola_controller::log_aggregator::LogAggregator::new();
    logs.append_chunk("a", 0, b"hello");
    let running = vec!["a".to_string(), "b".to_string(), "c".to_string(), "gone".to_string()];
    let r = chola_controller::reporting::log_resumes(&jobs, &logs, "w1", &running);
    assert_eq!(r, vec![("a".to_string(), 5), ("c".to_string(), 0)]);
}

#[test]
fn reported_group_reads_every_uuid_form() {
    let v: u128 = 0x0123456789abcdef0123456789abcdef;
    assert_eq!(reported_group("0123456789ABCDEF0123456789abcdef"), Some(v));
    assert_eq!(reported_group("{01234567-89ab-cdef-0123-456789abcdef}"), Some(v));
    assert_eq!(reported_group("URN:uuid:01234567-89AB-cdef-0123-456789abcdef"), Some(v));
    assert_eq!(reported_group("01234567-89ab-cdef-0123-456789abcdeg"), None);
    assert_eq!(reported_group("01234567_89ab-cdef-0123-456789abcdef"), None);
    assert_eq!(reported_group("urn:uuid;01234567-89ab-cdef-0123-456789abcdef"), None);
}
