use chola_controller::monitoring::{Metrics, Monitoring};

#[test]
fn prometheus_text_of_fresh_metrics() {
    let m = Metrics::new();
    let expected = "# HELP ci_jobs_submitted_total Total number of jobs submitted\n\
# TYPE ci_jobs_submitted_total counter\n\
ci_jobs_submitted_total 0\n\
# HELP ci_jobs_completed_total Total number of jobs completed successfully\n\
# TYPE ci_jobs_completed_total counter\n\
ci_jobs_completed_total 0\n\
# HELP ci_jobs_failed_total Total number of jobs that failed\n\
# TYPE ci_jobs_failed_total counter\n\
ci_jobs_failed_total 0\n\
# HELP ci_jobs_cancelled_total Total number of jobs cancelled\n\
# TYPE ci_jobs_cancelled_total counter\n\
ci_jobs_cancelled_total 0\n\
# HELP ci_stages_submitted_total Total number of stages submitted\n\
# TYPE ci_stages_submitted_total counter\n\
ci_stages_submitted_total 0\n\
# HELP ci_worker_reservation_count Total number of worker reservations made\n\
# TYPE ci_worker_reservation_count counter\n\
ci_worker_reservation_count 0\n\
# HELP ci_stage_failures_total Total number of stage failures\n\
# TYPE ci_stage_failures_total counter\n\
ci_stage_failures_total 0\n\
# HELP ci_active_builds Current number of active (running) job groups\n\
# TYPE ci_active_builds gauge\n\
ci_active_builds 0\n\
# HELP ci_active_stages Current number of active (running) stages\n\
# TYPE ci_active_stages gauge\n\
ci_active_stages 0\n\
# HELP ci_connected_workers Current number of connected workers\n\
# TYPE ci_connected_workers gauge\n\
ci_connected_workers 0\n\
# HELP ci_up Controller process is running\n\
# TYPE ci_up gauge\n\
ci_up 1\n";
    assert_eq!(m.to_prometheus(), expected);
}

#[test]
fn counters_and_gauges_move() {
    let mut m = Metrics::new();
    m.inc_jobs_submitted();
    m.inc_jobs_submitted();
    m.inc_active_builds();
    m.dec_active_builds();
    m.dec_active_builds();
    m.set_connected_workers(3);
    let text = m.to_prometheus();
    assert!(text.contains("\nci_jobs_submitted_total 2\n"));
    assert!(text.contains("\nci_active_builds -1\n"));
    assert!(text.contains("\nci_connected_workers 3\n"));
}

#[test]
fn legacy_job_stats_are_zero() {
    let s = Monitoring::new().job_stats();
    assert_eq!((s.queued, s.running, s.completed, s.failed), (0, 0, 0, 0));
}
