//! Controller metrics and their Prometheus text rendering.
//!
//! Counters wrap around on overflow, as an atomic `fetch_add` does; gauges
//! move by one in either direction, also wrapping.
use crate::text::{dec, push_i64, push_str, push_u64};
use vstd::prelude::*;

verus! {

/// Prometheus-compatible counters and gauges of the controller.
pub struct Metrics {
    // counters (monotonically increasing, modulo wrap-around)
    pub jobs_submitted: u64,
    pub jobs_completed: u64,
    pub jobs_failed: u64,
    pub jobs_cancelled: u64,
    pub stages_submitted: u64,
    pub worker_reservations: u64,
    pub stage_failures: u64,
    // gauges
    pub active_builds: i64,
    pub active_stages: i64,
    pub connected_workers: i64,
}

/// `n + 1` with wrap-around at `u64::MAX`.
pub open spec fn succ_u64(n: u64) -> u64 {
    if n == u64::MAX {
        0
    } else {
        (n + 1) as u64
    }
}

/// `n + 1` with wrap-around at `i64::MAX`.
pub open spec fn succ_i64(n: i64) -> i64 {
    if n == i64::MAX {
        i64::MIN
    } else {
        (n + 1) as i64
    }
}

/// `n - 1` with wrap-around at `i64::MIN`.
pub open spec fn pred_i64(n: i64) -> i64 {
    if n == i64::MIN {
        i64::MAX
    } else {
        (n - 1) as i64
    }
}

/// `n` applications of [`pred_i64`] to `x`.
pub open spec fn pred_times(x: i64, n: nat) -> i64
    decreases n,
{
    if n == 0 {
        x
    } else {
        pred_i64(pred_times(x, (n - 1) as nat))
    }
}

/// All fields zero.
pub open spec fn is_zero(m: Metrics) -> bool {
    &&& m.jobs_submitted == 0
    &&& m.jobs_completed == 0
    &&& m.jobs_failed == 0
    &&& m.jobs_cancelled == 0
    &&& m.stages_submitted == 0
    &&& m.worker_reservations == 0
    &&& m.stage_failures == 0
    &&& m.active_builds == 0
    &&& m.active_stages == 0
    &&& m.connected_workers == 0
}

/// One metric in the text exposition format: its HELP and TYPE lines, then
/// the sample line.
pub open spec fn metric_block(name: Seq<char>, help: Seq<char>, kind: Seq<char>, value: Seq<char>) -> Seq<
    char,
> {
    "# HELP "@ + name + " "@ + help + "\n"@ + "# TYPE "@ + name + " "@ + kind + "\n"@ + name + " "@
        + value + "\n"@
}

/// The full exposition text of `m`, in the controller's fixed metric order.
pub open spec fn prometheus_text(m: Metrics) -> Seq<char> {
    metric_block(
        "ci_jobs_submitted_total"@,
        "Total number of jobs submitted"@,
        "counter"@,
        dec(m.jobs_submitted as int),
    ) + metric_block(
        "ci_jobs_completed_total"@,
        "Total number of jobs completed successfully"@,
        "counter"@,
        dec(m.jobs_completed as int),
    ) + metric_block(
        "ci_jobs_failed_total"@,
        "Total number of jobs that failed"@,
        "counter"@,
        dec(m.jobs_failed as int),
    ) + metric_block(
        "ci_jobs_cancelled_total"@,
        "Total number of jobs cancelled"@,
        "counter"@,
        dec(m.jobs_cancelled as int),
    ) + metric_block(
        "ci_stages_submitted_total"@,
        "Total number of stages submitted"@,
        "counter"@,
        dec(m.stages_submitted as int),
    ) + metric_block(
        "ci_worker_reservation_count"@,
        "Total number of worker reservations made"@,
        "counter"@,
        dec(m.worker_reservations as int),
    ) + metric_block(
        "ci_stage_failures_total"@,
        "Total number of stage failures"@,
        "counter"@,
        dec(m.stage_failures as int),
    ) + metric_block(
        "ci_active_builds"@,
        "Current number of active (running) job groups"@,
        "gauge"@,
        dec(m.active_builds as int),
    ) + metric_block(
        "ci_active_stages"@,
        "Current number of active (running) stages"@,
        "gauge"@,
        dec(m.active_stages as int),
    ) + metric_block(
        "ci_connected_workers"@,
        "Current number of connected workers"@,
        "gauge"@,
        dec(m.connected_workers as int),
    ) + metric_block("ci_up"@, "Controller process is running"@, "gauge"@, "1"@)
}

fn inc_u64(n: u64) -> (r: u64)
    ensures
        r == succ_u64(n),
{
    n.wrapping_add(1)
}

fn inc_i64(n: i64) -> (r: i64)
    ensures
        r == succ_i64(n),
{
    if n == i64::MAX {
        i64::MIN
    } else {
        n + 1
    }
}

fn dec_i64(n: i64) -> (r: i64)
    ensures
        r == pred_i64(n),
{
    if n == i64::MIN {
        i64::MAX
    } else {
        n - 1
    }
}

/// Appends the HELP and TYPE lines of a metric and the start of its sample
/// line, up to the value.
fn push_head(out: &mut String, name: &str, help: &str, kind: &str)
    ensures
        final(out)@ == old(out)@ + "# HELP "@ + name@ + " "@ + help@ + "\n"@ + "# TYPE "@ + name@
            + " "@ + kind@ + "\n"@ + name@ + " "@,
{
    push_str(out, "# HELP ");
    push_str(out, name);
    push_str(out, " ");
    push_str(out, help);
    push_str(out, "\n");
    push_str(out, "# TYPE ");
    push_str(out, name);
    push_str(out, " ");
    push_str(out, kind);
    push_str(out, "\n");
    push_str(out, name);
    push_str(out, " ");
}

fn push_counter(out: &mut String, name: &str, help: &str, value: u64)
    ensures
        final(out)@ == old(out)@ + metric_block(name@, help@, "counter"@, dec(value as int)),
{
    push_head(out, name, help, "counter");
    push_u64(out, value);
    push_str(out, "\n");
    assert(final(out)@ =~= old(out)@ + metric_block(name@, help@, "counter"@, dec(value as int)));
}

fn push_fixed(out: &mut String, name: &str, help: &str, kind: &str, value: &str)
    ensures
        final(out)@ == old(out)@ + metric_block(name@, help@, kind@, value@),
{
    push_head(out, name, help, kind);
    push_str(out, value);
    push_str(out, "\n");
    assert(final(out)@ =~= old(out)@ + metric_block(name@, help@, kind@, value@));
}

fn push_gauge(out: &mut String, name: &str, help: &str, value: i64)
    ensures
        final(out)@ == old(out)@ + metric_block(name@, help@, "gauge"@, dec(value as int)),
{
    push_head(out, name, help, "gauge");
    push_i64(out, value);
    push_str(out, "\n");
    assert(final(out)@ =~= old(out)@ + metric_block(name@, help@, "gauge"@, dec(value as int)));
}

impl Metrics {
    /// All counters and gauges at zero.
    pub fn new() -> (m: Self)
        ensures
            is_zero(m),
    {
        Metrics {
            jobs_submitted: 0,
            jobs_completed: 0,
            jobs_failed: 0,
            jobs_cancelled: 0,
            stages_submitted: 0,
            worker_reservations: 0,
            stage_failures: 0,
            active_builds: 0,
            active_stages: 0,
            connected_workers: 0,
        }
    }

    pub fn inc_jobs_submitted(&mut self)
        ensures
            *final(self) == (Metrics { jobs_submitted: succ_u64(old(self).jobs_submitted), ..*old(self) }),
    {
        self.jobs_submitted = inc_u64(self.jobs_submitted);
    }

    pub fn inc_jobs_completed(&mut self)
        ensures
            *final(self) == (Metrics { jobs_completed: succ_u64(old(self).jobs_completed), ..*old(self) }),
    {
        self.jobs_completed = inc_u64(self.jobs_completed);
    }

    pub fn inc_jobs_failed(&mut self)
        ensures
            *final(self) == (Metrics { jobs_failed: succ_u64(old(self).jobs_failed), ..*old(self) }),
    {
        self.jobs_failed = inc_u64(self.jobs_failed);
    }

    pub fn inc_jobs_cancelled(&mut self)
        ensures
            *final(self) == (Metrics { jobs_cancelled: succ_u64(old(self).jobs_cancelled), ..*old(self) }),
    {
        self.jobs_cancelled = inc_u64(self.jobs_cancelled);
    }

    pub fn inc_stages_submitted(&mut self)
        ensures
            *final(self) == (Metrics {
                stages_submitted: succ_u64(old(self).stages_submitted),
                ..*old(self)
            }),
    {
        self.stages_submitted = inc_u64(self.stages_submitted);
    }

    pub fn inc_worker_reservations(&mut self)
        ensures
            *final(self) == (Metrics {
                worker_reservations: succ_u64(old(self).worker_reservations),
                ..*old(self)
            }),
    {
        self.worker_reservations = inc_u64(self.worker_reservations);
    }

    pub fn inc_stage_failures(&mut self)
        ensures
            *final(self) == (Metrics { stage_failures: succ_u64(old(self).stage_failures), ..*old(self) }),
    {
        self.stage_failures = inc_u64(self.stage_failures);
    }

    pub fn inc_active_builds(&mut self)
        ensures
            *final(self) == (Metrics { active_builds: succ_i64(old(self).active_builds), ..*old(self) }),
    {
        self.active_builds = inc_i64(self.active_builds);
    }

    pub fn dec_active_builds(&mut self)
        ensures
            *final(self) == (Metrics { active_builds: pred_i64(old(self).active_builds), ..*old(self) }),
    {
        self.active_builds = dec_i64(self.active_builds);
    }

    pub fn inc_active_stages(&mut self)
        ensures
            *final(self) == (Metrics { active_stages: succ_i64(old(self).active_stages), ..*old(self) }),
    {
        self.active_stages = inc_i64(self.active_stages);
    }

    pub fn dec_active_stages(&mut self)
        ensures
            *final(self) == (Metrics { active_stages: pred_i64(old(self).active_stages), ..*old(self) }),
    {
        self.active_stages = dec_i64(self.active_stages);
    }

    /// `n` calls of [`Metrics::dec_active_builds`].
    pub fn dec_active_builds_by(&mut self, n: usize)
        ensures
            *final(self) == (Metrics { active_builds: pred_times(old(self).active_builds, n as nat), ..*old(self) }),
    {
        let mut i: usize = 0;
        while i < n
            invariant
                i <= n,
                *self == (Metrics { active_builds: pred_times(old(self).active_builds, i as nat), ..*old(self) }),
            decreases n - i,
        {
            self.dec_active_builds();
            i += 1;
        }
    }

    /// `n` calls of [`Metrics::dec_active_stages`].
    pub fn dec_active_stages_by(&mut self, n: usize)
        ensures
            *final(self) == (Metrics { active_stages: pred_times(old(self).active_stages, n as nat), ..*old(self) }),
    {
        let mut i: usize = 0;
        while i < n
            invariant
                i <= n,
                *self == (Metrics { active_stages: pred_times(old(self).active_stages, i as nat), ..*old(self) }),
            decreases n - i,
        {
            self.dec_active_stages();
            i += 1;
        }
    }

    pub fn set_connected_workers(&mut self, count: i64)
        ensures
            *final(self) == (Metrics { connected_workers: count, ..*old(self) }),
    {
        self.connected_workers = count;
    }

    /// Render all metrics in Prometheus text exposition format (version 0.0.4).
    pub fn to_prometheus(&self) -> (s: String)
        ensures
            s@ == prometheus_text(*self),
    {
        let mut out = String::new();
        push_counter(&mut out, "ci_jobs_submitted_total", "Total number of jobs submitted", self.jobs_submitted);
        assert(out@ =~= metric_block(
            "ci_jobs_submitted_total"@,
            "Total number of jobs submitted"@,
            "counter"@,
            dec(self.jobs_submitted as int),
        ));
        push_counter(
            &mut out,
            "ci_jobs_completed_total",
            "Total number of jobs completed successfully",
            self.jobs_completed,
        );
        push_counter(&mut out, "ci_jobs_failed_total", "Total number of jobs that failed", self.jobs_failed);
        push_counter(&mut out, "ci_jobs_cancelled_total", "Total number of jobs cancelled", self.jobs_cancelled);
        push_counter(
            &mut out,
            "ci_stages_submitted_total",
            "Total number of stages submitted",
            self.stages_submitted,
        );
        push_counter(
            &mut out,
            "ci_worker_reservation_count",
            "Total number of worker reservations made",
            self.worker_reservations,
        );
        push_counter(&mut out, "ci_stage_failures_total", "Total number of stage failures", self.stage_failures);
        push_gauge(
            &mut out,
            "ci_active_builds",
            "Current number of active (running) job groups",
            self.active_builds,
        );
        push_gauge(
            &mut out,
            "ci_active_stages",
            "Current number of active (running) stages",
            self.active_stages,
        );
        push_gauge(
            &mut out,
            "ci_connected_workers",
            "Current number of connected workers",
            self.connected_workers,
        );
        push_fixed(&mut out, "ci_up", "Controller process is running", "gauge", "1");
        out
    }
}

/// Job completion figures.
pub struct JobStats {
    pub queued: u64,
    pub running: u64,
    pub completed: u64,
    pub failed: u64,
}

/// The legacy monitoring handle; real figures live in [`Metrics`].
pub struct Monitoring;

impl Monitoring {
    pub fn new() -> (m: Self)
        ensures
            m == Monitoring,
    {
        Monitoring
    }

    /// Job completion figures; this handle keeps none, so all are zero.
    pub fn job_stats(&self) -> (s: JobStats)
        ensures
            s.queued == 0 && s.running == 0 && s.completed == 0 && s.failed == 0,
    {
        JobStats { queued: 0, running: 0, completed: 0, failed: 0 }
    }
}

} // verus!
