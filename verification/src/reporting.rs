//! What a worker's status report does besides updating the job: the state
//! the job takes in its group, the metrics it moves, the group it names and
//! the notification a finished group sends; and where a reconnecting worker
//! resumes its logs.
use crate::job_group_registry::{JobGroupState, JobState};
use crate::job_registry::{code_of_state, opt_text, state_of_code, JobRegistry};
use crate::log_aggregator::LogAggregator;
use crate::monitoring::{pred_i64, succ_u64, Metrics};
use crate::crypto::{hex_value, is_hex_char};
use crate::text::{chars_eq, chars_of};
use vstd::prelude::*;

verus! {

/// The number that the hex digits `s` spell, most significant first.
pub open spec fn hex_number(s: Seq<char>) -> int
    decreases s.len(),
{
    if s.len() == 0 {
        0
    } else {
        hex_number(s.drop_last()) * 16 + hex_value(s.last())
    }
}

/// The 32 hex digits of hyphenated UUID text (`8-4-4-4-12`), if `s` is one.
pub open spec fn hyphenated_digits(s: Seq<char>) -> Option<Seq<char>> {
    if s.len() == 36 && s[8] == '-' && s[13] == '-' && s[18] == '-' && s[23] == '-' {
        Some(s.subrange(0, 8) + s.subrange(9, 13) + s.subrange(14, 18) + s.subrange(19, 23) + s.subrange(24, 36))
    } else {
        None
    }
}

/// `c` is `p`, or its uppercase form when `p` is a lowercase letter.
pub open spec fn same_ignoring_case(c: char, p: char) -> bool {
    c == p || ('a' <= p <= 'z' && c as int == p as int - 32)
}

/// The 32 hex digits of the four forms `uuid::Uuid::parse_str` reads: plain
/// (32 digits), hyphenated, hyphenated in braces, and hyphenated after a
/// `urn:uuid:` prefix of either case.
pub open spec fn uuid_digits(s: Seq<char>) -> Option<Seq<char>> {
    if s.len() == 32 {
        Some(s)
    } else if s.len() == 36 {
        hyphenated_digits(s)
    } else if s.len() == 38 && s[0] == '{' && s[37] == '}' {
        hyphenated_digits(s.subrange(1, 37))
    } else if s.len() == 45 && forall|i: int| 0 <= i < 9 ==> same_ignoring_case(#[trigger] s[i], "urn:uuid:"@[i]) {
        hyphenated_digits(s.skip(9))
    } else {
        None
    }
}

/// The UUID that `uuid::Uuid::parse_str` reads from `s`, as its 128-bit
/// value: the digits of one of the four forms, of either case, taken most
/// significant first; none when `s` is not such text.
pub open spec fn uuid_parsed(s: Seq<char>) -> Option<u128> {
    match uuid_digits(s) {
        Some(d) => if forall|i: int| 0 <= i < d.len() ==> is_hex_char(#[trigger] d[i]) {
            Some(hex_number(d) as u128)
        } else {
            None
        },
        None => None,
    }
}

/// `uuid::Uuid::parse_str(s)`, as the 128-bit value. Trusted: the crate's
/// parser (`parser.rs`, `try_parse` and `decode_hex32`) accepts exactly the
/// forms [`uuid_parsed`] lists and builds the bytes from the digits in
/// order, which `as_u128` reads most significant first.
#[verifier::external_body]
pub(crate) fn parse_uuid(s: &str) -> (r: Option<u128>)
    ensures
        r == uuid_parsed(s@),
{
    match uuid::Uuid::parse_str(s) {
        Ok(u) => Some(u.as_u128()),
        Err(_) => None,
    }
}

/// The group a report names: none when the field is empty or not a UUID.
pub fn reported_group(job_group_id: &str) -> (r: Option<u128>)
    ensures
        r == if job_group_id@.len() == 0 {
            None
        } else {
            uuid_parsed(job_group_id@)
        },
{
    if chars_of(job_group_id).len() == 0 {
        None
    } else {
        parse_uuid(job_group_id)
    }
}

/// The state a reported job takes in its group: success, failure,
/// cancellation and running as reported (protocol numbers 4, 5, 6 and 3);
/// anything else is unknown.
pub open spec fn group_job_state(code: i32) -> JobState {
    if code == 4 {
        JobState::Success
    } else if code == 5 {
        JobState::Failed
    } else if code == 6 {
        JobState::Cancelled
    } else if code == 3 {
        JobState::Running
    } else {
        JobState::Unknown
    }
}

pub fn group_job_state_of(code: i32) -> (s: JobState)
    ensures
        s == group_job_state(code),
{
    if code == 4 {
        JobState::Success
    } else if code == 5 {
        JobState::Failed
    } else if code == 6 {
        JobState::Cancelled
    } else if code == 3 {
        JobState::Running
    } else {
        JobState::Unknown
    }
}

/// A reported outcome keeps its meaning in the group: a report of success,
/// failure, cancellation or running (their protocol numbers) gives the job
/// the state with that very number, the one a worker is sent for it; any
/// other report leaves the job unknown.
pub proof fn law_report_keeps_state(code: i32)
    ensures
        code == 3 || code == 4 || code == 5 || code == 6 ==> code_of_state(group_job_state(code)) == code
            && group_job_state(code) == state_of_code(code),
        !(code == 3 || code == 4 || code == 5 || code == 6) ==> group_job_state(code) == JobState::Unknown,
{
}

/// The metrics after a report of state `code`: a finished stage is counted
/// as completed, failed (also a stage failure) or cancelled, and leaves the
/// active stages.
pub open spec fn after_report(m: Metrics, code: i32) -> Metrics {
    if code == 4 {
        Metrics { jobs_completed: succ_u64(m.jobs_completed), active_stages: pred_i64(m.active_stages), ..m }
    } else if code == 5 {
        Metrics {
            jobs_failed: succ_u64(m.jobs_failed),
            stage_failures: succ_u64(m.stage_failures),
            active_stages: pred_i64(m.active_stages),
            ..m
        }
    } else if code == 6 {
        Metrics { jobs_cancelled: succ_u64(m.jobs_cancelled), active_stages: pred_i64(m.active_stages), ..m }
    } else {
        m
    }
}

/// Counts a report of state `code`.
pub fn record_report(metrics: &mut Metrics, code: i32)
    ensures
        *final(metrics) == after_report(*old(metrics), code),
{
    if code == 4 {
        metrics.inc_jobs_completed();
        metrics.dec_active_stages();
    } else if code == 5 {
        metrics.inc_jobs_failed();
        metrics.inc_stage_failures();
        metrics.dec_active_stages();
    } else if code == 6 {
        metrics.inc_jobs_cancelled();
        metrics.dec_active_stages();
    }
}

/// The notification event of a finished group.
pub fn notification_event(state: JobGroupState) -> (e: &'static str)
    ensures
        e@ == if state == JobGroupState::Success {
            "on_success"@
        } else {
            "on_failure"@
        },
{
    if state == JobGroupState::Success {
        "on_success"
    } else {
        "on_failure"
    }
}


// ── Reconnection ────────────────────────────────────────────────────────────
/// The log resume directives for `worker` reconnecting with the jobs
/// `running`: each job still assigned to it resumes from the offset the
/// controller's log stream has reached (0 when it has none); other jobs get
/// no directive.
pub open spec fn resumes(
    jobs: JobRegistry,
    logs: LogAggregator,
    worker: Seq<char>,
    running: Seq<Seq<char>>,
) -> Seq<(Seq<char>, u64)>
    decreases running.len(),
{
    if running.len() == 0 {
        Seq::empty()
    } else {
        let r = resumes(jobs, logs, worker, running.drop_last());
        let id = running.last();
        if jobs.job(id) matches Some(j) && opt_text(j.assigned_worker) == Some(worker) {
            r.push(
                (
                    id,
                    match logs.state(id) {
                        Some(st) => st.last_offset,
                        None => 0,
                    },
                ),
            )
        } else {
            r
        }
    }
}

pub open spec fn ids_view(v: Seq<String>) -> Seq<Seq<char>> {
    v.map_values(|s: String| s@)
}

pub open spec fn directives_view(v: Seq<(String, u64)>) -> Seq<(Seq<char>, u64)> {
    v.map_values(|d: (String, u64)| (d.0@, d.1))
}

/// Where a reconnecting worker resumes the logs of the jobs it reports
/// running, as (job id, offset) in the order reported.
pub fn log_resumes(
    jobs: &JobRegistry,
    logs: &LogAggregator,
    worker_id: &str,
    running: &Vec<String>,
) -> (r: Vec<(String, u64)>)
    requires
        jobs.wf(),
        logs.wf(),
    ensures
        directives_view(r@) == resumes(*jobs, *logs, worker_id@, ids_view(running@)),
{
    let w = chars_of(worker_id);
    let mut out: Vec<(String, u64)> = Vec::new();
    let mut i: usize = 0;
    while i < running.len()
        invariant
            i <= running.len(),
            jobs.wf(),
            logs.wf(),
            w@ == worker_id@,
            directives_view(out@) == resumes(*jobs, *logs, worker_id@, ids_view(running@).take(i as int)),
        decreases running.len() - i,
    {
        proof {
            assert(ids_view(running@).take(i + 1).drop_last() =~= ids_view(running@).take(i as int));
            assert(ids_view(running@).take(i + 1).last() == running@[i as int]@);
        }
        let id = running[i].as_str();
        let mine = match jobs.get(id) {
            Some(j) => match &j.assigned_worker {
                Some(a) => {
                    let ac = chars_of(a.as_str());
                    chars_eq(&ac, &w)
                },
                None => false,
            },
            None => false,
        };
        if mine {
            let off = logs.last_offset(id);
            let ghost before = directives_view(out@);
            out.push((running[i].clone(), off));
            assert(directives_view(out@) =~= before.push((running@[i as int]@, off)));
        }
        i += 1;
    }
    assert(ids_view(running@).take(i as int) =~= ids_view(running@));
    out
}

} // verus!
