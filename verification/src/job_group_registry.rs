//! In-memory registry of job groups (one build of a repository) and their
//! jobs (one per submitted stage): state transitions, completion, worker
//! death and migration, and stage dependencies.
use crate::text::{chars_eq, chars_of, dec, dec_digits, push_i64, push_str, push_u64};
use crate::time::{elapsed_nanos, elapsed_nanoseconds, elapsed_secs, elapsed_seconds, UtcTime};
use crate::api::error::{ApiError, ApiErrorV};
use crate::crypto::hex_lower;
use vstd::arithmetic::power::pow;
use vstd::prelude::*;
use vstd::utf8::encode_utf8;

verus! {

#[derive(PartialEq, Eq, Structural, Clone, Copy, Debug)]
pub enum JobState {
    Queued,
    Assigned,
    Running,
    Success,
    Failed,
    Cancelled,
    Unknown,
}

#[derive(PartialEq, Eq, Structural, Clone, Copy, Debug)]
pub enum JobGroupState {
    Pending,
    Reserved,
    Running,
    Success,
    Failed,
    Cancelled,
    Expired,
}

/// A job: one stage of a group, on a worker.
pub struct Job {
    pub job_id: String,
    pub stage_name: Option<String>,
    pub state: JobState,
    pub exit_code: Option<i32>,
    pub assigned_worker: Option<String>,
    pub output: Option<String>,
    pub status_reason: Option<String>,
    /// Why cancellation was asked for; the state follows when the worker reports.
    pub cancel_reason: Option<String>,
    /// The group the job belongs to; none for a job submitted on its own.
    pub job_group_id: Option<u128>,
    /// The connection of the client that submitted the job.
    pub submitter_connection_id: Option<String>,
    pub created_at: UtcTime,
    pub updated_at: UtcTime,
    pub completed_at: Option<UtcTime>,
}

/// A job group: one build, reserved on a worker for a set of stages.
pub struct JobGroup {
    pub id: u128,
    pub state: JobGroupState,
    pub reserved_stages: Vec<String>,
    pub reserved_worker_id: Option<String>,
    pub status_reason: Option<String>,
    pub created_at: UtcTime,
    pub updated_at: UtcTime,
    pub completed_at: Option<UtcTime>,
    pub last_activity_at: UtcTime,
}

pub open spec fn job_terminal(s: JobState) -> bool {
    s == JobState::Success || s == JobState::Failed || s == JobState::Cancelled || s
        == JobState::Unknown
}

pub open spec fn group_terminal(s: JobGroupState) -> bool {
    s == JobGroupState::Success || s == JobGroupState::Failed || s == JobGroupState::Cancelled || s
        == JobGroupState::Expired
}

impl JobState {
    pub fn is_terminal(&self) -> (b: bool)
        ensures
            b == job_terminal(*self),
    {
        match self {
            JobState::Success | JobState::Failed | JobState::Cancelled | JobState::Unknown => true,
            _ => false,
        }
    }
}

impl JobGroupState {
    pub fn is_terminal(&self) -> (b: bool)
        ensures
            b == group_terminal(*self),
    {
        match self {
            JobGroupState::Success | JobGroupState::Failed | JobGroupState::Cancelled
            | JobGroupState::Expired => true,
            _ => false,
        }
    }
}

/// The group transitions the registry accepts: to `Cancelled`, `Failed` or
/// `Expired` from anywhere; otherwise only forward along
/// `Pending -> Reserved -> Running -> Success`.
pub open spec fn transition_ok(from: JobGroupState, to: JobGroupState) -> bool {
    ||| to == JobGroupState::Cancelled
    ||| to == JobGroupState::Failed
    ||| to == JobGroupState::Expired
    ||| from == JobGroupState::Pending && to == JobGroupState::Reserved
    ||| from == JobGroupState::Reserved && to == JobGroupState::Running
    ||| from == JobGroupState::Running && to == JobGroupState::Success
}

/// A finished group stays finished: from a terminal state the registry
/// only accepts moves to other terminal states.
pub proof fn law_terminal_stays_terminal(from: JobGroupState, to: JobGroupState)
    requires
        group_terminal(from),
        transition_ok(from, to),
    ensures
        group_terminal(to),
{
}

/// A group succeeds only from running, runs only once reserved, and is
/// reserved only from pending.
pub proof fn law_forward_path(from: JobGroupState, to: JobGroupState)
    requires
        transition_ok(from, to),
    ensures
        to == JobGroupState::Success ==> from == JobGroupState::Running,
        to == JobGroupState::Running ==> from == JobGroupState::Reserved,
        to == JobGroupState::Reserved ==> from == JobGroupState::Pending,
        to != JobGroupState::Pending,
{
}

pub fn transition_allowed(from: JobGroupState, to: JobGroupState) -> (b: bool)
    ensures
        b == transition_ok(from, to),
{
    match (from, to) {
        (_, JobGroupState::Cancelled) => true,
        (_, JobGroupState::Failed) => true,
        (_, JobGroupState::Expired) => true,
        (JobGroupState::Pending, JobGroupState::Reserved) => true,
        (JobGroupState::Reserved, JobGroupState::Running) => true,
        (JobGroupState::Running, JobGroupState::Success) => true,
        _ => false,
    }
}

// ── Job ids ─────────────────────────────────────────────────────────────────
/// The 16 bytes of a UUID held as `id`, most significant first.
pub open spec fn uuid_bytes(id: u128) -> Seq<u8> {
    Seq::new(16, |k: int| ((id as int / pow(256, (15 - k) as nat)) % 256) as u8)
}

/// The hyphenated lowercase text of the UUID `id` (8-4-4-4-12 hex digits).
pub open spec fn uuid_text(id: u128) -> Seq<char> {
    let h = hex_lower(uuid_bytes(id));
    h.subrange(0, 8) + "-"@ + h.subrange(8, 12) + "-"@ + h.subrange(12, 16) + "-"@ + h.subrange(16, 20) + "-"@
        + h.subrange(20, 32)
}

/// `uuid::Uuid::from_u128(id).to_string()`. Trusted: as the crate documents,
/// `from_u128` takes the bytes most significant first and the text is the
/// hyphenated lowercase form.
#[verifier::external_body]
pub(crate) fn uuid_string(id: u128) -> (r: String)
    ensures
        r@ == uuid_text(id),
{
    uuid::Uuid::from_u128(id).to_string()
}

/// The text of `Uuid::new_v5(&Uuid::NAMESPACE_OID, name)`.
pub uninterp spec fn oid_v5_text(name: Seq<u8>) -> Seq<char>;

/// `uuid::Uuid::new_v5(&Uuid::NAMESPACE_OID, name).to_string()`. Trusted: the
/// id is named, not computed here; its text is the 36-character hyphenated
/// form.
#[verifier::external_body]
fn oid_v5(name: &[u8]) -> (r: String)
    ensures
        r@ == oid_v5_text(name@),
        r@.len() == 36,
{
    uuid::Uuid::new_v5(&uuid::Uuid::NAMESPACE_OID, name).to_string()
}

/// A stored job id matches a worker-reported one in raw form, or in the
/// name-based (v5, OID namespace) UUID form that recovery stores.
pub open spec fn id_matches(stored: Seq<char>, lookup_raw: Seq<char>) -> bool {
    stored == lookup_raw || stored == oid_v5_text(encode_utf8(lookup_raw))
}

pub fn job_id_matches(stored: &str, lookup_raw: &str) -> (b: bool)
    ensures
        b == id_matches(stored@, lookup_raw@),
        stored@ != lookup_raw@ ==> oid_v5_text(encode_utf8(lookup_raw@)).len() == 36,
{
    let s = chars_of(stored);
    let l = chars_of(lookup_raw);
    if chars_eq(&s, &l) {
        return true;
    }
    let v5 = oid_v5(lookup_raw.as_bytes());
    let vc = chars_of(v5.as_str());
    chars_eq(&s, &vc)
}

// ── One group's jobs ────────────────────────────────────────────────────────
pub open spec fn opt_text(s: Option<String>) -> Option<Seq<char>> {
    match s {
        Some(x) => Some(x@),
        None => None,
    }
}

pub open spec fn has_state(jobs: Seq<Job>, s: JobState) -> bool {
    exists|i: int| 0 <= i < jobs.len() && (#[trigger] jobs[i]).state == s
}

/// Index of the first job in state `s`.
pub open spec fn first_in_state(jobs: Seq<Job>, s: JobState, i: int) -> bool {
    0 <= i < jobs.len() && jobs[i].state == s && forall|j: int| 0 <= j < i ==> (#[trigger] jobs[j]).state != s
}

/// Why a group failed, from its first failed job.
pub open spec fn failure_reason(j: Job) -> Seq<char> {
    "Stage "@ + match opt_text(j.stage_name) {
        Some(n) => n,
        None => "unknown"@,
    } + " failed (exit code "@ + dec(
        match j.exit_code {
            Some(c) => c as int,
            None => -1,
        },
    ) + ")"@
}

/// Some job ran stage `stage`.
pub open spec fn stage_submitted(jobs: Seq<Job>, stage: Seq<char>) -> bool {
    exists|i: int| 0 <= i < jobs.len() && opt_text((#[trigger] jobs[i]).stage_name) == Some(stage)
}

/// The state a group reaches on its jobs' outcomes, with the reason:
/// failed or cancelled as soon as any job is; successful once every job is
/// terminal and every reserved stage has a job; otherwise none yet.
pub open spec fn completion(state: JobGroupState, reserved: Seq<String>, jobs: Seq<Job>) -> Option<
    (JobGroupState, Seq<char>),
> {
    if group_terminal(state) || jobs.len() == 0 {
        None
    } else if has_state(jobs, JobState::Failed) {
        let i = choose|i: int| first_in_state(jobs, JobState::Failed, i);
        Some((JobGroupState::Failed, failure_reason(jobs[i])))
    } else if has_state(jobs, JobState::Cancelled) {
        Some((JobGroupState::Cancelled, "Cancelled: stage was cancelled"@))
    } else if exists|i: int| 0 <= i < jobs.len() && !job_terminal((#[trigger] jobs[i]).state) {
        None
    } else if exists|k: int| 0 <= k < reserved.len() && !stage_submitted(jobs, (#[trigger] reserved[k])@) {
        None
    } else {
        Some((JobGroupState::Success, "All stages completed successfully"@))
    }
}

/// How a group's outcome follows its jobs' outcomes: one failed job fails
/// the group, for the reason of the first; otherwise one cancelled job cancels it; the group succeeds only
/// when every job succeeded or ended unknown, none failed or was cancelled,
/// and every reserved stage ran. A finished group, or one without jobs, has
/// no new outcome.
pub proof fn law_completion_outcomes(state: JobGroupState, reserved: Seq<String>, jobs: Seq<Job>)
    ensures
        (group_terminal(state) || jobs.len() == 0) ==> completion(state, reserved, jobs) is None,
        !group_terminal(state) && (exists|i: int| 0 <= i < jobs.len() && (#[trigger] jobs[i]).state
            == JobState::Failed) ==> (completion(state, reserved, jobs) matches Some(c) && c.0
            == JobGroupState::Failed),
        !group_terminal(state) && (forall|i: int| 0 <= i < jobs.len() ==> (#[trigger] jobs[i]).state
            != JobState::Failed) && (exists|i: int| 0 <= i < jobs.len() && (#[trigger] jobs[i]).state
            == JobState::Cancelled) ==> completion(state, reserved, jobs) == Some(
            (JobGroupState::Cancelled, "Cancelled: stage was cancelled"@),
        ),
        (completion(state, reserved, jobs) matches Some(c) && c.0 == JobGroupState::Success) ==> (forall|i: int|
            0 <= i < jobs.len() ==> (#[trigger] jobs[i]).state == JobState::Success || jobs[i].state
                == JobState::Unknown) && (forall|k: int|
            0 <= k < reserved.len() ==> stage_submitted(jobs, (#[trigger] reserved[k])@)),
        completion(state, reserved, jobs) matches Some(c) ==> c.0 == JobGroupState::Failed || c.0
            == JobGroupState::Cancelled || c.0 == JobGroupState::Success,
        forall|i: int|
            !group_terminal(state) && #[trigger] first_in_state(jobs, JobState::Failed, i) ==> completion(
                state,
                reserved,
                jobs,
            ) == Some((JobGroupState::Failed, failure_reason(jobs[i]))),
{
    assert forall|i: int|
        !group_terminal(state) && #[trigger] first_in_state(jobs, JobState::Failed, i) implies completion(
            state,
            reserved,
            jobs,
        ) == Some((JobGroupState::Failed, failure_reason(jobs[i]))) by {
        assert(has_state(jobs, JobState::Failed));
        let c = choose|c: int| first_in_state(jobs, JobState::Failed, c);
        if c < i {
            assert(jobs[c].state != JobState::Failed);
        }
        if i < c {
            assert(jobs[i].state != JobState::Failed);
        }
    }
    if completion(state, reserved, jobs) matches Some(c) && c.0 == JobGroupState::Success {
        assert forall|i: int| 0 <= i < jobs.len() implies (#[trigger] jobs[i]).state == JobState::Success
            || jobs[i].state == JobState::Unknown by {
            assert(job_terminal(jobs[i].state));
            assert(jobs[i].state != JobState::Failed);
            assert(jobs[i].state != JobState::Cancelled);
        }
    }
}

fn first_with_state(jobs: &Vec<Job>, s: JobState) -> (r: Option<usize>)
    ensures
        match r {
            Some(i) => first_in_state(jobs@, s, i as int),
            None => !has_state(jobs@, s),
        },
{
    let mut i: usize = 0;
    while i < jobs.len()
        invariant
            i <= jobs.len(),
            forall|j: int| 0 <= j < i ==> (#[trigger] jobs@[j]).state != s,
        decreases jobs.len() - i,
    {
        if jobs[i].state == s {
            return Some(i);
        }
        i += 1;
    }
    None
}

fn reason_for(j: &Job) -> (r: String)
    ensures
        r@ == failure_reason(*j),
{
    let mut m = String::new();
    push_str(&mut m, "Stage ");
    match &j.stage_name {
        Some(n) => push_str(&mut m, n.as_str()),
        None => push_str(&mut m, "unknown"),
    }
    push_str(&mut m, " failed (exit code ");
    let code: i64 = match j.exit_code {
        Some(c) => c as i64,
        None => -1,
    };
    push_i64(&mut m, code);
    push_str(&mut m, ")");
    assert(m@ =~= failure_reason(*j));
    m
}

fn stage_ran(jobs: &Vec<Job>, stage: &String) -> (b: bool)
    ensures
        b == stage_submitted(jobs@, stage@),
{
    let s = chars_of(stage.as_str());
    let mut i: usize = 0;
    while i < jobs.len()
        invariant
            i <= jobs.len(),
            s@ == stage@,
            forall|j: int| 0 <= j < i ==> opt_text((#[trigger] jobs@[j]).stage_name) != Some(stage@),
        decreases jobs.len() - i,
    {
        match &jobs[i].stage_name {
            Some(n) => {
                let nc = chars_of(n.as_str());
                if chars_eq(&nc, &s) {
                    return true;
                }
            },
            None => {},
        }
        i += 1;
    }
    false
}

/// The outcome [`completion`] describes.
pub fn group_completion(state: JobGroupState, reserved: &Vec<String>, jobs: &Vec<Job>) -> (r: Option<
    (JobGroupState, String),
>)
    ensures
        match completion(state, reserved@, jobs@) {
            Some((s, m)) => r matches Some(x) && x.0 == s && x.1@ == m,
            None => r is None,
        },
{
    if state.is_terminal() || jobs.len() == 0 {
        return None;
    }
    match first_with_state(jobs, JobState::Failed) {
        Some(i) => {
            proof {
                let c = choose|c: int| first_in_state(jobs@, JobState::Failed, c);
                assert(c == i as int) by {
                    if c < i {
                        assert(jobs@[c].state != JobState::Failed);
                    } else if c > i {
                        assert(jobs@[i as int].state != JobState::Failed);
                    }
                }
            }
            return Some((JobGroupState::Failed, reason_for(&jobs[i])));
        },
        None => {},
    }
    match first_with_state(jobs, JobState::Cancelled) {
        Some(_) => return Some((JobGroupState::Cancelled, String::from_str("Cancelled: stage was cancelled"))),
        None => {},
    }
    let mut i: usize = 0;
    while i < jobs.len()
        invariant
            i <= jobs.len(),
            !group_terminal(state),
            jobs.len() > 0,
            !has_state(jobs@, JobState::Failed),
            !has_state(jobs@, JobState::Cancelled),
            forall|j: int| 0 <= j < i ==> job_terminal((#[trigger] jobs@[j]).state),
        decreases jobs.len() - i,
    {
        if !jobs[i].state.is_terminal() {
            assert(!job_terminal(jobs@[i as int].state));
            return None;
        }
        i += 1;
    }
    let mut k: usize = 0;
    while k < reserved.len()
        invariant
            k <= reserved.len(),
            !group_terminal(state),
            jobs.len() > 0,
            !has_state(jobs@, JobState::Failed),
            !has_state(jobs@, JobState::Cancelled),
            forall|j: int| 0 <= j < jobs.len() ==> job_terminal((#[trigger] jobs@[j]).state),
            forall|j: int| 0 <= j < k ==> stage_submitted(jobs@, (#[trigger] reserved@[j])@),
        decreases reserved.len() - k,
    {
        if !stage_ran(jobs, &reserved[k]) {
            assert(!stage_submitted(jobs@, reserved@[k as int]@));
            return None;
        }
        k += 1;
    }
    Some((JobGroupState::Success, String::from_str("All stages completed successfully")))
}

/// Stages named in `depends_on` have each a successful job.
pub open spec fn deps_done(jobs: Seq<Job>, depends_on: Seq<String>) -> bool {
    forall|k: int|
        0 <= k < depends_on.len() ==> exists|i: int|
            0 <= i < jobs.len() && opt_text((#[trigger] jobs[i]).stage_name) == Some(
                (#[trigger] depends_on[k])@,
            ) && jobs[i].state == JobState::Success
}

fn stage_succeeded(jobs: &Vec<Job>, stage: &String) -> (b: bool)
    ensures
        b == exists|i: int|
            0 <= i < jobs.len() && opt_text((#[trigger] jobs@[i]).stage_name) == Some(stage@)
                && jobs@[i].state == JobState::Success,
{
    let s = chars_of(stage.as_str());
    let mut i: usize = 0;
    while i < jobs.len()
        invariant
            i <= jobs.len(),
            s@ == stage@,
            forall|j: int|
                0 <= j < i ==> !(opt_text((#[trigger] jobs@[j]).stage_name) == Some(stage@) && jobs@[j].state
                    == JobState::Success),
        decreases jobs.len() - i,
    {
        match &jobs[i].stage_name {
            Some(n) => {
                let nc = chars_of(n.as_str());
                if chars_eq(&nc, &s) && jobs[i].state == JobState::Success {
                    return true;
                }
            },
            None => {},
        }
        i += 1;
    }
    false
}

fn all_deps_done(jobs: &Vec<Job>, depends_on: &Vec<String>) -> (b: bool)
    ensures
        b == deps_done(jobs@, depends_on@),
{
    let mut k: usize = 0;
    while k < depends_on.len()
        invariant
            k <= depends_on.len(),
            deps_done(jobs@, depends_on@.subrange(0, k as int)),
        decreases depends_on.len() - k,
    {
        if !stage_succeeded(jobs, &depends_on[k]) {
            assert(!deps_done(jobs@, depends_on@)) by {
                assert(depends_on@[k as int] == depends_on@[k as int]);
            }
            return false;
        }
        proof {
            let pre = depends_on@.subrange(0, k as int);
            let post = depends_on@.subrange(0, k + 1);
            assert forall|j: int| 0 <= j < post.len() implies exists|i: int|
                0 <= i < jobs.len() && opt_text((#[trigger] jobs@[i]).stage_name) == Some(
                    (#[trigger] post[j])@,
                ) && jobs@[i].state == JobState::Success by {
                if j < k {
                    assert(post[j] == pre[j]);
                } else {
                    assert(post[j] == depends_on@[k as int]);
                }
            }
        }
        k += 1;
    }
    assert(depends_on@.subrange(0, depends_on.len() as int) =~= depends_on@);
    true
}


// ── Per-job updates ─────────────────────────────────────────────────────────
/// Why a job ended, recorded when it reaches a terminal state.
pub open spec fn job_reason(state: JobState, exit_code: Option<i32>) -> Option<Seq<char>> {
    match state {
        JobState::Success => Some("Completed successfully (exit code 0)"@),
        JobState::Failed => Some(
            "Command failed (exit code "@ + dec(
                match exit_code {
                    Some(c) => c as int,
                    None => -1,
                },
            ) + ")"@,
        ),
        JobState::Cancelled => Some("Cancelled"@),
        _ => None,
    }
}

/// A job after a status report.
pub open spec fn reported(j: Job, state: JobState, exit_code: Option<i32>, now: UtcTime, reason: Option<String>) -> Job {
    if job_terminal(state) {
        Job { state, exit_code, updated_at: now, completed_at: Some(now), status_reason: reason, ..j }
    } else {
        Job { state, exit_code, updated_at: now, ..j }
    }
}

fn job_reason_text(state: JobState, exit_code: Option<i32>) -> (r: Option<String>)
    ensures
        opt_text(r) == job_reason(state, exit_code),
{
    match state {
        JobState::Success => Some(String::from_str("Completed successfully (exit code 0)")),
        JobState::Failed => {
            let mut m = String::new();
            push_str(&mut m, "Command failed (exit code ");
            let code: i64 = match exit_code {
                Some(c) => c as i64,
                None => -1,
            };
            push_i64(&mut m, code);
            push_str(&mut m, ")");
            assert(m@ =~= "Command failed (exit code "@ + dec(code as int) + ")"@);
            Some(m)
        },
        JobState::Cancelled => Some(String::from_str("Cancelled")),
        _ => None,
    }
}

/// Running or assigned: in flight on a worker.
pub open spec fn in_flight(s: JobState) -> bool {
    s == JobState::Running || s == JobState::Assigned
}

/// Queued or assigned: not started yet.
pub open spec fn pending(s: JobState) -> bool {
    s == JobState::Queued || s == JobState::Assigned
}

// ── The registry ────────────────────────────────────────────────────────────
/// A group id with the group (once added) and its jobs (once any exist).
pub struct GroupSlot {
    pub id: u128,
    pub group: Option<JobGroup>,
    pub jobs: Option<Vec<Job>>,
}

pub open spec fn slot_of(slots: Seq<GroupSlot>, id: u128) -> Option<GroupSlot> {
    if exists|i: int| 0 <= i < slots.len() && (#[trigger] slots[i]).id == id {
        let i = choose|i: int| 0 <= i < slots.len() && (#[trigger] slots[i]).id == id;
        Some(slots[i])
    } else {
        None
    }
}

pub open spec fn ids_distinct(slots: Seq<GroupSlot>) -> bool {
    forall|i: int, j: int| 0 <= i < slots.len() && 0 <= j < slots.len() && i != j ==> slots[i].id != slots[j].id
}

pub open spec fn jobs_seq(j: Option<Vec<Job>>) -> Option<Seq<Job>> {
    match j {
        Some(v) => Some(v@),
        None => None,
    }
}

proof fn lemma_slot_at(slots: Seq<GroupSlot>, i: int)
    requires
        ids_distinct(slots),
        0 <= i < slots.len(),
    ensures
        slot_of(slots, slots[i].id) == Some(slots[i]),
{
    let c = choose|c: int| 0 <= c < slots.len() && (#[trigger] slots[c]).id == slots[i].id;
    assert(c == i);
}

proof fn lemma_slot_update(slots: Seq<GroupSlot>, i: int, s: GroupSlot)
    requires
        ids_distinct(slots),
        0 <= i < slots.len(),
        s.id == slots[i].id,
    ensures
        ids_distinct(slots.update(i, s)),
        slot_of(slots.update(i, s), s.id) == Some(s),
        forall|id: u128| id != s.id ==> #[trigger] slot_of(slots.update(i, s), id) == slot_of(slots, id),
{
    let t = slots.update(i, s);
    assert forall|a: int, b: int| 0 <= a < t.len() && 0 <= b < t.len() && a != b implies t[a].id != t[b].id by {
        assert(t[a].id == slots[a].id);
        assert(t[b].id == slots[b].id);
    }
    lemma_slot_at(t, i);
    assert forall|id: u128| id != s.id implies #[trigger] slot_of(t, id) == slot_of(slots, id) by {
        if exists|k: int| 0 <= k < slots.len() && (#[trigger] slots[k]).id == id {
            let k = choose|k: int| 0 <= k < slots.len() && (#[trigger] slots[k]).id == id;
            assert(k != i);
            assert(t[k] == slots[k]);
            lemma_slot_at(slots, k);
            lemma_slot_at(t, k);
        } else {
            assert forall|k: int| 0 <= k < t.len() implies (#[trigger] t[k]).id != id by {
                assert(t[k].id == slots[k].id);
            }
        }
    }
}

proof fn lemma_slot_push(slots: Seq<GroupSlot>, s: GroupSlot)
    requires
        ids_distinct(slots),
        slot_of(slots, s.id) is None,
    ensures
        ids_distinct(slots.push(s)),
        slot_of(slots.push(s), s.id) == Some(s),
        forall|id: u128| id != s.id ==> #[trigger] slot_of(slots.push(s), id) == slot_of(slots, id),
{
    let t = slots.push(s);
    assert forall|a: int, b: int| 0 <= a < t.len() && 0 <= b < t.len() && a != b implies t[a].id != t[b].id by {
        if a == slots.len() {
            assert(t[b] == slots[b]);
        } else if b == slots.len() {
            assert(t[a] == slots[a]);
        } else {
            assert(t[a] == slots[a]);
            assert(t[b] == slots[b]);
        }
    }
    lemma_slot_at(t, slots.len() as int);
    assert forall|id: u128| id != s.id implies #[trigger] slot_of(t, id) == slot_of(slots, id) by {
        if exists|k: int| 0 <= k < slots.len() && (#[trigger] slots[k]).id == id {
            let k = choose|k: int| 0 <= k < slots.len() && (#[trigger] slots[k]).id == id;
            assert(t[k] == slots[k]);
            lemma_slot_at(slots, k);
            lemma_slot_at(t, k);
        } else {
            assert forall|k: int| 0 <= k < t.len() implies (#[trigger] t[k]).id != id by {
                if k < slots.len() {
                    assert(t[k] == slots[k]);
                }
            }
        }
    }
}

/// In-memory job group registry.
pub struct JobGroupRegistry {
    slots: Vec<GroupSlot>,
}

impl JobGroupRegistry {
    pub closed spec fn wf(&self) -> bool {
        ids_distinct(self.slots@)
    }

    /// The group with id `id`, once added.
    pub closed spec fn group(&self, id: u128) -> Option<JobGroup> {
        match slot_of(self.slots@, id) {
            Some(s) => s.group,
            None => None,
        }
    }

    /// The jobs of group `id`, once any were added (or the group was).
    pub closed spec fn jobs(&self, id: u128) -> Option<Seq<Job>> {
        match slot_of(self.slots@, id) {
            Some(s) => jobs_seq(s.jobs),
            None => None,
        }
    }

    /// The ids that have a slot (group or jobs).
    pub closed spec fn known(&self, id: u128) -> bool {
        slot_of(self.slots@, id) is Some
    }

    pub fn new() -> (r: Self)
        ensures
            r.wf(),
            forall|id: u128| !#[trigger] r.known(id),
    {
        JobGroupRegistry { slots: Vec::new() }
    }

    fn find(&self, id: u128) -> (r: Option<usize>)
        requires
            self.wf(),
        ensures
            match r {
                Some(i) => i < self.slots.len() && self.slots@[i as int].id == id && slot_of(self.slots@, id)
                    == Some(self.slots@[i as int]),
                None => slot_of(self.slots@, id) is None,
            },
    {
        let mut i: usize = 0;
        while i < self.slots.len()
            invariant
                i <= self.slots.len(),
                ids_distinct(self.slots@),
                forall|k: int| 0 <= k < i ==> (#[trigger] self.slots@[k]).id != id,
            decreases self.slots.len() - i,
        {
            if self.slots[i].id == id {
                proof {
                    lemma_slot_at(self.slots@, i as int);
                }
                return Some(i);
            }
            i += 1;
        }
        None
    }

    /// Index of `id`'s slot, created empty when there is none.
    fn slot(&mut self, id: u128) -> (i: usize)
        requires
            old(self).wf(),
        ensures
            final(self).wf(),
            i < final(self).slots.len(),
            final(self).slots@[i as int].id == id,
            slot_of(final(self).slots@, id) == Some(final(self).slots@[i as int]),
            match slot_of(old(self).slots@, id) {
                Some(s) => final(self).slots@[i as int] == s,
                None => final(self).slots@[i as int].group is None && final(self).slots@[i as int].jobs is None,
            },
            forall|x: u128| x != id ==> #[trigger] slot_of(final(self).slots@, x) == slot_of(old(self).slots@, x),
    {
        match self.find(id) {
            Some(i) => i,
            None => {
                let s = GroupSlot { id, group: None, jobs: None };
                proof {
                    lemma_slot_push(self.slots@, s);
                }
                self.slots.push(s);
                self.slots.len() - 1
            },
        }
    }

    /// Takes slot `i` out, leaving an empty slot with the same id.
    fn take(&mut self, i: usize) -> (s: GroupSlot)
        requires
            old(self).wf(),
            i < old(self).slots.len(),
        ensures
            s == old(self).slots@[i as int],
            final(self).slots@ == old(self).slots@.update(
                i as int,
                GroupSlot { id: s.id, group: None, jobs: None },
            ),
            final(self).wf(),
    {
        let id = self.slots[i].id;
        let s = self.slots.remove(i);
        self.slots.insert(i, GroupSlot { id, group: None, jobs: None });
        proof {
            assert(self.slots@ =~= old(self).slots@.update(i as int, GroupSlot { id, group: None, jobs: None }));
            lemma_slot_update(old(self).slots@, i as int, GroupSlot { id, group: None, jobs: None });
        }
        s
    }

    /// Puts `s` into slot `i`, whose id it has.
    fn put(&mut self, i: usize, s: GroupSlot)
        requires
            old(self).wf(),
            i < old(self).slots.len(),
            s.id == old(self).slots@[i as int].id,
        ensures
            final(self).slots@ == old(self).slots@.update(i as int, s),
            final(self).wf(),
    {
        self.slots.remove(i);
        self.slots.insert(i, s);
        proof {
            assert(self.slots@ =~= old(self).slots@.update(i as int, s));
            lemma_slot_update(old(self).slots@, i as int, s);
        }
    }

    /// Replaces `id`'s slot after [`Self::take`]: the registry is `before` but
    /// for that slot.
    proof fn lemma_replaced(before: Seq<GroupSlot>, mid: Seq<GroupSlot>, after: Seq<GroupSlot>, i: int, s: GroupSlot)
        requires
            ids_distinct(before),
            0 <= i < before.len(),
            s.id == before[i].id,
            mid == before.update(i, GroupSlot { id: s.id, group: None, jobs: None }),
            after == mid.update(i, s),
        ensures
            ids_distinct(after),
            slot_of(after, s.id) == Some(s),
            forall|id: u128| id != s.id ==> #[trigger] slot_of(after, id) == slot_of(before, id),
    {
        assert(after =~= before.update(i, s));
        lemma_slot_update(before, i, s);
    }
}


// ── Transforms of a job list ────────────────────────────────────────────────
/// A job after the controller restarted while it was in flight.
pub open spec fn staled(j: Job, now: UtcTime) -> Job {
    if in_flight(j.state) {
        Job { state: JobState::Unknown, updated_at: now, ..j }
    } else {
        j
    }
}

pub open spec fn count_in_flight(js: Seq<Job>) -> nat
    decreases js.len(),
{
    if js.len() == 0 {
        0
    } else {
        count_in_flight(js.drop_last()) + if in_flight(js.last().state) {
            1nat
        } else {
            0nat
        }
    }
}

/// A job after its group's worker died: unfinished ones fail with `reason`.
pub open spec fn failed_with(old_j: Job, new_j: Job, reason: Seq<char>, now: UtcTime) -> bool {
    if job_terminal(old_j.state) {
        new_j == old_j
    } else {
        &&& new_j.job_id == old_j.job_id
        &&& new_j.stage_name == old_j.stage_name
        &&& new_j.state == JobState::Failed
        &&& new_j.exit_code == old_j.exit_code
        &&& new_j.assigned_worker == old_j.assigned_worker
        &&& opt_text(new_j.output) == Some(reason)
        &&& opt_text(new_j.status_reason) == Some(reason)
        &&& new_j.updated_at == now
        &&& new_j.completed_at == Some(now)
    }
}

/// A job after its group moved to `worker`: pending ones are assigned to it.
pub open spec fn moved_to(old_j: Job, new_j: Job, worker: Seq<char>) -> bool {
    if pending(old_j.state) {
        &&& opt_text(new_j.assigned_worker) == Some(worker)
        &&& new_j.job_id == old_j.job_id
        &&& new_j.stage_name == old_j.stage_name
        &&& new_j.state == old_j.state
        &&& new_j.exit_code == old_j.exit_code
        &&& new_j.output == old_j.output
        &&& new_j.status_reason == old_j.status_reason
        &&& new_j.updated_at == old_j.updated_at
        &&& new_j.completed_at == old_j.completed_at
    } else {
        new_j == old_j
    }
}

/// A job after a status report for it.
pub open spec fn reported_as(old_j: Job, new_j: Job, state: JobState, exit_code: Option<i32>, now: UtcTime) -> bool {
    &&& new_j.job_id == old_j.job_id
    &&& new_j.stage_name == old_j.stage_name
    &&& new_j.state == state
    &&& new_j.exit_code == exit_code
    &&& new_j.assigned_worker == old_j.assigned_worker
    &&& new_j.output == old_j.output
    &&& new_j.updated_at == now
    &&& if job_terminal(state) {
        new_j.completed_at == Some(now) && opt_text(new_j.status_reason) == job_reason(state, exit_code)
    } else {
        new_j.completed_at == old_j.completed_at && new_j.status_reason == old_j.status_reason
    }
}

proof fn lemma_count_push(js: Seq<Job>, j: Job)
    ensures
        count_in_flight(js.push(j)) == count_in_flight(js) + if in_flight(j.state) {
            1nat
        } else {
            0nat
        },
{
    assert(js.push(j).drop_last() == js);
}

proof fn lemma_count_bound(js: Seq<Job>)
    ensures
        count_in_flight(js) <= js.len(),
    decreases js.len(),
{
    if js.len() > 0 {
        lemma_count_bound(js.drop_last());
    }
}

/// Marks in-flight jobs unknown; returns how many there were.
fn stale_jobs(js: Vec<Job>, now: UtcTime) -> (r: (Vec<Job>, usize))
    ensures
        r.0@ == js@.map_values(|j: Job| staled(j, now)),
        r.1 == count_in_flight(js@),
{
    let ghost orig = js@;
    let mut rest = js;
    let mut out: Vec<Job> = Vec::new();
    let mut n: usize = 0;
    proof {
        lemma_count_bound(orig);
        assert(orig.skip(0) =~= orig);
    }
    while rest.len() > 0
        invariant
            rest@ == orig.skip(orig.len() - rest.len()),
            rest.len() <= orig.len(),
            out@ == orig.take(orig.len() - rest.len()).map_values(|j: Job| staled(j, now)),
            n == count_in_flight(orig.take(orig.len() - rest.len())),
            count_in_flight(orig) <= orig.len(),
            orig.len() <= usize::MAX,
        decreases rest.len(),
    {
        let ghost k = orig.len() - rest.len();
        let ghost r0 = rest@;
        let j = rest.remove(0);
        assert(j == orig[k]);
        assert(rest@ =~= orig.skip(k + 1));
        proof {
            assert(orig.take(k + 1) =~= orig.take(k).push(j));
            lemma_count_push(orig.take(k), j);
            lemma_count_bound(orig.take(k + 1));
        }
        if j.state == JobState::Running || j.state == JobState::Assigned {
            out.push(Job { state: JobState::Unknown, updated_at: now, ..j });
            n = n + 1;
        } else {
            out.push(j);
        }
        assert(out@ =~= orig.take(k + 1).map_values(|j: Job| staled(j, now)));
    }
    assert(orig.take(orig.len() as int) =~= orig);
    (out, n)
}

/// Fails the unfinished jobs with `reason`.
fn fail_unfinished(js: Vec<Job>, reason: &str, now: UtcTime) -> (r: Vec<Job>)
    ensures
        r.len() == js.len(),
        forall|k: int| 0 <= k < r.len() ==> failed_with(js@[k], #[trigger] r@[k], reason@, now),
{
    let ghost orig = js@;
    let mut rest = js;
    let mut out: Vec<Job> = Vec::new();
    assert(orig.skip(0) =~= orig);
    while rest.len() > 0
        invariant
            rest@ == orig.skip(orig.len() - rest.len()),
            rest.len() <= orig.len(),
            out.len() == orig.len() - rest.len(),
            forall|k: int| 0 <= k < out.len() ==> failed_with(orig[k], #[trigger] out@[k], reason@, now),
        decreases rest.len(),
    {
        let ghost k = orig.len() - rest.len();
        let j = rest.remove(0);
        assert(j == orig[k]);
        assert(rest@ =~= orig.skip(k + 1));
        if j.state.is_terminal() {
            out.push(j);
        } else {
            out.push(
                Job {
                    state: JobState::Failed,
                    output: Some(String::from_str(reason)),
                    status_reason: Some(String::from_str(reason)),
                    updated_at: now,
                    completed_at: Some(now),
                    ..j
                },
            );
        }
    }
    out
}

/// Assigns the pending jobs to `worker`.
fn assign_pending(js: Vec<Job>, worker: &str) -> (r: Vec<Job>)
    ensures
        r.len() == js.len(),
        forall|k: int| 0 <= k < r.len() ==> moved_to(js@[k], #[trigger] r@[k], worker@),
{
    let ghost orig = js@;
    let mut rest = js;
    let mut out: Vec<Job> = Vec::new();
    assert(orig.skip(0) =~= orig);
    while rest.len() > 0
        invariant
            rest@ == orig.skip(orig.len() - rest.len()),
            rest.len() <= orig.len(),
            out.len() == orig.len() - rest.len(),
            forall|k: int| 0 <= k < out.len() ==> moved_to(orig[k], #[trigger] out@[k], worker@),
        decreases rest.len(),
    {
        let ghost k = orig.len() - rest.len();
        let j = rest.remove(0);
        assert(j == orig[k]);
        assert(rest@ =~= orig.skip(k + 1));
        if j.state == JobState::Queued || j.state == JobState::Assigned {
            out.push(Job { assigned_worker: Some(String::from_str(worker)), ..j });
        } else {
            out.push(j);
        }
    }
    out
}

/// Index of the first job whose id matches `job_id`.
pub open spec fn first_match(js: Seq<Job>, job_id: Seq<char>, i: int) -> bool {
    0 <= i < js.len() && id_matches(js[i].job_id@, job_id) && forall|k: int|
        0 <= k < i ==> !id_matches((#[trigger] js[k]).job_id@, job_id)
}

fn find_job(js: &Vec<Job>, job_id: &str) -> (r: Option<usize>)
    ensures
        match r {
            Some(i) => first_match(js@, job_id@, i as int),
            None => forall|k: int| 0 <= k < js.len() ==> !id_matches((#[trigger] js@[k]).job_id@, job_id@),
        },
{
    let mut i: usize = 0;
    while i < js.len()
        invariant
            i <= js.len(),
            forall|k: int| 0 <= k < i ==> !id_matches((#[trigger] js@[k]).job_id@, job_id@),
        decreases js.len() - i,
    {
        if job_id_matches(js[i].job_id.as_str(), job_id) {
            return Some(i);
        }
        i += 1;
    }
    None
}


/// The sum of [`count_in_flight`] over the slots.
pub open spec fn slots_in_flight(slots: Seq<GroupSlot>) -> nat
    decreases slots.len(),
{
    if slots.len() == 0 {
        0
    } else {
        slots_in_flight(slots.drop_last()) + match slots.last().jobs {
            Some(v) => count_in_flight(v@),
            None => 0,
        }
    }
}

/// A group after an accepted transition to `to` at `now`.
pub open spec fn transitioned(g: JobGroup, to: JobGroupState, now: UtcTime) -> JobGroup {
    JobGroup {
        state: to,
        updated_at: now,
        completed_at: if group_terminal(to) {
            Some(now)
        } else {
            g.completed_at
        },
        ..g
    }
}

/// A group after an attempted transition: accepted or left as it was.
pub open spec fn after_transition(g: JobGroup, to: JobGroupState, now: UtcTime) -> JobGroup {
    if transition_ok(g.state, to) {
        transitioned(g, to, now)
    } else {
        g
    }
}

impl JobGroupRegistry {

    /// Adds (or replaces) a group; it keeps the jobs already filed under its id.
    pub fn add_group(&mut self, group: JobGroup)
        requires
            old(self).wf(),
        ensures
            final(self).wf(),
            final(self).group(group.id) == Some(group),
            final(self).jobs(group.id) == Some(
                match old(self).jobs(group.id) {
                    Some(js) => js,
                    None => Seq::<Job>::empty(),
                },
            ),
            forall|x: u128|
                x != group.id ==> #[trigger] final(self).group(x) == old(self).group(x) && final(self).jobs(x)
                    == old(self).jobs(x),
    {
        let id = group.id;
        let i = self.slot(id);
        let ghost s1 = self.slots@;
        let mut sl = self.take(i);
        let ghost s2 = self.slots@;
        let jobs = match sl.jobs {
            Some(v) => v,
            None => Vec::new(),
        };
        let ns = GroupSlot { id, group: Some(group), jobs: Some(jobs) };
        self.put(i, ns);
        proof {
            Self::lemma_replaced(s1, s2, self.slots@, i as int, ns);
        }
    }

    pub fn get(&self, group_id: u128) -> (r: Option<&JobGroup>)
        requires
            self.wf(),
        ensures
            match self.group(group_id) {
                Some(g) => r == Some(&g),
                None => r is None,
            },
    {
        match self.find(group_id) {
            Some(i) => match &self.slots[i].group {
                Some(g) => Some(g),
                None => None,
            },
            None => None,
        }
    }

    /// Records activity on a group at `now`, for the reaper's timeouts.
    pub fn touch_activity(&mut self, group_id: u128, now: UtcTime)
        requires
            old(self).wf(),
        ensures
            final(self).wf(),
            final(self).group(group_id) == match old(self).group(group_id) {
                Some(g) => Some(JobGroup { last_activity_at: now, ..g }),
                None => None,
            },
            forall|x: u128| #[trigger] final(self).jobs(x) == old(self).jobs(x),
            forall|x: u128| x != group_id ==> #[trigger] final(self).group(x) == old(self).group(x),
    {
        match self.find(group_id) {
            None => {},
            Some(i) => {
                let ghost s1 = self.slots@;
                let sl = self.take(i);
                let ghost s2 = self.slots@;
                let ng = match sl.group {
                    Some(g) => Some(JobGroup { last_activity_at: now, ..g }),
                    None => None,
                };
                let ns = GroupSlot { id: sl.id, group: ng, jobs: sl.jobs };
                self.put(i, ns);
                proof {
                    Self::lemma_replaced(s1, s2, self.slots@, i as int, ns);
                }
            },
        }
    }

    /// Moves a group to `new_state` at `now` when [`transition_ok`] allows it;
    /// `false` (and no change) otherwise or for an unknown group.
    pub fn update_state(&mut self, group_id: u128, new_state: JobGroupState, now: UtcTime) -> (ok: bool)
        requires
            old(self).wf(),
        ensures
            final(self).wf(),
            ok == (old(self).group(group_id) matches Some(g) && transition_ok(g.state, new_state)),
            final(self).group(group_id) == match old(self).group(group_id) {
                Some(g) => Some(after_transition(g, new_state, now)),
                None => None,
            },
            forall|x: u128| #[trigger] final(self).jobs(x) == old(self).jobs(x),
            forall|x: u128| x != group_id ==> #[trigger] final(self).group(x) == old(self).group(x),
    {
        match self.find(group_id) {
            None => false,
            Some(i) => {
                let ghost s1 = self.slots@;
                let sl = self.take(i);
                let ghost s2 = self.slots@;
                let (ng, ok) = match sl.group {
                    Some(g) => {
                        if transition_allowed(g.state, new_state) {
                            let completed = if new_state.is_terminal() {
                                Some(now)
                            } else {
                                g.completed_at
                            };
                            (Some(JobGroup { state: new_state, updated_at: now, completed_at: completed, ..g }), true)
                        } else {
                            (Some(g), false)
                        }
                    },
                    None => (None, false),
                };
                let ns = GroupSlot { id: sl.id, group: ng, jobs: sl.jobs };
                self.put(i, ns);
                proof {
                    Self::lemma_replaced(s1, s2, self.slots@, i as int, ns);
                }
                ok
            },
        }
    }

    /// Files a job under a group.
    pub fn add_job_to_group(&mut self, group_id: u128, job: Job)
        requires
            old(self).wf(),
        ensures
            final(self).wf(),
            final(self).jobs(group_id) == Some(
                match old(self).jobs(group_id) {
                    Some(js) => js,
                    None => Seq::<Job>::empty(),
                }.push(job),
            ),
            forall|x: u128| #[trigger] final(self).group(x) == old(self).group(x),
            forall|x: u128| x != group_id ==> #[trigger] final(self).jobs(x) == old(self).jobs(x),
    {
        let i = self.slot(group_id);
        let ghost s1 = self.slots@;
        let sl = self.take(i);
        let ghost s2 = self.slots@;
        let mut jobs = match sl.jobs {
            Some(v) => v,
            None => Vec::new(),
        };
        jobs.push(job);
        let ns = GroupSlot { id: sl.id, group: sl.group, jobs: Some(jobs) };
        self.put(i, ns);
        proof {
            Self::lemma_replaced(s1, s2, self.slots@, i as int, ns);
        }
    }

    /// The jobs of a group (none for an unknown group).
    pub fn get_jobs_for_group(&self, group_id: u128) -> (r: &[Job])
        requires
            self.wf(),
        ensures
            r@ == match self.jobs(group_id) {
                Some(js) => js,
                None => Seq::empty(),
            },
    {
        match self.find(group_id) {
            Some(i) => match &self.slots[i].jobs {
                Some(v) => v.as_slice(),
                None => &[],
            },
            None => &[],
        }
    }
}


/// Two slot lists with the same ids in the same places.
pub open spec fn same_ids(a: Seq<GroupSlot>, b: Seq<GroupSlot>) -> bool {
    a.len() == b.len() && forall|k: int| 0 <= k < a.len() ==> (#[trigger] a[k]).id == b[k].id
}

proof fn lemma_same_ids(a: Seq<GroupSlot>, b: Seq<GroupSlot>, x: u128) -> (k: int)
    requires
        same_ids(a, b),
        ids_distinct(a),
    ensures
        ids_distinct(b),
        slot_of(a, x) is Some <==> slot_of(b, x) is Some,
        slot_of(a, x) is Some ==> 0 <= k < a.len() && slot_of(a, x) == Some(a[k]) && slot_of(b, x) == Some(b[k]),
{
    assert forall|i: int, j: int| 0 <= i < b.len() && 0 <= j < b.len() && i != j implies b[i].id != b[j].id by {
        assert(a[i].id == b[i].id);
        assert(a[j].id == b[j].id);
    }
    if exists|i: int| 0 <= i < a.len() && (#[trigger] a[i]).id == x {
        let k = choose|i: int| 0 <= i < a.len() && (#[trigger] a[i]).id == x;
        lemma_slot_at(a, k);
        assert(b[k].id == x);
        lemma_slot_at(b, k);
        k
    } else {
        assert forall|i: int| 0 <= i < b.len() implies (#[trigger] b[i]).id != x by {
            assert(a[i].id == b[i].id);
        }
        0
    }
}

/// The ids of the slots, in order.
pub open spec fn slot_ids(slots: Seq<GroupSlot>) -> Seq<u128> {
    slots.map_values(|sl: GroupSlot| sl.id)
}

/// Jobs running or assigned in the groups `ids` of `r`.
pub open spec fn in_flight_over(r: JobGroupRegistry, ids: Seq<u128>) -> nat
    decreases ids.len(),
{
    if ids.len() == 0 {
        0
    } else {
        in_flight_over(r, ids.drop_last()) + match r.jobs(ids.last()) {
            Some(js) => count_in_flight(js),
            None => 0,
        }
    }
}

/// `s` lists, once each, every group of `r` that has jobs (and maybe others).
pub open spec fn covers_jobs(r: JobGroupRegistry, s: Seq<u128>) -> bool {
    &&& s.no_duplicates()
    &&& forall|x: u128| (#[trigger] r.jobs(x)) is Some ==> s.contains(x)
}

impl JobGroupRegistry {
    proof fn lemma_in_flight_ids(r: JobGroupRegistry, i: int)
        requires
            r.wf(),
            0 <= i <= r.slots@.len(),
        ensures
            in_flight_over(r, slot_ids(r.slots@.take(i))) == slots_in_flight(r.slots@.take(i)),
        decreases i,
    {
        if i > 0 {
            Self::lemma_in_flight_ids(r, i - 1);
            let t = r.slots@.take(i);
            assert(t.drop_last() =~= r.slots@.take(i - 1));
            assert(slot_ids(t).drop_last() =~= slot_ids(r.slots@.take(i - 1)));
            assert(slot_ids(t).last() == r.slots@[i - 1].id);
            lemma_slot_at(r.slots@, i - 1);
        }
    }

    proof fn lemma_covers(r: JobGroupRegistry)
        requires
            r.wf(),
        ensures
            covers_jobs(r, slot_ids(r.slots@)),
    {
        let s = slot_ids(r.slots@);
        assert forall|a: int, b: int| 0 <= a < s.len() && 0 <= b < s.len() && a != b implies s[a] != s[b] by {}
        assert forall|x: u128| (#[trigger] r.jobs(x)) is Some implies s.contains(x) by {
            let k = choose|k: int| 0 <= k < r.slots@.len() && (#[trigger] r.slots@[k]).id == x;
            assert(s[k] == x);
        }
        assert(r.slots@.take(r.slots@.len() as int) =~= r.slots@);
    }
}

/// Jobs running or assigned in group `x` of `r`.
pub open spec fn in_flight_of(r: JobGroupRegistry, x: u128) -> nat {
    match r.jobs(x) {
        Some(js) => count_in_flight(js),
        None => 0,
    }
}

proof fn lemma_in_flight_remove(r: JobGroupRegistry, s: Seq<u128>, k: int)
    requires
        0 <= k < s.len(),
    ensures
        in_flight_over(r, s) == in_flight_over(r, s.remove(k)) + in_flight_of(r, s[k]),
    decreases s.len(),
{
    if k == s.len() - 1 {
        assert(s.remove(k) =~= s.drop_last());
    } else {
        lemma_in_flight_remove(r, s.drop_last(), k);
        assert(s.remove(k).drop_last() =~= s.drop_last().remove(k));
        assert(s.remove(k).last() == s.last());
    }
}

proof fn lemma_in_flight_same(r: JobGroupRegistry, s1: Seq<u128>, s2: Seq<u128>)
    requires
        s1.no_duplicates(),
        s2.no_duplicates(),
        forall|x: u128| (#[trigger] r.jobs(x)) is Some ==> (s1.contains(x) <==> s2.contains(x)),
    ensures
        in_flight_over(r, s1) == in_flight_over(r, s2),
    decreases s1.len() + s2.len(),
{
    if s1.len() == 0 {
        if s2.len() > 0 {
            let x = s2.last();
            assert(s2.contains(x) && !s1.contains(x));
            let t = s2.drop_last();
            assert forall|y: u128| (#[trigger] r.jobs(y)) is Some implies (s1.contains(y) <==> t.contains(y)) by {
                if t.contains(y) {
                    let i = choose|i: int| 0 <= i < t.len() && t[i] == y;
                    assert(s2[i] == y);
                }
            }
            assert forall|a: int, b: int| 0 <= a < t.len() && 0 <= b < t.len() && a != b implies t[a] != t[b] by {
                assert(s2[a] != s2[b]);
            }
            lemma_in_flight_same(r, s1, t);
        }
    } else {
        let x = s1.last();
        let t1 = s1.drop_last();
        assert(s1.contains(x));
        assert forall|a: int, b: int| 0 <= a < t1.len() && 0 <= b < t1.len() && a != b implies t1[a] != t1[b] by {
            assert(s1[a] != s1[b]);
        }
        assert(!t1.contains(x)) by {
            if t1.contains(x) {
                let i = choose|i: int| 0 <= i < t1.len() && t1[i] == x;
                assert(s1[i] == s1[s1.len() - 1]);
            }
        }
        if s2.contains(x) {
            let k = choose|k: int| 0 <= k < s2.len() && s2[k] == x;
            let t2 = s2.remove(k);
            lemma_in_flight_remove(r, s2, k);
            assert forall|a: int, b: int| 0 <= a < t2.len() && 0 <= b < t2.len() && a != b implies t2[a] != t2[b] by {
                let a2 = if a < k { a } else { a + 1 };
                let b2 = if b < k { b } else { b + 1 };
                assert(t2[a] == s2[a2]);
                assert(t2[b] == s2[b2]);
                assert(s2[a2] != s2[b2]);
            }
            assert forall|y: u128| (#[trigger] r.jobs(y)) is Some implies (t1.contains(y) <==> t2.contains(y)) by {
                if t1.contains(y) {
                    let i = choose|i: int| 0 <= i < t1.len() && t1[i] == y;
                    assert(s1[i] == y);
                    assert(y != x);
                    assert(s2.contains(y));
                    let j = choose|j: int| 0 <= j < s2.len() && s2[j] == y;
                    assert(j != k);
                    if j < k {
                        assert(t2[j] == y);
                    } else {
                        assert(t2[j - 1] == y);
                    }
                }
                if t2.contains(y) {
                    let j = choose|j: int| 0 <= j < t2.len() && t2[j] == y;
                    let j2 = if j < k { j } else { j + 1 };
                    assert(s2[j2] == y);
                    assert(j2 != k);
                    assert(s2[j2] != s2[k]);
                    assert(s2.contains(y));
                    assert(s1.contains(y));
                    let i = choose|i: int| 0 <= i < s1.len() && s1[i] == y;
                    assert(i != s1.len() - 1);
                    assert(t1[i] == y);
                }
            }
            lemma_in_flight_same(r, t1, t2);
        } else {
            assert(r.jobs(x) is None) by {
                if r.jobs(x) is Some {
                    assert(s2.contains(x));
                }
            }
            assert forall|y: u128| (#[trigger] r.jobs(y)) is Some implies (t1.contains(y) <==> s2.contains(y)) by {
                if t1.contains(y) {
                    let i = choose|i: int| 0 <= i < t1.len() && t1[i] == y;
                    assert(s1[i] == y);
                }
                if s2.contains(y) {
                    assert(s1.contains(y));
                    let i = choose|i: int| 0 <= i < s1.len() && s1[i] == y;
                    assert(i != s1.len() - 1);
                    assert(t1[i] == y);
                }
            }
            lemma_in_flight_same(r, t1, s2);
        }
    }
}

/// Any two lists that name each group with jobs once give the same count
/// of running or assigned jobs: the count [`JobGroupRegistry::mark_stale_jobs_unknown`]
/// returns is that of the whole registry, whichever list it is taken over.
pub proof fn law_in_flight_count_is_unique(r: JobGroupRegistry, s1: Seq<u128>, s2: Seq<u128>)
    requires
        covers_jobs(r, s1),
        covers_jobs(r, s2),
    ensures
        in_flight_over(r, s1) == in_flight_over(r, s2),
{
    lemma_in_flight_same(r, s1, s2);
}

impl JobGroupRegistry {
    /// After a restart: jobs that were running or assigned get an unknown
    /// outcome, as of `now`. Returns how many.
    pub fn mark_stale_jobs_unknown(&mut self, now: UtcTime) -> (n: usize)
        requires
            old(self).wf(),
        ensures
            final(self).wf(),
            exists|s: Seq<u128>|
                covers_jobs(*old(self), s) && n == (if in_flight_over(*old(self), s) <= usize::MAX {
                    in_flight_over(*old(self), s)
                } else {
                    usize::MAX as nat
                }),
            forall|x: u128| #[trigger] final(self).group(x) == old(self).group(x),
            forall|x: u128|
                #[trigger] final(self).jobs(x) == match old(self).jobs(x) {
                    Some(js) => Some(js.map_values(|j: Job| staled(j, now))),
                    None => None,
                },
    {
        let ghost orig = self.slots@;
        let mut n: usize = 0;
        let mut i: usize = 0;
        while i < self.slots.len()
            invariant
                i <= self.slots.len(),
                ids_distinct(self.slots@),
                same_ids(orig, self.slots@),
                ids_distinct(orig),
                n == (if slots_in_flight(orig.take(i as int)) <= usize::MAX {
                    slots_in_flight(orig.take(i as int))
                } else {
                    usize::MAX as nat
                }),
                forall|k: int|
                    0 <= k < i ==> (#[trigger] self.slots@[k]).group == orig[k].group && jobs_seq(self.slots@[k].jobs)
                        == match jobs_seq(orig[k].jobs) {
                        Some(js) => Some(js.map_values(|j: Job| staled(j, now))),
                        None => None,
                    },
                forall|k: int| i <= k < self.slots.len() ==> #[trigger] self.slots@[k] == orig[k],
            decreases self.slots.len() - i,
        {
            let ghost before = self.slots@;
            let sl = self.take(i);
            let (jobs, c) = match sl.jobs {
                Some(v) => {
                    let (w, c) = stale_jobs(v, now);
                    (Some(w), c)
                },
                None => (None, 0),
            };
            proof {
                assert(orig.take(i + 1).drop_last() =~= orig.take(i as int));
                assert(orig.take(i + 1).last() == orig[i as int]);
            }
            n = if c > usize::MAX - n {
                usize::MAX
            } else {
                n + c
            };
            let ns = GroupSlot { id: sl.id, group: sl.group, jobs };
            self.put(i, ns);
            proof {
                assert forall|k: int| 0 <= k < orig.len() implies (#[trigger] orig[k]).id == self.slots@[k].id by {
                    if k != i {
                        assert(self.slots@[k] == before[k]);
                    }
                }
            }
            i += 1;
        }
        proof {
            assert(orig.take(orig.len() as int) =~= orig);
            assert forall|x: u128| #[trigger] self.group(x) == old(self).group(x) && self.jobs(x) == match old(self).jobs(x) {
                Some(js) => Some(js.map_values(|j: Job| staled(j, now))),
                None => None,
            } by {
                let k = lemma_same_ids(orig, self.slots@, x);
            }
            Self::lemma_in_flight_ids(*old(self), orig.len() as int);
            Self::lemma_covers(*old(self));
        }
        n
    }

    /// Applies a worker's status report to the group's first job whose id
    /// matches `job_id` (raw or name-based form).
    pub fn update_job_in_group(
        &mut self,
        group_id: u128,
        job_id: &str,
        state: JobState,
        exit_code: Option<i32>,
        now: UtcTime,
    )
        requires
            old(self).wf(),
        ensures
            final(self).wf(),
            forall|x: u128| #[trigger] final(self).group(x) == old(self).group(x),
            forall|x: u128| x != group_id ==> #[trigger] final(self).jobs(x) == old(self).jobs(x),
            match old(self).jobs(group_id) {
                Some(js) => final(self).jobs(group_id) matches Some(ns) && ns.len() == js.len() && if exists|i: int|
                    first_match(js, job_id@, i) {
                    let i = choose|i: int| first_match(js, job_id@, i);
                    reported_as(js[i], ns[i], state, exit_code, now) && forall|k: int|
                        0 <= k < js.len() && k != i ==> #[trigger] ns[k] == js[k]
                } else {
                    ns == js
                },
                None => final(self).jobs(group_id) is None,
            },
    {
        let i = match self.find(group_id) {
            None => return,
            Some(i) => i,
        };
        let ghost s1 = self.slots@;
        let sl = self.take(i);
        let ghost s2 = self.slots@;
        let jobs = match sl.jobs {
            None => {
                self.put(i, GroupSlot { id: sl.id, group: sl.group, jobs: None });
                proof {
                    Self::lemma_replaced(s1, s2, self.slots@, i as int, GroupSlot { id: sl.id, group: sl.group, jobs: None });
                }
                return;
            },
            Some(v) => v,
        };
        let ghost js = jobs@;
        let mut jobs = jobs;
        match find_job(&jobs, job_id) {
            None => {},
            Some(k) => {
                let j = jobs.remove(k);
                let nj = if state.is_terminal() {
                    Job {
                        state,
                        exit_code,
                        updated_at: now,
                        completed_at: Some(now),
                        status_reason: job_reason_text(state, exit_code),
                        ..j
                    }
                } else {
                    Job { state, exit_code, updated_at: now, ..j }
                };
                jobs.insert(k, nj);
                proof {
                    let c = choose|c: int| first_match(js, job_id@, c);
                    assert(c == k as int) by {
                        if c < k {
                            assert(!id_matches(js[c].job_id@, job_id@));
                        } else if c > k {
                            assert(!id_matches(js[k as int].job_id@, job_id@));
                        }
                    }
                    assert forall|m: int| 0 <= m < js.len() && m != k implies #[trigger] jobs@[m] == js[m] by {}
                }
            },
        }
        let ns = GroupSlot { id: sl.id, group: sl.group, jobs: Some(jobs) };
        self.put(i, ns);
        proof {
            Self::lemma_replaced(s1, s2, self.slots@, i as int, ns);
        }
    }
}


/// `a` is strictly earlier than `b`.
pub open spec fn earlier(a: UtcTime, b: UtcTime) -> bool {
    a.secs < b.secs || (a.secs == b.secs && a.nanos < b.nanos)
}

/// A group that is finished and was last updated before `cutoff`.
pub open spec fn evictable(g: Option<JobGroup>, cutoff: UtcTime) -> bool {
    g matches Some(x) && group_terminal(x.state) && earlier(x.updated_at, cutoff)
}

/// The group is active (not terminal) and reserved on `worker`.
pub open spec fn active_on(g: Option<JobGroup>, worker: Seq<char>) -> bool {
    g matches Some(x) && !group_terminal(x.state) && opt_text(x.reserved_worker_id) == Some(worker)
}

pub open spec fn has_pending(js: Option<Seq<Job>>) -> bool {
    js matches Some(v) && exists|i: int| 0 <= i < v.len() && pending((#[trigger] v[i]).state)
}

impl JobGroupRegistry {

    /// Decides whether a group has finished, from its jobs: failed or
    /// cancelled as soon as one job is, successful once all jobs are terminal
    /// and every reserved stage has a job. The group then takes that state (as
    /// far as [`transition_ok`] allows) and the reason; the state is returned.
    pub fn check_group_completion(&mut self, group_id: u128, now: UtcTime) -> (r: Option<JobGroupState>)
        requires
            old(self).wf(),
        ensures
            final(self).wf(),
            forall|x: u128| #[trigger] final(self).jobs(x) == old(self).jobs(x),
            forall|x: u128| x != group_id ==> #[trigger] final(self).group(x) == old(self).group(x),
            match (old(self).group(group_id), old(self).jobs(group_id)) {
                (Some(g), Some(js)) => match completion(g.state, g.reserved_stages@, js) {
                    Some((st, m)) => r == Some(st) && (final(self).group(group_id) matches Some(g2) && g2
                        == (JobGroup { status_reason: g2.status_reason, ..after_transition(g, st, now) })
                        && opt_text(g2.status_reason) == Some(m)),
                    None => r is None && final(self).group(group_id) == old(self).group(group_id),
                },
                _ => r is None && final(self).group(group_id) == old(self).group(group_id),
            },
    {
        let i = match self.find(group_id) {
            None => return None,
            Some(i) => i,
        };
        let outcome = match (&self.slots[i].group, &self.slots[i].jobs) {
            (Some(g), Some(js)) => group_completion(g.state, &g.reserved_stages, js),
            _ => None,
        };
        let (st, reason) = match outcome {
            None => return None,
            Some(o) => o,
        };
        let ghost s1 = self.slots@;
        let sl = self.take(i);
        let ghost s2 = self.slots@;
        let ng = match sl.group {
            Some(g) => {
                let g2 = if transition_allowed(g.state, st) {
                    let completed = if st.is_terminal() {
                        Some(now)
                    } else {
                        g.completed_at
                    };
                    JobGroup { state: st, updated_at: now, completed_at: completed, ..g }
                } else {
                    g
                };
                Some(JobGroup { status_reason: Some(reason), ..g2 })
            },
            None => None,
        };
        let ns = GroupSlot { id: sl.id, group: ng, jobs: sl.jobs };
        self.put(i, ns);
        proof {
            Self::lemma_replaced(s1, s2, self.slots@, i as int, ns);
        }
        Some(st)
    }

    /// Drops finished groups last updated before `cutoff`, with their jobs;
    /// returns how many.
    #[verifier::rlimit(40)]
    pub fn evict_terminal(&mut self, cutoff: UtcTime) -> (n: usize)
        requires
            old(self).wf(),
        ensures
            final(self).wf(),
            exists|e: Seq<u128>| lists_groups(*old(self), e, evictable_before(cutoff)) && e.len() == n,
            forall|x: u128|
                #[trigger] final(self).group(x) == if evictable(old(self).group(x), cutoff) {
                    None
                } else {
                    old(self).group(x)
                },
            forall|x: u128|
                #[trigger] final(self).jobs(x) == if evictable(old(self).group(x), cutoff) {
                    None
                } else {
                    old(self).jobs(x)
                },
    {
        let ghost orig = self.slots@;
        let mut rest: Vec<GroupSlot> = Vec::new();
        std::mem::swap(&mut rest, &mut self.slots);
        let mut kept: Vec<GroupSlot> = Vec::new();
        let mut n: usize = 0;
        let ghost mut ev: Seq<u128> = Seq::empty();
        assert(orig.skip(0) =~= orig);
        assert(rest@ == orig);
        let total = rest.len();
        assert(orig.len() == total);
        assert(orig.take(0) =~= Seq::<GroupSlot>::empty());
        while rest.len() > 0
            invariant
                rest.len() <= orig.len(),
                rest@ == orig.skip(orig.len() - rest.len()),
                ids_distinct(orig),
                n <= orig.len() - rest.len(),
                ev.no_duplicates(),
                ev.len() == n,
                forall|x: u128| ev.contains(x) <==> exists|a: int|
                    0 <= a < orig.len() - rest.len() && (#[trigger] orig[a]).id == x && evictable(orig[a].group, cutoff),
                orig.len() <= usize::MAX,
                ids_distinct(kept@),
                forall|k: int| 0 <= k < kept.len() ==> exists|a: int|
                    0 <= a < orig.len() - rest.len() && orig[a] == #[trigger] kept@[k],
                forall|a: int|
                    0 <= a < orig.len() - rest.len() ==> (evictable(orig[a].group, cutoff) || exists|k: int|
                        0 <= k < kept.len() && kept@[k] == #[trigger] orig[a]),
                forall|k: int| 0 <= k < kept.len() ==> !evictable((#[trigger] kept@[k]).group, cutoff),
            decreases rest.len(),
        {
            let ghost pos = orig.len() - rest.len();
            let ghost r0 = rest@;
            let sl = rest.remove(0);
            assert(sl == r0[0]);
            assert(r0[0] == orig[pos]);
            assert(rest@ =~= orig.skip(pos + 1));
            assert(orig.take(pos + 1).drop_last() =~= orig.take(pos));
            assert(orig.take(pos + 1).last() == orig[pos]);
            let gone = match &sl.group {
                Some(g) => g.state.is_terminal() && (g.updated_at.secs < cutoff.secs || (g.updated_at.secs
                    == cutoff.secs && g.updated_at.nanos < cutoff.nanos)),
                None => false,
            };
            if gone {
                proof {
                    assert(!ev.contains(sl.id)) by {
                        if ev.contains(sl.id) {
                            let a = choose|a: int|
                                0 <= a < pos && (#[trigger] orig[a]).id == sl.id && evictable(orig[a].group, cutoff);
                            assert(orig[a].id != orig[pos].id);
                        }
                    }
                    let eb = ev;
                    ev = ev.push(sl.id);
                    lemma_push_fresh(eb, ev, sl.id);
                    assert forall|x: u128| ev.contains(x) <==> exists|a: int|
                        0 <= a < pos + 1 && (#[trigger] orig[a]).id == x && evictable(orig[a].group, cutoff) by {
                        if ev.contains(x) && x != sl.id {
                            assert(eb.contains(x));
                        }
                        if exists|a: int| 0 <= a < pos + 1 && (#[trigger] orig[a]).id == x && evictable(orig[a].group, cutoff) {
                            let a = choose|a: int| 0 <= a < pos + 1 && (#[trigger] orig[a]).id == x && evictable(orig[a].group, cutoff);
                            if a < pos {
                                assert(eb.contains(x));
                            }
                        }
                    }
                }
                n = n + 1;
            } else {
                proof {
                    assert forall|k: int| 0 <= k < kept.len() implies kept@[k].id != sl.id by {
                        let a = choose|a: int| 0 <= a < pos && orig[a] == kept@[k];
                        assert(orig[a].id != orig[pos].id);
                    }
                }
                let ghost kb = kept@;
                kept.push(sl);
                proof {
                    assert forall|a: int, b: int|
                        0 <= a < kept.len() && 0 <= b < kept.len() && a != b implies kept@[a].id != kept@[b].id by {
                        if a < kb.len() && b < kb.len() {
                            assert(kept@[a] == kb[a]);
                            assert(kept@[b] == kb[b]);
                        } else if a < kb.len() {
                            assert(kept@[a] == kb[a]);
                        } else {
                            assert(kept@[b] == kb[b]);
                        }
                    }
                    assert forall|k: int| 0 <= k < kept.len() implies exists|a: int|
                        0 <= a < pos + 1 && orig[a] == #[trigger] kept@[k] by {
                        if k < kb.len() {
                            assert(kept@[k] == kb[k]);
                        } else {
                            assert(orig[pos] == kept@[k]);
                        }
                    }
                    assert forall|a: int| 0 <= a < pos + 1 implies (evictable(orig[a].group, cutoff) || exists|k: int|
                        0 <= k < kept.len() && kept@[k] == #[trigger] orig[a]) by {
                        if a == pos {
                            assert(kept@[kb.len() as int] == orig[a]);
                        } else if !evictable(orig[a].group, cutoff) {
                            let k = choose|k: int| 0 <= k < kb.len() && kb[k] == orig[a];
                            assert(kept@[k] == kb[k]);
                        }
                    }
                }
            }
        }
        proof {
            assert(orig.take(orig.len() as int) =~= orig);
            assert forall|x: u128| ev.contains(x) <==> ((#[trigger] old(self).group(x)) matches Some(g) && evictable_before(cutoff)(g)) by {
                if exists|a: int| 0 <= a < orig.len() && (#[trigger] orig[a]).id == x {
                    let a = choose|a: int| 0 <= a < orig.len() && (#[trigger] orig[a]).id == x;
                    lemma_slot_at(orig, a);
                    if ev.contains(x) {
                        let b = choose|b: int| 0 <= b < orig.len() && (#[trigger] orig[b]).id == x && evictable(orig[b].group, cutoff);
                        lemma_slot_at(orig, b);
                    }
                }
            }
            assert(lists_groups(*old(self), ev, evictable_before(cutoff)));
            assert forall|x: u128| #[trigger] slot_of(kept@, x) == match slot_of(orig, x) {
                Some(s) => if evictable(s.group, cutoff) {
                    None
                } else {
                    Some(s)
                },
                None => None,
            } by {
                if exists|a: int| 0 <= a < orig.len() && (#[trigger] orig[a]).id == x {
                    let a = choose|a: int| 0 <= a < orig.len() && (#[trigger] orig[a]).id == x;
                    lemma_slot_at(orig, a);
                    if !evictable(orig[a].group, cutoff) {
                        let k = choose|k: int| 0 <= k < kept.len() && kept@[k] == orig[a];
                        lemma_slot_at(kept@, k);
                    } else {
                        assert forall|k: int| 0 <= k < kept.len() implies (#[trigger] kept@[k]).id != x by {
                            let b = choose|b: int| 0 <= b < orig.len() && orig[b] == kept@[k];
                            if b != a {
                                assert(orig[b].id != orig[a].id);
                            }
                        }
                    }
                } else {
                    assert forall|k: int| 0 <= k < kept.len() implies (#[trigger] kept@[k]).id != x by {
                        let b = choose|b: int| 0 <= b < orig.len() && orig[b] == kept@[k];
                    }
                }
            }
        }
        self.slots = kept;
        n
    }

    /// Ids of the groups not yet finished.
    pub fn active_groups(&self) -> (r: Vec<u128>)
        requires
            self.wf(),
        ensures
            r@.no_duplicates(),
            forall|x: u128| r@.contains(x) <==> ((#[trigger] self.group(x)) matches Some(g) && !group_terminal(g.state)),
    {
        let mut r: Vec<u128> = Vec::new();
        let mut i: usize = 0;
        while i < self.slots.len()
            invariant
                i <= self.slots.len(),
                ids_distinct(self.slots@),
                r@.no_duplicates(),
                forall|x: u128| r@.contains(x) <==> exists|k: int|
                    0 <= k < i && (#[trigger] self.slots@[k]).id == x && (self.slots@[k].group matches Some(g)
                        && !group_terminal(g.state)),
            decreases self.slots.len() - i,
        {
            let active = match &self.slots[i].group {
                Some(g) => !g.state.is_terminal(),
                None => false,
            };
            if active {
                let ghost rb = r@;
                let id = self.slots[i].id;
                proof {
                    assert(!rb.contains(id)) by {
                        if rb.contains(id) {
                            let k = choose|k: int| 0 <= k < i && (#[trigger] self.slots@[k]).id == id && (
                            self.slots@[k].group matches Some(g) && !group_terminal(g.state));
                            assert(self.slots@[k].id != self.slots@[i as int].id);
                        }
                    }
                }
                r.push(id);
                proof {
                    assert forall|a: int, b: int| 0 <= a < r.len() && 0 <= b < r.len() && a != b implies r@[a] != r@[b] by {
                        if a < rb.len() && b < rb.len() {
                            assert(rb[a] != rb[b]);
                        } else if a < rb.len() {
                            assert(rb.contains(rb[a]));
                        } else {
                            assert(rb.contains(rb[b]));
                        }
                    }
                    assert forall|x: u128| r@.contains(x) <==> exists|k: int|
                        0 <= k < i + 1 && (#[trigger] self.slots@[k]).id == x && (self.slots@[k].group matches Some(g)
                            && !group_terminal(g.state)) by {
                        if r@.contains(x) {
                            let a = choose|a: int| 0 <= a < r.len() && r@[a] == x;
                            if a == rb.len() {
                                assert(self.slots@[i as int].id == x);
                            } else {
                                assert(rb[a] == x);
                                assert(rb.contains(x));
                            }
                        }
                        if exists|k: int| 0 <= k < i + 1 && (#[trigger] self.slots@[k]).id == x && (
                        self.slots@[k].group matches Some(g) && !group_terminal(g.state)) {
                            let k = choose|k: int| 0 <= k < i + 1 && (#[trigger] self.slots@[k]).id == x && (
                            self.slots@[k].group matches Some(g) && !group_terminal(g.state));
                            if k == i {
                                assert(r@[rb.len() as int] == x);
                            } else {
                                assert(rb.contains(x));
                                let a = choose|a: int| 0 <= a < rb.len() && rb[a] == x;
                                assert(r@[a] == x);
                            }
                        }
                    }
                }
            }
            i += 1;
        }
        proof {
            assert forall|x: u128| r@.contains(x) <==> ((#[trigger] self.group(x)) matches Some(g) && !group_terminal(g.state)) by {
                if exists|k: int| 0 <= k < self.slots.len() && (#[trigger] self.slots@[k]).id == x {
                    let k = choose|k: int| 0 <= k < self.slots.len() && (#[trigger] self.slots@[k]).id == x;
                    lemma_slot_at(self.slots@, k);
                    if r@.contains(x) {
                        let k2 = choose|k2: int| 0 <= k2 < self.slots.len() && (#[trigger] self.slots@[k2]).id == x && (
                        self.slots@[k2].group matches Some(g) && !group_terminal(g.state));
                        lemma_slot_at(self.slots@, k2);
                    }
                }
            }
        }
        r
    }

    /// Ids of the unfinished groups reserved on `worker_id`.
    pub fn get_groups_for_worker(&self, worker_id: &str) -> (r: Vec<u128>)
        requires
            self.wf(),
        ensures
            r@.no_duplicates(),
            forall|x: u128| r@.contains(x) <==> active_on(#[trigger] self.group(x), worker_id@),
    {
        let mut r: Vec<u128> = Vec::new();
        let mut i: usize = 0;
        while i < self.slots.len()
            invariant
                i <= self.slots.len(),
                ids_distinct(self.slots@),
                r@.no_duplicates(),
                forall|x: u128| r@.contains(x) <==> exists|k: int|
                    0 <= k < i && (#[trigger] self.slots@[k]).id == x && active_on(self.slots@[k].group, worker_id@),
            decreases self.slots.len() - i,
        {
            let active = match &self.slots[i].group {
                Some(g) => !g.state.is_terminal() && match &g.reserved_worker_id {
                    Some(w) => {
                        let wc = chars_of(w.as_str());
                        let tc = chars_of(worker_id);
                        chars_eq(&wc, &tc)
                    },
                    None => false,
                },
                None => false,
            };
            if active {
                let ghost rb = r@;
                let id = self.slots[i].id;
                proof {
                    assert(!rb.contains(id)) by {
                        if rb.contains(id) {
                            let k = choose|k: int| 0 <= k < i && (#[trigger] self.slots@[k]).id == id && active_on(self.slots@[k].group, worker_id@);
                            assert(self.slots@[k].id != self.slots@[i as int].id);
                        }
                    }
                }
                r.push(id);
                proof {
                    assert forall|a: int, b: int| 0 <= a < r.len() && 0 <= b < r.len() && a != b implies r@[a] != r@[b] by {
                        if a < rb.len() && b < rb.len() {
                            assert(rb[a] != rb[b]);
                        } else if a < rb.len() {
                            assert(rb.contains(rb[a]));
                        } else {
                            assert(rb.contains(rb[b]));
                        }
                    }
                    assert forall|x: u128| r@.contains(x) <==> exists|k: int|
                        0 <= k < i + 1 && (#[trigger] self.slots@[k]).id == x && active_on(self.slots@[k].group, worker_id@) by {
                        if r@.contains(x) {
                            let a = choose|a: int| 0 <= a < r.len() && r@[a] == x;
                            if a == rb.len() {
                                assert(self.slots@[i as int].id == x);
                            } else {
                                assert(rb[a] == x);
                                assert(rb.contains(x));
                            }
                        }
                        if exists|k: int| 0 <= k < i + 1 && (#[trigger] self.slots@[k]).id == x && active_on(self.slots@[k].group, worker_id@) {
                            let k = choose|k: int| 0 <= k < i + 1 && (#[trigger] self.slots@[k]).id == x && active_on(self.slots@[k].group, worker_id@);
                            if k == i {
                                assert(r@[rb.len() as int] == x);
                            } else {
                                assert(rb.contains(x));
                                let a = choose|a: int| 0 <= a < rb.len() && rb[a] == x;
                                assert(r@[a] == x);
                            }
                        }
                    }
                }
            }
            i += 1;
        }
        proof {
            assert forall|x: u128| r@.contains(x) <==> active_on(#[trigger] self.group(x), worker_id@) by {
                if exists|k: int| 0 <= k < self.slots.len() && (#[trigger] self.slots@[k]).id == x {
                    let k = choose|k: int| 0 <= k < self.slots.len() && (#[trigger] self.slots@[k]).id == x;
                    lemma_slot_at(self.slots@, k);
                    if r@.contains(x) {
                        let k2 = choose|k2: int| 0 <= k2 < self.slots.len() && (#[trigger] self.slots@[k2]).id == x && active_on(self.slots@[k2].group, worker_id@);
                        lemma_slot_at(self.slots@, k2);
                    }
                }
            }
        }
        r
    }
}


impl JobGroupRegistry {
    fn pending_in(&self, group_id: u128) -> (b: bool)
        requires
            self.wf(),
        ensures
            b == has_pending(self.jobs(group_id)),
    {
        let i = match self.find(group_id) {
            None => return false,
            Some(i) => i,
        };
        match &self.slots[i].jobs {
            None => false,
            Some(js) => {
                let mut k: usize = 0;
                assert(self.jobs(group_id) == Some(js@));
                while k < js.len()
                    invariant
                        k <= js.len(),
                        self.jobs(group_id) == Some(js@),
                        forall|m: int| 0 <= m < k ==> !pending((#[trigger] js@[m]).state),
                    decreases js.len() - k,
                {
                    if js[k].state == JobState::Queued || js[k].state == JobState::Assigned {
                        assert(pending(js@[k as int].state));
                        return true;
                    }
                    k += 1;
                }
                false
            },
        }
    }

    /// On a worker's death, splits its unfinished groups into those that can
    /// move to another worker (some job not started yet) and those to fail
    /// (every remaining job was running on it).
    pub fn handle_worker_death(&self, worker_id: &str) -> (r: (Vec<u128>, Vec<u128>))
        requires
            self.wf(),
        ensures
            r.0@.no_duplicates(),
            r.1@.no_duplicates(),
            forall|x: u128|
                r.0@.contains(x) <==> active_on(#[trigger] self.group(x), worker_id@) && has_pending(self.jobs(x)),
            forall|x: u128|
                r.1@.contains(x) <==> active_on(#[trigger] self.group(x), worker_id@) && !has_pending(self.jobs(x)),
    {
        let ids = self.get_groups_for_worker(worker_id);
        let mut to_migrate: Vec<u128> = Vec::new();
        let mut to_fail: Vec<u128> = Vec::new();
        let mut i: usize = 0;
        while i < ids.len()
            invariant
                i <= ids.len(),
                self.wf(),
                ids@.no_duplicates(),
                forall|x: u128| ids@.contains(x) <==> active_on(#[trigger] self.group(x), worker_id@),
                to_migrate@.no_duplicates(),
                to_fail@.no_duplicates(),
                forall|x: u128|
                    to_migrate@.contains(x) <==> (ids@.subrange(0, i as int).contains(x) && has_pending(
                        #[trigger] self.jobs(x),
                    )),
                forall|x: u128|
                    to_fail@.contains(x) <==> (ids@.subrange(0, i as int).contains(x) && !has_pending(
                        #[trigger] self.jobs(x),
                    )),
            decreases ids.len() - i,
        {
            let id = ids[i];
            let ghost pre = ids@.subrange(0, i as int);
            let ghost post = ids@.subrange(0, i + 1);
            proof {
                assert(!pre.contains(id)) by {
                    if pre.contains(id) {
                        let k = choose|k: int| 0 <= k < pre.len() && pre[k] == id;
                        assert(ids@[k] == ids@[i as int]);
                    }
                }
                assert forall|x: u128| post.contains(x) <==> (pre.contains(x) || x == id) by {
                    if post.contains(x) {
                        let k = choose|k: int| 0 <= k < post.len() && post[k] == x;
                        if k < i {
                            assert(pre[k] == x);
                        }
                    }
                    if pre.contains(x) {
                        let k = choose|k: int| 0 <= k < pre.len() && pre[k] == x;
                        assert(post[k] == x);
                    }
                    if x == id {
                        assert(post[i as int] == x);
                    }
                }
            }
            if self.pending_in(id) {
                let ghost tb = to_migrate@;
                to_migrate.push(id);
                proof {
                    assert(!tb.contains(id));
                    assert forall|a: int, b: int| 0 <= a < to_migrate.len() && 0 <= b < to_migrate.len() && a != b
                        implies to_migrate@[a] != to_migrate@[b] by {
                        if a < tb.len() && b < tb.len() {
                            assert(tb[a] != tb[b]);
                        } else if a < tb.len() {
                            assert(tb.contains(tb[a]));
                        } else {
                            assert(tb.contains(tb[b]));
                        }
                    }
                    assert forall|x: u128| to_migrate@.contains(x) <==> (tb.contains(x) || x == id) by {
                        if to_migrate@.contains(x) {
                            let k = choose|k: int| 0 <= k < to_migrate.len() && to_migrate@[k] == x;
                            if k < tb.len() {
                                assert(tb[k] == x);
                            }
                        }
                        if tb.contains(x) {
                            let k = choose|k: int| 0 <= k < tb.len() && tb[k] == x;
                            assert(to_migrate@[k] == x);
                        }
                        if x == id {
                            assert(to_migrate@[tb.len() as int] == x);
                        }
                    }
                }
            } else {
                let ghost tb = to_fail@;
                to_fail.push(id);
                proof {
                    assert(!tb.contains(id));
                    assert forall|a: int, b: int| 0 <= a < to_fail.len() && 0 <= b < to_fail.len() && a != b
                        implies to_fail@[a] != to_fail@[b] by {
                        if a < tb.len() && b < tb.len() {
                            assert(tb[a] != tb[b]);
                        } else if a < tb.len() {
                            assert(tb.contains(tb[a]));
                        } else {
                            assert(tb.contains(tb[b]));
                        }
                    }
                    assert forall|x: u128| to_fail@.contains(x) <==> (tb.contains(x) || x == id) by {
                        if to_fail@.contains(x) {
                            let k = choose|k: int| 0 <= k < to_fail.len() && to_fail@[k] == x;
                            if k < tb.len() {
                                assert(tb[k] == x);
                            }
                        }
                        if tb.contains(x) {
                            let k = choose|k: int| 0 <= k < tb.len() && tb[k] == x;
                            assert(to_fail@[k] == x);
                        }
                        if x == id {
                            assert(to_fail@[tb.len() as int] == x);
                        }
                    }
                }
            }
            i += 1;
        }
        assert(ids@.subrange(0, ids.len() as int) =~= ids@);
        (to_migrate, to_fail)
    }

    /// Moves a group to `new_worker_id` at `now`; its jobs that have not
    /// started go along.
    pub fn migrate_group(&mut self, group_id: u128, new_worker_id: &str, now: UtcTime)
        requires
            old(self).wf(),
        ensures
            final(self).wf(),
            match old(self).group(group_id) {
                Some(g) => final(self).group(group_id) matches Some(g2) && opt_text(g2.reserved_worker_id) == Some(
                    new_worker_id@,
                ) && g2 == (JobGroup { reserved_worker_id: g2.reserved_worker_id, updated_at: now, ..g }),
                None => final(self).group(group_id) is None,
            },
            match old(self).jobs(group_id) {
                Some(js) => final(self).jobs(group_id) matches Some(ns) && ns.len() == js.len() && forall|k: int|
                    0 <= k < js.len() ==> moved_to(js[k], #[trigger] ns[k], new_worker_id@),
                None => final(self).jobs(group_id) is None,
            },
            forall|x: u128|
                x != group_id ==> #[trigger] final(self).group(x) == old(self).group(x) && final(self).jobs(x)
                    == old(self).jobs(x),
    {
        let i = match self.find(group_id) {
            None => return,
            Some(i) => i,
        };
        let ghost s1 = self.slots@;
        let sl = self.take(i);
        let ghost s2 = self.slots@;
        let ng = match sl.group {
            Some(g) => Some(JobGroup { reserved_worker_id: Some(String::from_str(new_worker_id)), updated_at: now, ..g }),
            None => None,
        };
        let nj = match sl.jobs {
            Some(js) => Some(assign_pending(js, new_worker_id)),
            None => None,
        };
        let ns = GroupSlot { id: sl.id, group: ng, jobs: nj };
        self.put(i, ns);
        proof {
            Self::lemma_replaced(s1, s2, self.slots@, i as int, ns);
        }
    }

    /// Fails a group whose worker died without a replacement: its
    /// unfinished jobs fail with `reason` at `now`, and the group fails.
    pub fn fail_group_jobs(&mut self, group_id: u128, reason: &str, now: UtcTime)
        requires
            old(self).wf(),
        ensures
            final(self).wf(),
            final(self).group(group_id) == match old(self).group(group_id) {
                Some(g) => Some(transitioned(g, JobGroupState::Failed, now)),
                None => None,
            },
            match old(self).jobs(group_id) {
                Some(js) => final(self).jobs(group_id) matches Some(ns) && ns.len() == js.len() && forall|k: int|
                    0 <= k < js.len() ==> failed_with(js[k], #[trigger] ns[k], reason@, now),
                None => final(self).jobs(group_id) is None,
            },
            forall|x: u128|
                x != group_id ==> #[trigger] final(self).group(x) == old(self).group(x) && final(self).jobs(x)
                    == old(self).jobs(x),
    {
        let i = match self.find(group_id) {
            None => return,
            Some(i) => i,
        };
        let ghost s1 = self.slots@;
        let sl = self.take(i);
        let ghost s2 = self.slots@;
        let ng = match sl.group {
            Some(g) => Some(JobGroup { state: JobGroupState::Failed, updated_at: now, completed_at: Some(now), ..g }),
            None => None,
        };
        let nj = match sl.jobs {
            Some(js) => Some(fail_unfinished(js, reason, now)),
            None => None,
        };
        let ns = GroupSlot { id: sl.id, group: ng, jobs: nj };
        self.put(i, ns);
        proof {
            Self::lemma_replaced(s1, s2, self.slots@, i as int, ns);
        }
    }

    /// The worker whose reservation to release once a group has finished.
    pub fn on_group_completed(&self, group_id: u128) -> (r: Option<String>)
        requires
            self.wf(),
        ensures
            opt_text(r) == match self.group(group_id) {
                Some(g) => if group_terminal(g.state) {
                    opt_text(g.reserved_worker_id)
                } else {
                    None
                },
                None => None,
            },
    {
        match self.get(group_id) {
            Some(g) => if g.state.is_terminal() {
                match &g.reserved_worker_id {
                    Some(w) => Some(w.clone()),
                    None => None,
                }
            } else {
                None
            },
            None => None,
        }
    }

    /// Whether every stage in `depends_on` has succeeded in the group.
    pub fn can_submit_stage(&self, group_id: u128, stage_name: &str, depends_on: &Vec<String>) -> (b: bool)
        requires
            self.wf(),
        ensures
            b == (depends_on@.len() == 0 || (self.jobs(group_id) matches Some(js) && deps_done(js, depends_on@))),
    {
        if depends_on.len() == 0 {
            return true;
        }
        let i = match self.find(group_id) {
            None => return false,
            Some(i) => i,
        };
        match &self.slots[i].jobs {
            None => false,
            Some(js) => all_deps_done(js, depends_on),
        }
    }

    /// The queued jobs of a group, each as a batch of its own.
    pub fn get_parallel_stages(&self, group_id: u128) -> (r: Vec<Vec<String>>)
        requires
            self.wf(),
        ensures
            match self.jobs(group_id) {
                Some(js) => r@.len() == queued_ids(js).len() && forall|k: int|
                    0 <= k < r@.len() ==> (#[trigger] r@[k])@.len() == 1 && r@[k]@[0]@ == queued_ids(js)[k],
                None => r@.len() == 0,
            },
    {
        let i = match self.find(group_id) {
            None => return Vec::new(),
            Some(i) => i,
        };
        match &self.slots[i].jobs {
            None => Vec::new(),
            Some(js) => {
                let mut out: Vec<Vec<String>> = Vec::new();
                let mut k: usize = 0;
                while k < js.len()
                    invariant
                        k <= js.len(),
                        out@.len() == queued_ids(js@.subrange(0, k as int)).len(),
                        forall|m: int|
                            0 <= m < out@.len() ==> (#[trigger] out@[m])@.len() == 1 && out@[m]@[0]@ == queued_ids(
                                js@.subrange(0, k as int),
                            )[m],
                    decreases js.len() - k,
                {
                    proof {
                        assert(js@.subrange(0, k + 1).drop_last() =~= js@.subrange(0, k as int));
                        assert(js@.subrange(0, k + 1).last() == js@[k as int]);
                    }
                    if js[k].state == JobState::Queued {
                        out.push(vec![js[k].job_id.clone()]);
                    }
                    k += 1;
                }
                assert(js@.subrange(0, js.len() as int) =~= js@);
                out
            },
        }
    }
}

/// Ids of the queued jobs, in order.
pub open spec fn queued_ids(js: Seq<Job>) -> Seq<Seq<char>>
    decreases js.len(),
{
    if js.len() == 0 {
        Seq::empty()
    } else if js.last().state == JobState::Queued {
        queued_ids(js.drop_last()).push(js.last().job_id@)
    } else {
        queued_ids(js.drop_last())
    }
}


// ── Reservation timeouts ────────────────────────────────────────────────────
/// Whole seconds since `last`, none when `last` is ahead of `now`.
pub open spec fn idle_for(last: UtcTime, now: UtcTime) -> u64 {
    let e = elapsed_secs(last, now);
    (if e < 0 {
        0
    } else {
        e
    }) as u64
}

/// Some job of the group is running or handed to its worker.
pub open spec fn busy(js: Option<Seq<Job>>) -> bool {
    js matches Some(v) && exists|i: int|
        0 <= i < v.len() && ((#[trigger] v[i]).state == JobState::Running || v[i].state == JobState::Assigned)
}

/// The inactivity a group is allowed: `idle_cfg` while reserved and no stage
/// came, `stall_cfg` while running between stages, none (0) otherwise.
pub open spec fn timeout_for(state: JobGroupState, is_busy: bool, idle_cfg: u64, stall_cfg: u64) -> u64 {
    match state {
        JobGroupState::Reserved => idle_cfg,
        JobGroupState::Running => if is_busy {
            0
        } else {
            stall_cfg
        },
        _ => 0,
    }
}

/// A reservation to reap: reserved and idle longer than `idle_timeout`, or
/// running with no stage in progress and idle longer than `stall_timeout`.
pub open spec fn stale(g: JobGroup, js: Option<Seq<Job>>, now: UtcTime, idle_timeout: u64, stall_timeout: u64) -> bool {
    let idle = idle_for(g.last_activity_at, now);
    match g.state {
        JobGroupState::Reserved => idle > idle_timeout,
        JobGroupState::Running => !busy(js) && idle > stall_timeout,
        _ => false,
    }
}

/// Seconds left before the group times out, or -1 when it has no timeout.
pub open spec fn remaining_for(g: JobGroup, js: Option<Seq<Job>>, now: UtcTime, idle_cfg: u64, stall_cfg: u64) -> i64 {
    let t = timeout_for(g.state, busy(js), idle_cfg, stall_cfg);
    let idle = idle_for(g.last_activity_at, now);
    if t > 0 {
        (if t > idle {
            t - idle
        } else {
            0
        }) as i64
    } else {
        -1i64
    }
}

/// The reason a reaped group carries.
pub open spec fn reap_reason_text(was_reserved: bool, idle_timeout: u64, stall_timeout: u64) -> Seq<char> {
    if was_reserved {
        "Reservation expired: no stage submitted within "@ + dec(idle_timeout as int) + "s"@
    } else {
        "Reservation expired: no activity for "@ + dec(stall_timeout as int) + "s after last stage"@
    }
}

/// A group closed at `now` as `to` (expired or cancelled) for `reason`: it
/// takes that state and the reason, then fails with its unfinished jobs.
pub open spec fn closed(g: JobGroup, ng: JobGroup, to: JobGroupState, reason: Seq<char>, now: UtcTime) -> bool {
    &&& ng == JobGroup {
        status_reason: ng.status_reason,
        ..transitioned(transitioned(g, to, now), JobGroupState::Failed, now)
    }
    &&& opt_text(ng.status_reason) == Some(reason)
}

/// Only reservations and running builds time out. A pending or finished
/// group has no timeout and no time left (-1); a reserved one counts down
/// the idle timeout; a running one counts down the stall timeout while no
/// stage is in progress and has none while one is.
pub proof fn law_only_live_groups_time_out(
    g: JobGroup,
    js: Option<Seq<Job>>,
    now: UtcTime,
    idle_cfg: u64,
    stall_cfg: u64,
)
    ensures
        g.state != JobGroupState::Reserved && g.state != JobGroupState::Running ==> timeout_for(
            g.state,
            busy(js),
            idle_cfg,
            stall_cfg,
        ) == 0 && remaining_for(g, js, now, idle_cfg, stall_cfg) == -1,
        g.state == JobGroupState::Reserved ==> timeout_for(g.state, busy(js), idle_cfg, stall_cfg) == idle_cfg,
        g.state == JobGroupState::Running && busy(js) ==> remaining_for(g, js, now, idle_cfg, stall_cfg) == -1,
        g.state == JobGroupState::Running && !busy(js) ==> timeout_for(g.state, busy(js), idle_cfg, stall_cfg)
            == stall_cfg,
{
}

/// The reaper and the status page agree: a group the reaper takes has no
/// time left on its timeout (for positive timeouts).
pub proof fn law_stale_means_no_time_left(
    g: JobGroup,
    js: Option<Seq<Job>>,
    now: UtcTime,
    idle_timeout: u64,
    stall_timeout: u64,
)
    requires
        idle_timeout > 0,
        stall_timeout > 0,
        stale(g, js, now, idle_timeout, stall_timeout),
    ensures
        remaining_for(g, js, now, idle_timeout, stall_timeout) == 0,
{
}

pub fn idle_seconds(last: UtcTime, now: UtcTime) -> (r: u64)
    ensures
        r == idle_for(last, now),
{
    let e = elapsed_seconds(last, now);
    if e < 0 {
        0
    } else {
        e as u64
    }
}

pub fn group_timeout(state: JobGroupState, is_busy: bool, idle_cfg: u64, stall_cfg: u64) -> (t: u64)
    ensures
        t == timeout_for(state, is_busy, idle_cfg, stall_cfg),
{
    match state {
        JobGroupState::Reserved => idle_cfg,
        JobGroupState::Running => if is_busy {
            0
        } else {
            stall_cfg
        },
        _ => 0,
    }
}

/// The reason a reaped group carries: it was reserved and no stage came
/// within `idle_timeout`, or it stalled for `stall_timeout` after a stage.
pub fn reap_reason(was_reserved: bool, idle_timeout: u64, stall_timeout: u64) -> (s: String)
    ensures
        s@ == reap_reason_text(was_reserved, idle_timeout, stall_timeout),
{
    let mut s = String::new();
    if was_reserved {
        push_str(&mut s, "Reservation expired: no stage submitted within ");
        push_u64(&mut s, idle_timeout);
        assert(dec(idle_timeout as int) == dec_digits(idle_timeout as nat));
        push_str(&mut s, "s");
    } else {
        push_str(&mut s, "Reservation expired: no activity for ");
        push_u64(&mut s, stall_timeout);
        assert(dec(stall_timeout as int) == dec_digits(stall_timeout as nat));
        push_str(&mut s, "s after last stage");
    }
    s
}

fn any_busy(js: &[Job]) -> (b: bool)
    ensures
        b == exists|i: int|
            0 <= i < js@.len() && ((#[trigger] js@[i]).state == JobState::Running || js@[i].state
                == JobState::Assigned),
{
    let mut k: usize = 0;
    while k < js.len()
        invariant
            k <= js.len(),
            forall|m: int|
                0 <= m < k ==> !((#[trigger] js@[m]).state == JobState::Running || js@[m].state
                    == JobState::Assigned),
        decreases js.len() - k,
    {
        if js[k].state == JobState::Running || js[k].state == JobState::Assigned {
            return true;
        }
        k += 1;
    }
    false
}

proof fn lemma_push_fresh(before: Seq<u128>, after: Seq<u128>, id: u128)
    requires
        before.no_duplicates(),
        !before.contains(id),
        after == before.push(id),
    ensures
        after.no_duplicates(),
        forall|x: u128| #[trigger] after.contains(x) <==> before.contains(x) || x == id,
{
    assert forall|a: int, b: int| 0 <= a < after.len() && 0 <= b < after.len() && a != b implies after[a]
        != after[b] by {
        if a < before.len() && b < before.len() {
            assert(before[a] != before[b]);
        } else if a < before.len() {
            assert(before.contains(before[a]));
        } else {
            assert(before.contains(before[b]));
        }
    }
    assert forall|x: u128| #[trigger] after.contains(x) <==> before.contains(x) || x == id by {
        if after.contains(x) {
            let k = choose|k: int| 0 <= k < after.len() && after[k] == x;
            if k < before.len() {
                assert(before[k] == x);
            }
        }
        if before.contains(x) {
            let k = choose|k: int| 0 <= k < before.len() && before[k] == x;
            assert(after[k] == x);
        }
        if x == id {
            assert(after[before.len() as int] == x);
        }
    }
}

impl JobGroupRegistry {
    fn busy_group(&self, group_id: u128) -> (b: bool)
        requires
            self.wf(),
        ensures
            b == busy(self.jobs(group_id)),
    {
        let js = self.get_jobs_for_group(group_id);
        any_busy(js)
    }

    /// Whether the group is a reservation to reap at `now`.
    pub fn is_stale(&self, group_id: u128, now: UtcTime, idle_timeout: u64, stall_timeout: u64) -> (b: bool)
        requires
            self.wf(),
        ensures
            b == (self.group(group_id) matches Some(g) && stale(
                g,
                self.jobs(group_id),
                now,
                idle_timeout,
                stall_timeout,
            )),
    {
        match self.get(group_id) {
            None => false,
            Some(g) => {
                let idle = idle_seconds(g.last_activity_at, now);
                match g.state {
                    JobGroupState::Reserved => idle > idle_timeout,
                    JobGroupState::Running => !self.busy_group(group_id) && idle > stall_timeout,
                    _ => false,
                }
            },
        }
    }

    /// The groups to reap at `now`: reserved ones idle longer than
    /// `idle_timeout`, running ones with no stage in progress idle longer
    /// than `stall_timeout`.
    pub fn stale_groups(&self, now: UtcTime, idle_timeout: u64, stall_timeout: u64) -> (r: Vec<u128>)
        requires
            self.wf(),
        ensures
            r@.no_duplicates(),
            forall|x: u128|
                r@.contains(x) <==> ((#[trigger] self.group(x)) matches Some(g) && stale(
                    g,
                    self.jobs(x),
                    now,
                    idle_timeout,
                    stall_timeout,
                )),
    {
        let ids = self.active_groups();
        let mut out: Vec<u128> = Vec::new();
        let mut i: usize = 0;
        while i < ids.len()
            invariant
                i <= ids.len(),
                self.wf(),
                ids@.no_duplicates(),
                forall|x: u128| ids@.contains(x) <==> ((#[trigger] self.group(x)) matches Some(g) && !group_terminal(g.state)),
                out@.no_duplicates(),
                forall|x: u128|
                    out@.contains(x) <==> (ids@.subrange(0, i as int).contains(x) && ((#[trigger] self.group(x)) matches Some(g)
                        && stale(g, self.jobs(x), now, idle_timeout, stall_timeout))),
            decreases ids.len() - i,
        {
            let id = ids[i];
            let ghost pre = ids@.subrange(0, i as int);
            let ghost post = ids@.subrange(0, i + 1);
            proof {
                assert(!pre.contains(id)) by {
                    if pre.contains(id) {
                        let k = choose|k: int| 0 <= k < pre.len() && pre[k] == id;
                        assert(ids@[k] == ids@[i as int]);
                    }
                }
                assert(post =~= pre.push(id));
                lemma_push_fresh(pre, post, id);
            }
            if self.is_stale(id, now, idle_timeout, stall_timeout) {
                let ghost ob = out@;
                out.push(id);
                proof {
                    lemma_push_fresh(ob, out@, id);
                }
            }
            i += 1;
        }
        proof {
            assert(ids@.subrange(0, ids.len() as int) =~= ids@);
            assert forall|x: u128|
                out@.contains(x) <==> ((#[trigger] self.group(x)) matches Some(g) && stale(
                    g,
                    self.jobs(x),
                    now,
                    idle_timeout,
                    stall_timeout,
                )) by {
                if (self.group(x) matches Some(g) && stale(g, self.jobs(x), now, idle_timeout, stall_timeout)) {
                    assert(ids@.contains(x));
                }
            }
        }
        out
    }

    /// Seconds before the group times out at `now` (idle while reserved,
    /// stalled while running with no stage in progress); -1 when it has no
    /// timeout or is unknown.
    pub fn time_until_timeout(&self, group_id: u128, now: UtcTime, idle_cfg: u64, stall_cfg: u64) -> (r: i64)
        requires
            self.wf(),
        ensures
            r == match self.group(group_id) {
                Some(g) => remaining_for(g, self.jobs(group_id), now, idle_cfg, stall_cfg),
                None => -1i64,
            },
    {
        match self.get(group_id) {
            None => -1,
            Some(g) => {
                let idle = idle_seconds(g.last_activity_at, now);
                let is_busy = self.busy_group(group_id);
                let t = group_timeout(g.state, is_busy, idle_cfg, stall_cfg);
                if t > 0 {
                    t.saturating_sub(idle) as i64
                } else {
                    -1
                }
            },
        }
    }

    /// Sets the reason a group carries.
    pub fn set_status_reason(&mut self, group_id: u128, reason: &str)
        requires
            old(self).wf(),
        ensures
            final(self).wf(),
            match old(self).group(group_id) {
                Some(g) => final(self).group(group_id) matches Some(ng) && ng == JobGroup {
                    status_reason: ng.status_reason,
                    ..g
                } && opt_text(ng.status_reason) == Some(reason@),
                None => final(self).group(group_id) is None,
            },
            forall|x: u128| #[trigger] final(self).jobs(x) == old(self).jobs(x),
            forall|x: u128| x != group_id ==> #[trigger] final(self).group(x) == old(self).group(x),
    {
        match self.find(group_id) {
            None => {},
            Some(i) => {
                let ghost s1 = self.slots@;
                let sl = self.take(i);
                let ghost s2 = self.slots@;
                let ng = match sl.group {
                    Some(g) => Some(JobGroup { status_reason: Some(String::from_str(reason)), ..g }),
                    None => None,
                };
                let ns = GroupSlot { id: sl.id, group: ng, jobs: sl.jobs };
                self.put(i, ns);
                proof {
                    Self::lemma_replaced(s1, s2, self.slots@, i as int, ns);
                }
            },
        }
    }

    /// Closes a group at `now` as `to` (expired or cancelled) for `reason`:
    /// it takes that state and carries the reason, then its unfinished jobs
    /// fail with that reason, which leaves the group failed.
    pub fn close_group(&mut self, group_id: u128, to: JobGroupState, reason: &str, now: UtcTime)
        requires
            old(self).wf(),
            to == JobGroupState::Expired || to == JobGroupState::Cancelled,
        ensures
            final(self).wf(),
            match old(self).group(group_id) {
                Some(g) => final(self).group(group_id) matches Some(ng) && closed(g, ng, to, reason@, now),
                None => final(self).group(group_id) is None,
            },
            match old(self).jobs(group_id) {
                Some(js) => final(self).jobs(group_id) matches Some(ns) && ns.len() == js.len() && forall|k: int|
                    0 <= k < js.len() ==> failed_with(js[k], #[trigger] ns[k], reason@, now),
                None => final(self).jobs(group_id) is None,
            },
            forall|x: u128|
                x != group_id ==> #[trigger] final(self).group(x) == old(self).group(x) && final(self).jobs(x)
                    == old(self).jobs(x),
    {
        self.update_state(group_id, to, now);
        self.set_status_reason(group_id, reason);
        self.fail_group_jobs(group_id, reason, now);
    }

    /// Cancels a group at `now` on behalf of `username`; a finished group is
    /// refused with a conflict.
    pub fn cancel_group(&mut self, group_id: u128, username: &str, now: UtcTime) -> (r: Result<(), ApiError>)
        requires
            old(self).wf(),
        ensures
            final(self).wf(),
            match old(self).group(group_id) {
                Some(g) if group_terminal(g.state) => r matches Err(e) && e@ == ApiErrorV::Conflict(
                    "Job group already in terminal state"@,
                ) && *final(self) == *old(self),
                _ => r is Ok && (match old(self).group(group_id) {
                    Some(g) => final(self).group(group_id) matches Some(ng) && closed(
                        g,
                        ng,
                        JobGroupState::Cancelled,
                        "Cancelled via API by "@ + username@,
                        now,
                    ),
                    None => final(self).group(group_id) is None,
                }) && (match old(self).jobs(group_id) {
                    Some(js) => final(self).jobs(group_id) matches Some(ns) && ns.len() == js.len() && forall|k: int|
                        0 <= k < js.len() ==> failed_with(
                            js[k],
                            #[trigger] ns[k],
                            "Cancelled via API by "@ + username@,
                            now,
                        ),
                    None => final(self).jobs(group_id) is None,
                }) && forall|x: u128|
                    x != group_id ==> #[trigger] final(self).group(x) == old(self).group(x) && final(self).jobs(
                        x,
                    ) == old(self).jobs(x),
            },
    {
        match self.get(group_id) {
            Some(g) => if g.state.is_terminal() {
                return Err(ApiError::Conflict(String::from_str("Job group already in terminal state")));
            },
            None => {},
        }
        let mut reason = String::new();
        push_str(&mut reason, "Cancelled via API by ");
        push_str(&mut reason, username);
        self.close_group(group_id, JobGroupState::Cancelled, reason.as_str(), now);
        Ok(())
    }
}


/// `s` lists, once each, exactly the groups of `r` that satisfy `p`.
pub open spec fn lists_groups(r: JobGroupRegistry, s: Seq<u128>, p: spec_fn(JobGroup) -> bool) -> bool {
    &&& s.no_duplicates()
    &&& forall|x: u128| s.contains(x) <==> ((#[trigger] r.group(x)) matches Some(g) && p(g))
}

pub open spec fn unfinished() -> spec_fn(JobGroup) -> bool {
    |g: JobGroup| !group_terminal(g.state)
}

/// Finished and last updated before `cutoff`.
pub open spec fn evictable_before(cutoff: UtcTime) -> spec_fn(JobGroup) -> bool {
    |g: JobGroup| group_terminal(g.state) && earlier(g.updated_at, cutoff)
}

pub open spec fn running() -> spec_fn(JobGroup) -> bool {
    |g: JobGroup| g.state == JobGroupState::Running
}

impl JobGroupRegistry {
    /// How many groups are unfinished, and how many are running.
    pub fn group_counts(&self) -> (r: (usize, usize))
        requires
            self.wf(),
        ensures
            exists|s: Seq<u128>| lists_groups(*self, s, unfinished()) && s.len() == r.0,
            exists|s: Seq<u128>| lists_groups(*self, s, running()) && s.len() == r.1,
    {
        let ids = self.active_groups();
        let mut run: Vec<u128> = Vec::new();
        let mut i: usize = 0;
        while i < ids.len()
            invariant
                i <= ids.len(),
                self.wf(),
                ids@.no_duplicates(),
                forall|x: u128| ids@.contains(x) <==> ((#[trigger] self.group(x)) matches Some(g) && !group_terminal(g.state)),
                run@.no_duplicates(),
                forall|x: u128|
                    run@.contains(x) <==> (ids@.subrange(0, i as int).contains(x) && ((#[trigger] self.group(x)) matches Some(g)
                        && g.state == JobGroupState::Running)),
            decreases ids.len() - i,
        {
            let id = ids[i];
            let ghost pre = ids@.subrange(0, i as int);
            let ghost post = ids@.subrange(0, i + 1);
            proof {
                assert(!pre.contains(id)) by {
                    if pre.contains(id) {
                        let k = choose|k: int| 0 <= k < pre.len() && pre[k] == id;
                        assert(ids@[k] == ids@[i as int]);
                    }
                }
                assert(post =~= pre.push(id));
                lemma_push_fresh(pre, post, id);
            }
            let is_running = match self.get(id) {
                Some(g) => g.state == JobGroupState::Running,
                None => false,
            };
            if is_running {
                let ghost rb = run@;
                run.push(id);
                proof {
                    lemma_push_fresh(rb, run@, id);
                }
            }
            i += 1;
        }
        proof {
            assert(ids@.subrange(0, ids.len() as int) =~= ids@);
            assert(lists_groups(*self, ids@, unfinished()));
            assert forall|x: u128|
                run@.contains(x) <==> ((#[trigger] self.group(x)) matches Some(g) && running()(g)) by {
                if (self.group(x) matches Some(g) && g.state == JobGroupState::Running) {
                    assert(ids@.contains(x));
                }
            }
            assert(lists_groups(*self, run@, running()));
        }
        (ids.len(), run.len())
    }
}


// ── Stuck groups and what a restart finds ───────────────────────────────────
/// Running, and last updated four hours or more before `now`.
pub open spec fn stuck_at(now: UtcTime) -> spec_fn(JobGroup) -> bool {
    |g: JobGroup| g.state == JobGroupState::Running && elapsed_secs(g.updated_at, now) >= 14400
}

/// The reservation timeout in seconds as the startup check applies it: a
/// timeout too long to be a `chrono` duration counts as four hours.
pub open spec fn startup_timeout(timeout: u64) -> int {
    if timeout <= 9223372036854775 {
        timeout as int
    } else {
        14400
    }
}

/// Reserved, and created longer than the reservation timeout before `now`.
pub open spec fn stale_at_startup(now: UtcTime, timeout: u64) -> spec_fn(JobGroup) -> bool {
    |g: JobGroup|
        g.state == JobGroupState::Reserved && elapsed_nanos(g.created_at, now) > startup_timeout(timeout) * 1_000_000_000
}

pub open spec fn startup_reason() -> Seq<char> {
    "Reservation expired on startup (stale from previous run)"@
}

/// `ng` is `g` expired at `now`, carrying the startup reason.
pub open spec fn expired_at_startup(g: JobGroup, ng: JobGroup, now: UtcTime) -> bool {
    &&& ng == JobGroup { status_reason: ng.status_reason, ..transitioned(g, JobGroupState::Expired, now) }
    &&& opt_text(ng.status_reason) == Some(startup_reason())
}

/// A group before (`g`) and after (`ng`) the startup expiry.
pub open spec fn after_startup(g: Option<JobGroup>, ng: Option<JobGroup>, now: UtcTime, timeout: u64) -> bool {
    match g {
        Some(g) => if stale_at_startup(now, timeout)(g) {
            ng matches Some(n) && expired_at_startup(g, n, now)
        } else {
            ng == Some(g)
        },
        None => ng is None,
    }
}

/// A group just reserved on `worker` at `now`.
pub open spec fn reserved_on(g: JobGroup, id: u128, worker: Seq<char>, now: UtcTime) -> bool {
    &&& g.id == id
    &&& g.state == JobGroupState::Reserved
    &&& g.reserved_stages@.len() == 0
    &&& opt_text(g.reserved_worker_id) == Some(worker)
    &&& g.status_reason is None
    &&& g.created_at == now && g.updated_at == now && g.last_activity_at == now
    &&& g.completed_at is None
}

/// `after` is `before` with group `id` just reserved on `worker` at `now`;
/// the jobs filed under `id` stay.
pub open spec fn created_reserved(
    before: JobGroupRegistry,
    after: JobGroupRegistry,
    id: u128,
    worker: Seq<char>,
    now: UtcTime,
) -> bool {
    &&& after.group(id) matches Some(g) && reserved_on(g, id, worker, now)
    &&& after.jobs(id) == Some(
        match before.jobs(id) {
            Some(js) => js,
            None => Seq::<Job>::empty(),
        },
    )
    &&& forall|x: u128| x != id ==> #[trigger] after.group(x) == before.group(x) && after.jobs(x) == before.jobs(x)
}

fn opt_string(s: &Option<String>) -> (r: Option<String>)
    ensures
        opt_text(r) == opt_text(*s),
{
    match s {
        Some(t) => Some(t.clone()),
        None => None,
    }
}

impl JobGroupRegistry {
    /// The groups stuck at `now`: running, and last updated four hours or
    /// more before.
    pub fn stuck_groups(&self, now: UtcTime) -> (r: Vec<u128>)
        requires
            self.wf(),
        ensures
            lists_groups(*self, r@, stuck_at(now)),
    {
        let ids = self.active_groups();
        let mut out: Vec<u128> = Vec::new();
        let mut i: usize = 0;
        while i < ids.len()
            invariant
                i <= ids.len(),
                self.wf(),
                ids@.no_duplicates(),
                forall|x: u128| ids@.contains(x) <==> ((#[trigger] self.group(x)) matches Some(g) && !group_terminal(g.state)),
                out@.no_duplicates(),
                forall|x: u128|
                    out@.contains(x) <==> (ids@.subrange(0, i as int).contains(x) && ((#[trigger] self.group(x)) matches Some(g)
                        && stuck_at(now)(g))),
            decreases ids.len() - i,
        {
            let id = ids[i];
            let ghost pre = ids@.subrange(0, i as int);
            let ghost post = ids@.subrange(0, i + 1);
            proof {
                assert(!pre.contains(id)) by {
                    if pre.contains(id) {
                        let k = choose|k: int| 0 <= k < pre.len() && pre[k] == id;
                        assert(ids@[k] == ids@[i as int]);
                    }
                }
                assert(post =~= pre.push(id));
                lemma_push_fresh(pre, post, id);
            }
            let stuck = match self.get(id) {
                Some(g) => g.state == JobGroupState::Running && elapsed_seconds(g.updated_at, now) >= 14400,
                None => false,
            };
            if stuck {
                let ghost ob = out@;
                out.push(id);
                proof {
                    lemma_push_fresh(ob, out@, id);
                }
            }
            i += 1;
        }
        proof {
            assert(ids@.subrange(0, ids.len() as int) =~= ids@);
            assert forall|x: u128|
                out@.contains(x) <==> ((#[trigger] self.group(x)) matches Some(g) && stuck_at(now)(g)) by {
                if (self.group(x) matches Some(g) && stuck_at(now)(g)) {
                    assert(ids@.contains(x));
                }
            }
        }
        out
    }

    fn stale_at_startup_ids(&self, now: UtcTime, timeout: u64) -> (r: Vec<u128>)
        requires
            self.wf(),
        ensures
            lists_groups(*self, r@, stale_at_startup(now, timeout)),
    {
        let t: u64 = if timeout <= 9223372036854775 {
            timeout
        } else {
            14400
        };
        assert(0 <= t * 1_000_000_000 <= 9223372036854775 * 1_000_000_000) by (nonlinear_arith)
            requires
                t <= 9223372036854775,
        ;
        let limit: i128 = t as i128 * 1_000_000_000;
        let ids = self.active_groups();
        let mut out: Vec<u128> = Vec::new();
        let mut i: usize = 0;
        while i < ids.len()
            invariant
                i <= ids.len(),
                self.wf(),
                limit == startup_timeout(timeout) * 1_000_000_000,
                ids@.no_duplicates(),
                forall|x: u128| ids@.contains(x) <==> ((#[trigger] self.group(x)) matches Some(g) && !group_terminal(g.state)),
                out@.no_duplicates(),
                forall|x: u128|
                    out@.contains(x) <==> (ids@.subrange(0, i as int).contains(x) && ((#[trigger] self.group(x)) matches Some(g)
                        && stale_at_startup(now, timeout)(g))),
            decreases ids.len() - i,
        {
            let id = ids[i];
            let ghost pre = ids@.subrange(0, i as int);
            let ghost post = ids@.subrange(0, i + 1);
            proof {
                assert(!pre.contains(id)) by {
                    if pre.contains(id) {
                        let k = choose|k: int| 0 <= k < pre.len() && pre[k] == id;
                        assert(ids@[k] == ids@[i as int]);
                    }
                }
                assert(post =~= pre.push(id));
                lemma_push_fresh(pre, post, id);
            }
            let hit = match self.get(id) {
                Some(g) => g.state == JobGroupState::Reserved && elapsed_nanoseconds(g.created_at, now) > limit,
                None => false,
            };
            if hit {
                let ghost ob = out@;
                out.push(id);
                proof {
                    lemma_push_fresh(ob, out@, id);
                }
            }
            i += 1;
        }
        proof {
            assert(ids@.subrange(0, ids.len() as int) =~= ids@);
            assert forall|x: u128|
                out@.contains(x) <==> ((#[trigger] self.group(x)) matches Some(g) && stale_at_startup(now, timeout)(g)) by {
                if (self.group(x) matches Some(g) && stale_at_startup(now, timeout)(g)) {
                    assert(ids@.contains(x));
                }
            }
        }
        out
    }

    /// Expires, at `now`, the reservations a restart finds older than
    /// `timeout` seconds: each reserved group created longer ago than that
    /// becomes expired and carries the startup reason. Returns each such
    /// group with its reserved worker, whose store key is to be released.
    pub fn expire_stale_on_startup(&mut self, now: UtcTime, timeout: u64) -> (r: Vec<(u128, Option<String>)>)
        requires
            old(self).wf(),
        ensures
            final(self).wf(),
            lists_groups(*old(self), r@.map_values(|p: (u128, Option<String>)| p.0), stale_at_startup(now, timeout)),
            forall|k: int|
                0 <= k < r.len() ==> opt_text((#[trigger] r@[k]).1) == opt_text(
                    old(self).group(r@[k].0).unwrap().reserved_worker_id,
                ),
            forall|x: u128| #[trigger] final(self).jobs(x) == old(self).jobs(x),
            forall|x: u128| after_startup(old(self).group(x), #[trigger] final(self).group(x), now, timeout),
    {
        let ids = self.stale_at_startup_ids(now, timeout);
        let ghost pre: JobGroupRegistry = *self;
        let mut out: Vec<(u128, Option<String>)> = Vec::new();
        let mut j: usize = 0;
        while j < ids.len()
            invariant
                j <= ids.len(),
                self.wf(),
                pre.wf(),
                lists_groups(pre, ids@, stale_at_startup(now, timeout)),
                out@.len() == j,
                forall|k: int|
                    0 <= k < j ==> (#[trigger] out@[k]).0 == ids@[k] && opt_text(out@[k].1) == opt_text(
                        pre.group(ids@[k]).unwrap().reserved_worker_id,
                    ),
                forall|x: u128| #[trigger] self.jobs(x) == pre.jobs(x),
                forall|x: u128|
                    #![trigger self.group(x)]
                    if ids@.take(j as int).contains(x) {
                        pre.group(x) matches Some(g) && self.group(x) matches Some(ng) && expired_at_startup(g, ng, now)
                    } else {
                        self.group(x) == pre.group(x)
                    },
            decreases ids.len() - j,
        {
            let id = ids[j];
            proof {
                assert(ids@.contains(id));
                assert(!ids@.take(j as int).contains(id)) by {
                    if ids@.take(j as int).contains(id) {
                        let k = choose|k: int| 0 <= k < j && ids@.take(j as int)[k] == id;
                        assert(ids@[k] == ids@[j as int]);
                    }
                }
                assert(self.group(id) == pre.group(id));
            }
            let worker = match self.get(id) {
                Some(g) => opt_string(&g.reserved_worker_id),
                None => None,
            };
            self.update_state(id, JobGroupState::Expired, now);
            self.set_status_reason(id, "Reservation expired on startup (stale from previous run)");
            proof {
                let before = ids@.take(j as int);
                let after = ids@.take(j + 1);
                assert(after =~= before.push(id));
                assert(pre.group(id) matches Some(g) && stale_at_startup(now, timeout)(g));
                assert forall|x: u128|
                    #![trigger self.group(x)]
                    if after.contains(x) {
                        pre.group(x) matches Some(g) && self.group(x) matches Some(ng) && expired_at_startup(g, ng, now)
                    } else {
                        self.group(x) == pre.group(x)
                    } by {
                    if x != id {
                        if after.contains(x) {
                            let k = choose|k: int| 0 <= k < after.len() && after[k] == x;
                            assert(k < before.len());
                            assert(before[k] == x);
                        }
                        if before.contains(x) {
                            let k = choose|k: int| 0 <= k < before.len() && before[k] == x;
                            assert(after[k] == x);
                        }
                    } else {
                        assert(after[j as int] == id);
                    }
                }
            }
            out.push((id, worker));
            j += 1;
        }
        proof {
            assert(ids@.take(ids.len() as int) =~= ids@);
            assert(out@.map_values(|p: (u128, Option<String>)| p.0) =~= ids@);
        }
        out
    }

    /// Adds the group `id`, reserved at `now` on `worker`; it keeps the jobs
    /// already filed under its id.
    pub fn create_reserved_group(&mut self, id: u128, worker: &str, now: UtcTime)
        requires
            old(self).wf(),
        ensures
            final(self).wf(),
            created_reserved(*old(self), *final(self), id, worker@, now),
    {
        let g = JobGroup {
            id,
            state: JobGroupState::Reserved,
            reserved_stages: Vec::new(),
            reserved_worker_id: Some(String::from_str(worker)),
            status_reason: None,
            created_at: now,
            updated_at: now,
            completed_at: None,
            last_activity_at: now,
        };
        self.add_group(g);
    }
}

} // verus!
