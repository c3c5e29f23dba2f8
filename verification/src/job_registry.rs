//! In-memory registry of standalone jobs, keyed by job id: queueing,
//! assignment to workers, status reports and cancellation.
use crate::job_group_registry::{Job, JobState};
use crate::text::{chars_eq, chars_of};
use crate::time::{elapsed_secs, elapsed_seconds, UtcTime};
use vstd::prelude::*;

verus! {

/// A worker's report on a job: the state by its protocol number (1 queued,
/// 2 assigned, 3 running, 4 success, 5 failed, 6 cancelled, else unknown),
/// the exit code and any output.
pub struct JobStatusUpdate {
    pub job_id: String,
    pub state: i32,
    pub exit_code: i32,
    pub output: String,
}

/// The state a protocol number stands for.
pub open spec fn state_of_code(code: i32) -> JobState {
    if code == 1 {
        JobState::Queued
    } else if code == 2 {
        JobState::Assigned
    } else if code == 3 {
        JobState::Running
    } else if code == 4 {
        JobState::Success
    } else if code == 5 {
        JobState::Failed
    } else if code == 6 {
        JobState::Cancelled
    } else {
        JobState::Unknown
    }
}

pub fn job_state_from_code(code: i32) -> (s: JobState)
    ensures
        s == state_of_code(code),
{
    match code {
        1 => JobState::Queued,
        2 => JobState::Assigned,
        3 => JobState::Running,
        4 => JobState::Success,
        5 => JobState::Failed,
        6 => JobState::Cancelled,
        _ => JobState::Unknown,
    }
}

/// The protocol number of a state (0 for unknown).
pub open spec fn code_of_state(s: JobState) -> i32 {
    match s {
        JobState::Unknown => 0,
        JobState::Queued => 1,
        JobState::Assigned => 2,
        JobState::Running => 3,
        JobState::Success => 4,
        JobState::Failed => 5,
        JobState::Cancelled => 6,
    }
}

pub fn job_state_to_code(s: JobState) -> (c: i32)
    ensures
        c == code_of_state(s),
{
    match s {
        JobState::Unknown => 0,
        JobState::Queued => 1,
        JobState::Assigned => 2,
        JobState::Running => 3,
        JobState::Success => 4,
        JobState::Failed => 5,
        JobState::Cancelled => 6,
    }
}

/// A state sent to a worker reads back as the same state.
pub proof fn law_state_code_roundtrip(s: JobState)
    ensures
        state_of_code(code_of_state(s)) == s,
{
}

/// No two entries share a job id.
pub open spec fn ids_distinct(js: Seq<Job>) -> bool {
    forall|a: int, b: int|
        0 <= a < js.len() && 0 <= b < js.len() && a != b ==> (#[trigger] js[a]).job_id@ != (
        #[trigger] js[b]).job_id@
}

/// Entry `i` holds the job with id `id`.
pub open spec fn at_id(js: Seq<Job>, id: Seq<char>, i: int) -> bool {
    0 <= i < js.len() && js[i].job_id@ == id
}

/// The job with id `id`, if any.
pub open spec fn job_with_id(js: Seq<Job>, id: Seq<char>) -> Option<Job> {
    if exists|i: int| #[trigger] at_id(js, id, i) {
        Some(js[choose|i: int| #[trigger] at_id(js, id, i)])
    } else {
        None
    }
}

pub open spec fn opt_text(s: Option<String>) -> Option<Seq<char>> {
    match s {
        Some(x) => Some(x@),
        None => None,
    }
}

/// A job as a worker's report leaves it.
pub open spec fn after_report(j: Job, u: JobStatusUpdate, now: UtcTime) -> Job {
    Job {
        state: state_of_code(u.state),
        exit_code: Some(u.exit_code),
        output: if u.output@.len() > 0 {
            Some(u.output)
        } else {
            j.output
        },
        updated_at: now,
        ..j
    }
}

/// `nj` is job `j` handed to `worker` at `now`.
pub open spec fn assigned_to(j: Job, nj: Job, worker: Seq<char>, now: UtcTime) -> bool {
    &&& nj == Job { state: JobState::Assigned, assigned_worker: nj.assigned_worker, updated_at: now, ..j }
    &&& opt_text(nj.assigned_worker) == Some(worker)
}

/// A running job of `worker`, which it lost with its connection.
pub open spec fn lost_with(j: Job, worker: Seq<char>) -> bool {
    opt_text(j.assigned_worker) == Some(worker) && j.state == JobState::Running
}

/// A job waiting without a group whose submitter left more than
/// `timeout_secs` ago (the elapsed seconds taken as `u64`, as the
/// controller's clock arithmetic does).
pub open spec fn orphaned(j: Job, now: UtcTime, timeout_secs: u64) -> bool {
    &&& (j.state == JobState::Queued || j.state == JobState::Assigned)
    &&& j.job_group_id is None
    &&& (elapsed_secs(j.created_at, now) as u64) > timeout_secs
}

/// The text a job cancelled as an orphan carries.
pub open spec fn orphan_reason() -> Seq<char> {
    "Orphaned (submitter disconnected)"@
}

pub open spec fn of_submitter(j: Job, connection_id: Seq<char>) -> bool {
    &&& opt_text(j.submitter_connection_id) == Some(connection_id)
    &&& (j.state == JobState::Queued || j.state == JobState::Assigned || j.state == JobState::Running)
}

pub open spec fn lost_pred(worker: Seq<char>) -> spec_fn(Job) -> bool {
    |j: Job| lost_with(j, worker)
}

pub open spec fn orphan_pred(now: UtcTime, timeout_secs: u64) -> spec_fn(Job) -> bool {
    |j: Job| orphaned(j, now, timeout_secs)
}

pub open spec fn submitter_pred(connection_id: Seq<char>) -> spec_fn(Job) -> bool {
    |j: Job| of_submitter(j, connection_id)
}

/// `nj` is `j` marked unknown at `now`.
pub open spec fn marked_unknown(j: Job, nj: Job, now: UtcTime) -> bool {
    nj == Job { state: JobState::Unknown, updated_at: now, ..j }
}

/// `nj` is `j` cancelled as an orphan at `now`.
pub open spec fn cancelled_orphan(j: Job, nj: Job, now: UtcTime) -> bool {
    &&& nj == Job { state: JobState::Cancelled, cancel_reason: nj.cancel_reason, updated_at: now, ..j }
    &&& opt_text(nj.cancel_reason) == Some(orphan_reason())
}

pub open spec fn count_where(js: Seq<Job>, p: spec_fn(Job) -> bool) -> nat
    decreases js.len(),
{
    if js.len() == 0 {
        0
    } else {
        count_where(js.drop_last(), p) + if p(js.last()) {
            1nat
        } else {
            0nat
        }
    }
}

/// The jobs behind a sequence of references.
pub open spec fn derefs(s: Seq<&Job>) -> Seq<Job> {
    s.map_values(|j: &Job| *j)
}

pub open spec fn is_queued() -> spec_fn(Job) -> bool {
    |j: Job| j.state == JobState::Queued
}

fn opt_string_clone(s: &Option<String>) -> (r: Option<String>)
    ensures
        r == *s,
{
    match s {
        Some(x) => Some(x.clone()),
        None => None,
    }
}

fn clone_job(j: &Job) -> (r: Job)
    ensures
        r == *j,
{
    Job {
        job_id: j.job_id.clone(),
        stage_name: opt_string_clone(&j.stage_name),
        state: j.state,
        exit_code: j.exit_code,
        assigned_worker: opt_string_clone(&j.assigned_worker),
        output: opt_string_clone(&j.output),
        status_reason: opt_string_clone(&j.status_reason),
        cancel_reason: opt_string_clone(&j.cancel_reason),
        job_group_id: j.job_group_id,
        submitter_connection_id: opt_string_clone(&j.submitter_connection_id),
        created_at: j.created_at,
        updated_at: j.updated_at,
        completed_at: j.completed_at,
    }
}

/// In-memory job registry.
pub struct JobRegistry {
    jobs: Vec<Job>,
}

impl JobRegistry {
    /// The registered jobs, in the order they were first added.
    pub closed spec fn entries(&self) -> Seq<Job> {
        self.jobs@
    }

    pub closed spec fn wf(&self) -> bool {
        ids_distinct(self.jobs@)
    }

    /// The job registered under `id`.
    pub open spec fn job(&self, id: Seq<char>) -> Option<Job> {
        job_with_id(self.entries(), id)
    }

    pub fn new() -> (r: Self)
        ensures
            r.wf(),
            r.entries().len() == 0,
    {
        JobRegistry { jobs: Vec::new() }
    }

    fn find(&self, job_id: &str) -> (r: Option<usize>)
        requires
            self.wf(),
        ensures
            match r {
                Some(i) => at_id(self.entries(), job_id@, i as int),
                None => forall|i: int| !#[trigger] at_id(self.entries(), job_id@, i),
            },
    {
        let id = chars_of(job_id);
        let mut i: usize = 0;
        while i < self.jobs.len()
            invariant
                i <= self.jobs.len(),
                id@ == job_id@,
                forall|k: int| 0 <= k < i ==> !#[trigger] at_id(self.jobs@, job_id@, k),
            decreases self.jobs.len() - i,
        {
            let c = chars_of(self.jobs[i].job_id.as_str());
            if chars_eq(&c, &id) {
                return Some(i);
            }
            i += 1;
        }
        None
    }

    proof fn lemma_unique(js: Seq<Job>, id: Seq<char>, i: int)
        requires
            ids_distinct(js),
            at_id(js, id, i),
        ensures
            job_with_id(js, id) == Some(js[i]),
    {
        let c = choose|c: int| #[trigger] at_id(js, id, c);
        assert(c == i);
    }

    /// Registers `job` under its id, replacing any job of that id.
    pub fn add_job(&mut self, job: Job)
        requires
            old(self).wf(),
        ensures
            final(self).wf(),
            final(self).job(job.job_id@) == Some(job),
            forall|id: Seq<char>| id != job.job_id@ ==> #[trigger] final(self).job(id) == old(self).job(id),
    {
        let ghost old_js = self.jobs@;
        let ghost id = job.job_id@;
        match self.find(job.job_id.as_str()) {
            Some(i) => {
                self.jobs.set(i, job);
                proof {
                    let js = self.jobs@;
                    assert(ids_distinct(js)) by {
                        assert forall|a: int, b: int|
                            0 <= a < js.len() && 0 <= b < js.len() && a != b implies (
                            #[trigger] js[a]).job_id@ != (#[trigger] js[b]).job_id@ by {
                            if a != i && b != i {
                                assert(old_js[a] == js[a] && old_js[b] == js[b]);
                            } else if a == i {
                                assert(old_js[b] == js[b]);
                                assert(old_js[a].job_id@ == id);
                            } else {
                                assert(old_js[a] == js[a]);
                                assert(old_js[b].job_id@ == id);
                            }
                        }
                    }
                    Self::lemma_unique(js, id, i as int);
                    assert forall|x: Seq<char>| x != id implies #[trigger] job_with_id(js, x)
                        == job_with_id(old_js, x) by {
                        if exists|k: int| #[trigger] at_id(old_js, x, k) {
                            let k = choose|k: int| #[trigger] at_id(old_js, x, k);
                            assert(k != i);
                            assert(at_id(js, x, k));
                            Self::lemma_unique(old_js, x, k);
                            Self::lemma_unique(js, x, k);
                        } else {
                            assert forall|k: int| !#[trigger] at_id(js, x, k) by {
                                if at_id(js, x, k) {
                                    assert(at_id(old_js, x, k));
                                }
                            }
                        }
                    }
                }
            },
            None => {
                self.jobs.push(job);
                proof {
                    let js = self.jobs@;
                    let n = old_js.len() as int;
                    assert(ids_distinct(js)) by {
                        assert forall|a: int, b: int|
                            0 <= a < js.len() && 0 <= b < js.len() && a != b implies (
                            #[trigger] js[a]).job_id@ != (#[trigger] js[b]).job_id@ by {
                            if a != n && b != n {
                                assert(old_js[a] == js[a] && old_js[b] == js[b]);
                            } else if a == n {
                                assert(old_js[b] == js[b]);
                                assert(!at_id(old_js, id, b));
                            } else {
                                assert(old_js[a] == js[a]);
                                assert(!at_id(old_js, id, a));
                            }
                        }
                    }
                    Self::lemma_unique(js, id, n);
                    assert forall|x: Seq<char>| x != id implies #[trigger] job_with_id(js, x)
                        == job_with_id(old_js, x) by {
                        if exists|k: int| #[trigger] at_id(old_js, x, k) {
                            let k = choose|k: int| #[trigger] at_id(old_js, x, k);
                            assert(at_id(js, x, k));
                            Self::lemma_unique(old_js, x, k);
                            Self::lemma_unique(js, x, k);
                        } else {
                            assert forall|k: int| !#[trigger] at_id(js, x, k) by {
                                if at_id(js, x, k) && k < n {
                                    assert(at_id(old_js, x, k));
                                }
                            }
                        }
                    }
                }
            },
        }
    }

    /// The job registered under `job_id`.
    pub fn get(&self, job_id: &str) -> (r: Option<&Job>)
        requires
            self.wf(),
        ensures
            match self.job(job_id@) {
                Some(j) => r == Some(&j),
                None => r is None,
            },
    {
        match self.find(job_id) {
            Some(i) => {
                proof {
                    Self::lemma_unique(self.jobs@, job_id@, i as int);
                }
                Some(&self.jobs[i])
            },
            None => None,
        }
    }

    /// Replaces entry `i` by `nj`, which keeps the id of the old entry.
    fn replace(&mut self, i: usize, nj: Job)
        requires
            old(self).wf(),
            i < old(self).entries().len(),
            nj.job_id@ == old(self).entries()[i as int].job_id@,
        ensures
            final(self).wf(),
            final(self).entries() == old(self).entries().update(i as int, nj),
            final(self).job(nj.job_id@) == Some(nj),
            forall|id: Seq<char>| id != nj.job_id@ ==> #[trigger] final(self).job(id) == old(self).job(id),
    {
        let ghost old_js = self.jobs@;
        let ghost id = nj.job_id@;
        self.jobs.set(i, nj);
        proof {
            let js = self.jobs@;
            assert(ids_distinct(js)) by {
                assert forall|a: int, b: int|
                    0 <= a < js.len() && 0 <= b < js.len() && a != b implies (#[trigger] js[a]).job_id@
                    != (#[trigger] js[b]).job_id@ by {
                    if a != i && b != i {
                        assert(old_js[a] == js[a] && old_js[b] == js[b]);
                    } else if a == i {
                        assert(old_js[b] == js[b]);
                    } else {
                        assert(old_js[a] == js[a]);
                    }
                }
            }
            Self::lemma_unique(js, id, i as int);
            assert forall|x: Seq<char>| x != id implies #[trigger] job_with_id(js, x) == job_with_id(
                old_js,
                x,
            ) by {
                if exists|k: int| #[trigger] at_id(old_js, x, k) {
                    let k = choose|k: int| #[trigger] at_id(old_js, x, k);
                    assert(at_id(js, x, k));
                    Self::lemma_unique(old_js, x, k);
                    Self::lemma_unique(js, x, k);
                } else {
                    assert forall|k: int| !#[trigger] at_id(js, x, k) by {
                        if at_id(js, x, k) {
                            assert(at_id(old_js, x, k));
                        }
                    }
                }
            }
        }
    }

    /// Applies a worker's report to the job it names, at `now`; a report on
    /// an unknown job is ignored.
    pub fn update_status(&mut self, update: &JobStatusUpdate, now: UtcTime)
        requires
            old(self).wf(),
        ensures
            final(self).wf(),
            final(self).job(update.job_id@) == match old(self).job(update.job_id@) {
                Some(j) => Some(after_report(j, *update, now)),
                None => None,
            },
            forall|id: Seq<char>| id != update.job_id@ ==> #[trigger] final(self).job(id) == old(self).job(id),
    {
        match self.find(update.job_id.as_str()) {
            None => {},
            Some(i) => {
                proof {
                    Self::lemma_unique(self.jobs@, update.job_id@, i as int);
                }
                let j = clone_job(&self.jobs[i]);
                let out = chars_of(update.output.as_str());
                let output = if out.len() > 0 {
                    Some(update.output.clone())
                } else {
                    j.output
                };
                let nj = Job {
                    state: job_state_from_code(update.state),
                    exit_code: Some(update.exit_code),
                    output,
                    updated_at: now,
                    ..j
                };
                self.replace(i, nj);
            },
        }
    }

    /// Hands the first queued job to `worker_id` at `now` and returns it as
    /// assigned; none when no job is queued.
    pub fn next_job_for(&mut self, worker_id: &str, now: UtcTime) -> (r: Option<Job>)
        requires
            old(self).wf(),
        ensures
            final(self).wf(),
            match r {
                None => final(self).entries() == old(self).entries() && forall|i: int|
                    0 <= i < old(self).entries().len() ==> (#[trigger] old(self).entries()[i]).state
                        != JobState::Queued,
                Some(j) => exists|i: int|
                    0 <= i < old(self).entries().len() && (#[trigger] old(self).entries()[i]).state
                        == JobState::Queued && (forall|k: int|
                        0 <= k < i ==> (#[trigger] old(self).entries()[k]).state != JobState::Queued)
                        && assigned_to(old(self).entries()[i], j, worker_id@, now)
                        && final(self).entries() == old(self).entries().update(i, j),
            },
    {
        let mut i: usize = 0;
        while i < self.jobs.len()
            invariant
                i <= self.jobs.len(),
                self.wf(),
                self.jobs@ == old(self).jobs@,
                forall|k: int| 0 <= k < i ==> (#[trigger] self.jobs@[k]).state != JobState::Queued,
            decreases self.jobs.len() - i,
        {
            if self.jobs[i].state == JobState::Queued {
                let j = clone_job(&self.jobs[i]);
                let nj = Job {
                    state: JobState::Assigned,
                    assigned_worker: Some(String::from_str(worker_id)),
                    updated_at: now,
                    ..j
                };
                let out = clone_job(&nj);
                self.replace(i, nj);
                return Some(out);
            }
            i += 1;
        }
        None
    }

    /// Hands the job `job_id` to `worker_id` at `now` if it is queued, and
    /// returns it as assigned; otherwise changes nothing.
    pub fn assign_job(&mut self, job_id: &str, worker_id: &str, now: UtcTime) -> (r: Option<Job>)
        requires
            old(self).wf(),
        ensures
            final(self).wf(),
            match old(self).job(job_id@) {
                Some(j) if j.state == JobState::Queued => r matches Some(nj) && assigned_to(
                    j,
                    nj,
                    worker_id@,
                    now,
                ) && final(self).job(job_id@) == Some(nj),
                _ => r is None && final(self).entries() == old(self).entries(),
            },
            forall|id: Seq<char>| id != job_id@ ==> #[trigger] final(self).job(id) == old(self).job(id),
    {
        match self.find(job_id) {
            None => None,
            Some(i) => {
                proof {
                    Self::lemma_unique(self.jobs@, job_id@, i as int);
                }
                if self.jobs[i].state != JobState::Queued {
                    return None;
                }
                let j = clone_job(&self.jobs[i]);
                let nj = Job {
                    state: JobState::Assigned,
                    assigned_worker: Some(String::from_str(worker_id)),
                    updated_at: now,
                    ..j
                };
                let out = clone_job(&nj);
                self.replace(i, nj);
                Some(out)
            },
        }
    }

    /// The queued jobs, in registry order.
    pub fn queued_jobs(&self) -> (r: Vec<&Job>)
        ensures
            derefs(r@) == self.entries().filter(is_queued()),
    {
        let ghost p = is_queued();
        let mut out: Vec<&Job> = Vec::new();
        let mut i: usize = 0;
        while i < self.jobs.len()
            invariant
                i <= self.jobs.len(),
                p == is_queued(),
                derefs(out@) == self.jobs@.take(i as int).filter(p),
            decreases self.jobs.len() - i,
        {
            let ghost before = derefs(out@);
            proof {
                reveal(Seq::filter);
                assert(self.jobs@.take(i + 1).drop_last() =~= self.jobs@.take(i as int));
                assert(self.jobs@.take(i + 1).last() == self.jobs@[i as int]);
                assert(self.jobs@.take(i + 1).filter(p) == if p(self.jobs@[i as int]) {
                    self.jobs@.take(i as int).filter(p).push(self.jobs@[i as int])
                } else {
                    self.jobs@.take(i as int).filter(p)
                });
            }
            if self.jobs[i].state == JobState::Queued {
                out.push(&self.jobs[i]);
                assert(derefs(out@) =~= before.push(self.jobs@[i as int]));
            }
            i += 1;
        }
        assert(self.jobs@.take(i as int) == self.jobs@);
        out
    }

    /// Marks unknown, at `now`, every running job of `worker_id` (its
    /// connection is gone); returns how many.
    pub fn mark_unknown_for_worker(&mut self, worker_id: &str, now: UtcTime) -> (n: usize)
        requires
            old(self).wf(),
        ensures
            final(self).wf(),
            n == count_where(old(self).entries(), lost_pred(worker_id@)),
            final(self).entries().len() == old(self).entries().len(),
            forall|k: int|
                0 <= k < old(self).entries().len() ==> if lost_with(old(self).entries()[k], worker_id@) {
                    marked_unknown(old(self).entries()[k], #[trigger] final(self).entries()[k], now)
                } else {
                    final(self).entries()[k] == old(self).entries()[k]
                },
    {
        let ghost p = lost_pred(worker_id@);
        let ghost orig = self.jobs@;
        let w = chars_of(worker_id);
        let mut count: usize = 0;
        let mut i: usize = 0;
        while i < self.jobs.len()
            invariant
                i <= self.jobs.len(),
                self.wf(),
                w@ == worker_id@,
                p == lost_pred(worker_id@),
                self.jobs@.len() == orig.len(),
                count == count_where(orig.take(i as int), p),
                count <= i,
                forall|k: int|
                    0 <= k < i ==> if lost_with(orig[k], worker_id@) {
                        marked_unknown(orig[k], #[trigger] self.jobs@[k], now)
                    } else {
                        self.jobs@[k] == orig[k]
                    },
                forall|k: int| i <= k < orig.len() ==> #[trigger] self.jobs@[k] == orig[k],
            decreases self.jobs.len() - i,
        {
            proof {
                assert(orig.take(i + 1).drop_last() =~= orig.take(i as int));
            }
            let lost = match &self.jobs[i].assigned_worker {
                Some(a) => {
                    let av = chars_of(a.as_str());
                    chars_eq(&av, &w) && self.jobs[i].state == JobState::Running
                },
                None => false,
            };
            if lost {
                let j = clone_job(&self.jobs[i]);
                let nj = Job { state: JobState::Unknown, updated_at: now, ..j };
                self.replace(i, nj);
                count += 1;
            }
            i += 1;
        }
        assert(orig.take(i as int) =~= orig);
        count
    }

    /// Asks for `job_id` to be cancelled for `reason` at `now`, unless it
    /// has finished; the state follows when the worker reports. Returns the
    /// worker to tell, if the job was handed to one.
    pub fn cancel_job(&mut self, job_id: &str, reason: &str, now: UtcTime) -> (r: Option<String>)
        requires
            old(self).wf(),
        ensures
            final(self).wf(),
            match old(self).job(job_id@) {
                Some(j) if !(j.state == JobState::Success || j.state == JobState::Failed || j.state
                    == JobState::Cancelled) => opt_text(r) == opt_text(j.assigned_worker) && (
                final(self).job(job_id@) matches Some(nj) && nj == Job {
                    cancel_reason: nj.cancel_reason,
                    updated_at: now,
                    ..j
                } && opt_text(nj.cancel_reason) == Some(reason@)),
                _ => r is None && final(self).entries() == old(self).entries(),
            },
            forall|id: Seq<char>| id != job_id@ ==> #[trigger] final(self).job(id) == old(self).job(id),
    {
        match self.find(job_id) {
            None => None,
            Some(i) => {
                proof {
                    Self::lemma_unique(self.jobs@, job_id@, i as int);
                }
                let st = self.jobs[i].state;
                if st == JobState::Success || st == JobState::Failed || st == JobState::Cancelled {
                    return None;
                }
                let j = clone_job(&self.jobs[i]);
                let worker = opt_string_clone(&j.assigned_worker);
                let nj = Job { cancel_reason: Some(String::from_str(reason)), updated_at: now, ..j };
                self.replace(i, nj);
                worker
            },
        }
    }

    /// Cancels, at `now`, every job waiting without a group for more than
    /// `timeout_secs` since it was created; returns how many.
    pub fn cancel_orphaned_jobs(&mut self, timeout_secs: u64, now: UtcTime) -> (n: usize)
        requires
            old(self).wf(),
        ensures
            final(self).wf(),
            n == count_where(old(self).entries(), orphan_pred(now, timeout_secs)),
            final(self).entries().len() == old(self).entries().len(),
            forall|k: int|
                0 <= k < old(self).entries().len() ==> if orphaned(old(self).entries()[k], now, timeout_secs) {
                    cancelled_orphan(old(self).entries()[k], #[trigger] final(self).entries()[k], now)
                } else {
                    final(self).entries()[k] == old(self).entries()[k]
                },
    {
        let ghost p = orphan_pred(now, timeout_secs);
        let ghost orig = self.jobs@;
        let mut count: usize = 0;
        let mut i: usize = 0;
        while i < self.jobs.len()
            invariant
                i <= self.jobs.len(),
                self.wf(),
                p == orphan_pred(now, timeout_secs),
                self.jobs@.len() == orig.len(),
                count == count_where(orig.take(i as int), p),
                count <= i,
                forall|k: int|
                    0 <= k < i ==> if orphaned(orig[k], now, timeout_secs) {
                        cancelled_orphan(orig[k], #[trigger] self.jobs@[k], now)
                    } else {
                        self.jobs@[k] == orig[k]
                    },
                forall|k: int| i <= k < orig.len() ==> #[trigger] self.jobs@[k] == orig[k],
            decreases self.jobs.len() - i,
        {
            proof {
                assert(orig.take(i + 1).drop_last() =~= orig.take(i as int));
            }
            let st = self.jobs[i].state;
            let waiting = (st == JobState::Queued || st == JobState::Assigned) && self.jobs[i].job_group_id.is_none();
            if waiting && (elapsed_seconds(self.jobs[i].created_at, now) as u64) > timeout_secs {
                let j = clone_job(&self.jobs[i]);
                let nj = Job {
                    state: JobState::Cancelled,
                    cancel_reason: Some(String::from_str("Orphaned (submitter disconnected)")),
                    updated_at: now,
                    ..j
                };
                proof {
                    reveal_strlit("Orphaned (submitter disconnected)");
                }
                self.replace(i, nj);
                count += 1;
            }
            i += 1;
        }
        assert(orig.take(i as int) =~= orig);
        count
    }

    /// The unfinished jobs submitted over `connection_id`, in registry order.
    pub fn get_orphaned_jobs(&self, connection_id: &str) -> (r: Vec<&Job>)
        ensures
            derefs(r@) == self.entries().filter(submitter_pred(connection_id@)),
    {
        let ghost p = submitter_pred(connection_id@);
        let c = chars_of(connection_id);
        let mut out: Vec<&Job> = Vec::new();
        let mut i: usize = 0;
        while i < self.jobs.len()
            invariant
                i <= self.jobs.len(),
                c@ == connection_id@,
                p == submitter_pred(connection_id@),
                derefs(out@) == self.jobs@.take(i as int).filter(p),
            decreases self.jobs.len() - i,
        {
            let ghost before = derefs(out@);
            proof {
                reveal(Seq::filter);
                assert(self.jobs@.take(i + 1).drop_last() =~= self.jobs@.take(i as int));
                assert(self.jobs@.take(i + 1).last() == self.jobs@[i as int]);
                assert(self.jobs@.take(i + 1).filter(p) == if p(self.jobs@[i as int]) {
                    self.jobs@.take(i as int).filter(p).push(self.jobs@[i as int])
                } else {
                    self.jobs@.take(i as int).filter(p)
                });
            }
            let st = self.jobs[i].state;
            let live = st == JobState::Queued || st == JobState::Assigned || st == JobState::Running;
            let mine = match &self.jobs[i].submitter_connection_id {
                Some(s) => {
                    let sv = chars_of(s.as_str());
                    chars_eq(&sv, &c)
                },
                None => false,
            };
            if mine && live {
                out.push(&self.jobs[i]);
                assert(derefs(out@) =~= before.push(self.jobs@[i as int]));
            }
            i += 1;
        }
        assert(self.jobs@.take(i as int) == self.jobs@);
        out
    }
}


/// Queued job `k` (its target worker, and whether it fits `worker`) may go
/// to `worker`: it is not meant for another worker, and it is meant for this
/// one or fits it.
pub open spec fn takes(q: (Option<Seq<char>>, bool), worker: Seq<char>) -> bool {
    match q.0 {
        Some(w) => w == worker,
        None => q.1,
    }
}

pub open spec fn queue_view(q: Seq<(Option<String>, bool)>) -> Seq<(Option<Seq<char>>, bool)> {
    q.map_values(|e: (Option<String>, bool)| (opt_text(e.0), e.1))
}

/// The queued job to hand to `worker_id` when it asks for work: the first
/// (in `queued` order) that it may take.
pub fn job_for_worker(queued: &Vec<(Option<String>, bool)>, worker_id: &str) -> (r: Option<usize>)
    ensures
        match r {
            Some(k) => k < queued.len() && takes(queue_view(queued@)[k as int], worker_id@) && forall|j: int|
                0 <= j < k ==> !takes(#[trigger] queue_view(queued@)[j], worker_id@),
            None => forall|j: int| 0 <= j < queued.len() ==> !takes(#[trigger] queue_view(queued@)[j], worker_id@),
        },
{
    let w = chars_of(worker_id);
    let mut k: usize = 0;
    while k < queued.len()
        invariant
            k <= queued.len(),
            w@ == worker_id@,
            forall|j: int| 0 <= j < k ==> !takes(#[trigger] queue_view(queued@)[j], worker_id@),
        decreases queued.len() - k,
    {
        let ok = match &queued[k].0 {
            Some(t) => {
                let tc = chars_of(t.as_str());
                chars_eq(&tc, &w)
            },
            None => queued[k].1,
        };
        if ok {
            return Some(k);
        }
        k += 1;
    }
    None
}

} // verus!
