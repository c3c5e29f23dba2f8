//! Worker selection strategies.
use crate::text::chars_of;
use vstd::prelude::*;

verus! {

/// Best-fit scheduler: selects the worker with the most free resources that
/// still fits, optionally preferring NVMe disks for Nix jobs and workers that
/// already run jobs (branch affinity).
pub struct BestFitScheduler {
    pub nvme_preference: bool,
    pub branch_affinity: bool,
}

/// What best-fit reads of a worker. Floating-point figures of the heartbeat
/// enter already judged: whether the free CPU covers the job, and the rank of
/// the worker's system load among all workers (lower is less loaded).
pub struct WorkerFit {
    pub free_memory_mb: i64,
    pub free_disk_mb: i64,
    pub cpu_fits: bool,
    pub supports_job_type: bool,
    pub load_rank: u64,
    pub nvme: bool,
    pub running_jobs: bool,
}

/// What best-fit reads of a job.
pub struct JobFit {
    pub required_memory_mb: i64,
    pub required_disk_mb: i64,
    pub is_nix: bool,
    pub branch_id: Option<String>,
}

/// The kind of worker a choice is restricted to.
pub enum Prefer {
    Any,
    Nvme,
    Busy,
}

/// `w` has room for `job` and runs its job type.
pub open spec fn eligible(w: WorkerFit, job: JobFit) -> bool {
    &&& w.free_memory_mb >= job.required_memory_mb
    &&& w.free_disk_mb >= job.required_disk_mb
    &&& w.cpu_fits
    &&& w.supports_job_type
}

pub open spec fn of_kind(w: WorkerFit, k: Prefer) -> bool {
    match k {
        Prefer::Any => true,
        Prefer::Nvme => w.nvme,
        Prefer::Busy => w.running_jobs,
    }
}

/// Worker `a` comes before worker `b`: less loaded, then more free memory,
/// then earlier in the list.
pub open spec fn before(ws: Seq<WorkerFit>, a: int, b: int) -> bool {
    ||| ws[a].load_rank < ws[b].load_rank
    ||| ws[a].load_rank == ws[b].load_rank && ws[a].free_memory_mb > ws[b].free_memory_mb
    ||| ws[a].load_rank == ws[b].load_rank && ws[a].free_memory_mb == ws[b].free_memory_mb && a < b
}

pub open spec fn candidate(ws: Seq<WorkerFit>, job: JobFit, k: Prefer, i: int) -> bool {
    0 <= i < ws.len() && eligible(ws[i], job) && of_kind(ws[i], k)
}

/// `i` is the first candidate of kind `k` in best-fit order.
pub open spec fn is_first(ws: Seq<WorkerFit>, job: JobFit, k: Prefer, i: int) -> bool {
    &&& candidate(ws, job, k, i)
    &&& forall|j: int| #[trigger] candidate(ws, job, k, j) && j != i ==> before(ws, i, j)
}

pub open spec fn has_candidate(ws: Seq<WorkerFit>, job: JobFit, k: Prefer) -> bool {
    exists|j: int| #[trigger] candidate(ws, job, k, j)
}

pub open spec fn has_branch(job: JobFit) -> bool {
    match job.branch_id {
        Some(b) => b@.len() > 0,
        None => false,
    }
}

/// The first candidate of kind `k` in best-fit order, if any.
fn first_of_kind(ws: &Vec<WorkerFit>, job: &JobFit, k: Prefer) -> (r: Option<usize>)
    ensures
        match r {
            Some(i) => is_first(ws@, *job, k, i as int),
            None => !has_candidate(ws@, *job, k),
        },
{
    let mut best: Option<usize> = None;
    let mut i: usize = 0;
    while i < ws.len()
        invariant
            i <= ws.len(),
            match best {
                Some(b) => b < i && candidate(ws@, *job, k, b as int) && forall|j: int|
                    0 <= j < i && #[trigger] candidate(ws@, *job, k, j) && j != b ==> before(
                        ws@,
                        b as int,
                        j,
                    ),
                None => forall|j: int| 0 <= j < i ==> !#[trigger] candidate(ws@, *job, k, j),
            },
        decreases ws.len() - i,
    {
        let w = &ws[i];
        let kind_ok = match k {
            Prefer::Any => true,
            Prefer::Nvme => w.nvme,
            Prefer::Busy => w.running_jobs,
        };
        if w.free_memory_mb >= job.required_memory_mb && w.free_disk_mb >= job.required_disk_mb
            && w.cpu_fits && w.supports_job_type && kind_ok {
            match best {
                None => {
                    best = Some(i);
                },
                Some(b) => {
                    let bw = &ws[b];
                    if w.load_rank < bw.load_rank || (w.load_rank == bw.load_rank
                        && w.free_memory_mb > bw.free_memory_mb) {
                        best = Some(i);
                    }
                },
            }
        }
        i += 1;
    }
    best
}

impl BestFitScheduler {
    /// The worker to run `job` on, by index into `workers`: among those with
    /// room for it, the first in best-fit order; for a Nix job with NVMe
    /// preference the first NVMe one if there is one; otherwise, with branch
    /// affinity and a branch, the first one already running jobs if there is one.
    pub fn select_worker(&self, job: &JobFit, workers: &Vec<WorkerFit>) -> (r: Option<usize>)
        ensures
            r is None <==> !has_candidate(workers@, *job, Prefer::Any),
            r matches Some(i) ==> if self.nvme_preference && job.is_nix && has_candidate(
                workers@,
                *job,
                Prefer::Nvme,
            ) {
                is_first(workers@, *job, Prefer::Nvme, i as int)
            } else if self.branch_affinity && has_branch(*job) && has_candidate(
                workers@,
                *job,
                Prefer::Busy,
            ) {
                is_first(workers@, *job, Prefer::Busy, i as int)
            } else {
                is_first(workers@, *job, Prefer::Any, i as int)
            },
    {
        let any = first_of_kind(workers, job, Prefer::Any);
        let first = match any {
            None => return None,
            Some(f) => f,
        };
        if self.nvme_preference && job.is_nix {
            match first_of_kind(workers, job, Prefer::Nvme) {
                Some(n) => {
                    assert(candidate(workers@, *job, Prefer::Any, first as int));
                    return Some(n);
                },
                None => {},
            }
        }
        if self.branch_affinity {
            let branch = match &job.branch_id {
                Some(b) => chars_of(b.as_str()).len() > 0,
                None => false,
            };
            if branch {
                match first_of_kind(workers, job, Prefer::Busy) {
                    Some(b) => return Some(b),
                    None => {},
                }
            }
        }
        Some(first)
    }
}

/// Round-robin scheduler: distributes jobs evenly across all eligible workers.
pub struct RoundRobinScheduler {
    counter: usize,
}

impl RoundRobinScheduler {
    pub closed spec fn counter(&self) -> nat {
        self.counter as nat
    }

    pub fn new() -> (s: Self)
        ensures
            s.counter() == 0,
    {
        RoundRobinScheduler { counter: 0 }
    }

    /// The worker to run the next job on, by index into `workers` (the
    /// eligible ones): the running count modulo their number; `None` when
    /// there is none. The count advances on every call that finds workers,
    /// wrapping at `usize::MAX`.
    pub fn select_worker(&mut self, job: &JobFit, workers: &Vec<WorkerFit>) -> (r: Option<usize>)
        ensures
            workers.len() == 0 ==> r is None && final(self).counter() == old(self).counter(),
            workers.len() > 0 ==> r == Some((old(self).counter() % (workers.len() as nat)) as usize)
                && final(self).counter() == if old(self).counter() == usize::MAX {
                0
            } else {
                old(self).counter() + 1
            },
    {
        let n = workers.len();
        if n == 0 {
            return None;
        }
        let idx = self.counter % n;
        self.counter = self.counter.wrapping_add(1);
        Some(idx)
    }
}


/// Round robin is even: over `n` consecutive selections among `n` workers
/// (with the count not wrapping), every worker index comes up, since the
/// selections are the counts `c`, `c + 1`, …, `c + n - 1` modulo `n`.
pub proof fn law_round_robin_covers(c: int, n: int, i: int)
    requires
        c >= 0,
        n > 0,
        0 <= i < n,
    ensures
        exists|k: int| 0 <= k < n && #[trigger] ((c + k) % n) == i,
{
    let r = c % n;
    let k = (i + n - r) % n;
    vstd::arithmetic::div_mod::lemma_add_mod_noop_right(c, i + n - r, n);
    vstd::arithmetic::div_mod::lemma_fundamental_div_mod(c, n);
    let q = c / n;
    assert(c + (i + n - r) == n * (q + 1) + i) by (nonlinear_arith)
        requires
            c == n * q + r,
    ;
    vstd::arithmetic::div_mod::lemma_mod_multiples_vanish(q + 1, i, n);
    vstd::arithmetic::div_mod::lemma_small_mod(i as nat, n as nat);
    assert((c + k) % n == i);
}

} // verus!
