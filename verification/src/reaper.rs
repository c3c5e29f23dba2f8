//! The controller's periodic passes over the registries: the heartbeat
//! check's handling of a worker that stopped beating, and the reaper of
//! reservations left idle.
use crate::job_group_registry::{
    active_on, closed, failed_with, has_pending, opt_text, reap_reason, reap_reason_text, stale,
    transitioned, Job, JobGroupRegistry, JobGroupState,
};
use crate::job_registry::{count_where, lost_pred, lost_with, marked_unknown, JobRegistry};
use crate::monitoring::{pred_times, Metrics};
use crate::text::push_str;
use crate::time::UtcTime;
use vstd::prelude::*;

verus! {

/// The jobs `ns` are the jobs `js` with each unfinished one failed at `now`
/// for `reason`.
pub open spec fn jobs_failed(js: Option<Seq<Job>>, ns: Option<Seq<Job>>, reason: Seq<char>, now: UtcTime) -> bool {
    match js {
        Some(js) => ns matches Some(ns) && ns.len() == js.len() && forall|k: int|
            0 <= k < js.len() ==> failed_with(js[k], #[trigger] ns[k], reason, now),
        None => ns is None,
    }
}

/// Group `x` and its jobs are the same in `before` and `after`.
pub open spec fn untouched(before: JobGroupRegistry, after: JobGroupRegistry, x: u128) -> bool {
    after.group(x) == before.group(x) && after.jobs(x) == before.jobs(x)
}

/// Group `x` of `after` is that of `before` failed at `now`, its unfinished
/// jobs failed for `reason`.
pub open spec fn group_failed(
    before: JobGroupRegistry,
    after: JobGroupRegistry,
    x: u128,
    reason: Seq<char>,
    now: UtcTime,
) -> bool {
    &&& after.group(x) == match before.group(x) {
        Some(g) => Some(transitioned(g, JobGroupState::Failed, now)),
        None => None,
    }
    &&& jobs_failed(before.jobs(x), after.jobs(x), reason, now)
}

/// The reason a dead worker's groups and jobs fail with.
pub open spec fn died_reason(worker: Seq<char>) -> Seq<char> {
    "Worker "@ + worker + " died"@
}

/// `s` lists, once each, the groups of `r` that satisfy `p` (over the group
/// and its jobs).
pub open spec fn lists_where(
    r: JobGroupRegistry,
    s: Seq<u128>,
    p: spec_fn(crate::job_group_registry::JobGroup, Option<Seq<Job>>) -> bool,
) -> bool {
    &&& s.no_duplicates()
    &&& forall|x: u128| s.contains(x) <==> ((#[trigger] r.group(x)) matches Some(g) && p(g, r.jobs(x)))
}

/// Reserved on `worker`, unfinished, and with a job still to start.
pub open spec fn to_migrate(worker: Seq<char>) -> spec_fn(crate::job_group_registry::JobGroup, Option<Seq<Job>>) -> bool {
    |g: crate::job_group_registry::JobGroup, js: Option<Seq<Job>>| active_on(Some(g), worker) && has_pending(js)
}

/// Reserved on `worker`, unfinished, and with no job still to start.
pub open spec fn to_fail(worker: Seq<char>) -> spec_fn(crate::job_group_registry::JobGroup, Option<Seq<Job>>) -> bool {
    |g: crate::job_group_registry::JobGroup, js: Option<Seq<Job>>| active_on(Some(g), worker) && !has_pending(js)
}

proof fn lemma_take_push(s: Seq<u128>, j: int, x: u128)
    requires
        0 <= j < s.len(),
        s.no_duplicates(),
    ensures
        s.take(j + 1).contains(x) <==> s.take(j).contains(x) || x == s[j],
        !s.take(j).contains(s[j]),
{
    let a = s.take(j);
    let b = s.take(j + 1);
    if b.contains(x) {
        let k = choose|k: int| 0 <= k < b.len() && b[k] == x;
        if k < j {
            assert(a[k] == x);
        }
    }
    if a.contains(x) {
        let k = choose|k: int| 0 <= k < a.len() && a[k] == x;
        assert(b[k] == x);
    }
    if x == s[j] {
        assert(b[j] == x);
    }
    if a.contains(s[j]) {
        let k = choose|k: int| 0 <= k < a.len() && a[k] == s[j];
        assert(s[k] == s[j]);
    }
}

/// What the heartbeat check does once `worker_id` has stopped beating, at
/// `now`: its running and assigned jobs become unknown (one active stage
/// less each); of the unfinished groups reserved on it, those with a job
/// still to start are left to migrate, and the others fail with "Worker
/// {w} died" (one active build less each). Returns the groups to migrate
/// and the groups failed.
pub fn handle_dead_worker(
    jobs: &mut JobRegistry,
    groups: &mut JobGroupRegistry,
    metrics: &mut Metrics,
    worker_id: &str,
    now: UtcTime,
) -> (r: (Vec<u128>, Vec<u128>))
    requires
        old(jobs).wf(),
        old(groups).wf(),
    ensures
        final(jobs).wf(),
        final(jobs).entries().len() == old(jobs).entries().len(),
        forall|k: int|
            0 <= k < old(jobs).entries().len() ==> if lost_with(old(jobs).entries()[k], worker_id@) {
                marked_unknown(old(jobs).entries()[k], #[trigger] final(jobs).entries()[k], now)
            } else {
                final(jobs).entries()[k] == old(jobs).entries()[k]
            },
        final(groups).wf(),
        lists_where(*old(groups), r.0@, to_migrate(worker_id@)),
        lists_where(*old(groups), r.1@, to_fail(worker_id@)),
        forall|x: u128|
            #![trigger final(groups).group(x)]
            if r.1@.contains(x) {
                group_failed(*old(groups), *final(groups), x, died_reason(worker_id@), now)
            } else {
                untouched(*old(groups), *final(groups), x)
            },
        *final(metrics) == (Metrics {
            active_stages: pred_times(
                old(metrics).active_stages,
                count_where(old(jobs).entries(), lost_pred(worker_id@)),
            ),
            active_builds: pred_times(old(metrics).active_builds, r.1@.len()),
            ..*old(metrics)
        }),
{
    let n = jobs.mark_unknown_for_worker(worker_id, now);
    metrics.dec_active_stages_by(n);
    let (migrate, fail) = groups.handle_worker_death(worker_id);
    let ghost pre: JobGroupRegistry = *groups;
    let mut reason = String::from_str("Worker ");
    push_str(&mut reason, worker_id);
    push_str(&mut reason, " died");
    proof {
        assert forall|x: u128| migrate@.contains(x) <==> ((#[trigger] pre.group(x)) matches Some(g) && to_migrate(
            worker_id@,
        )(g, pre.jobs(x))) by {}
        assert forall|x: u128| fail@.contains(x) <==> ((#[trigger] pre.group(x)) matches Some(g) && to_fail(
            worker_id@,
        )(g, pre.jobs(x))) by {}
    }
    let mut j: usize = 0;
    while j < fail.len()
        invariant
            j <= fail.len(),
            groups.wf(),
            fail@.no_duplicates(),
            reason@ == died_reason(worker_id@),
            forall|x: u128|
                #![trigger groups.group(x)]
                if fail@.take(j as int).contains(x) {
                    group_failed(pre, *groups, x, died_reason(worker_id@), now)
                } else {
                    untouched(pre, *groups, x)
                },
        decreases fail.len() - j,
    {
        let id = fail[j];
        let ghost before = *groups;
        proof {
            lemma_take_push(fail@, j as int, id);
            assert(untouched(pre, before, id));
        }
        groups.fail_group_jobs(id, reason.as_str(), now);
        proof {
            assert forall|x: u128|
                #![trigger groups.group(x)]
                if fail@.take(j + 1).contains(x) {
                    group_failed(pre, *groups, x, died_reason(worker_id@), now)
                } else {
                    untouched(pre, *groups, x)
                } by {
                lemma_take_push(fail@, j as int, x);
                if x != id {
                    assert(groups.group(x) == before.group(x));
                }
            }
        }
        j += 1;
    }
    proof {
        assert(fail@.take(fail.len() as int) =~= fail@);
    }
    metrics.dec_active_builds_by(fail.len());
    (migrate, fail)
}

/// Group `x` of `after` is that of `before` reaped at `now`: expired with
/// the reason for its state, then failed with its unfinished jobs.
pub open spec fn reaped(
    before: JobGroupRegistry,
    after: JobGroupRegistry,
    x: u128,
    now: UtcTime,
    idle_timeout: u64,
    stall_timeout: u64,
) -> bool {
    before.group(x) matches Some(g) && after.group(x) matches Some(ng) && {
        let reason = reap_reason_text(g.state == JobGroupState::Reserved, idle_timeout, stall_timeout);
        closed(g, ng, JobGroupState::Expired, reason, now) && jobs_failed(before.jobs(x), after.jobs(x), reason, now)
    }
}

pub open spec fn stale_at(now: UtcTime, idle_timeout: u64, stall_timeout: u64) -> spec_fn(
    crate::job_group_registry::JobGroup,
    Option<Seq<Job>>,
) -> bool {
    |g: crate::job_group_registry::JobGroup, js: Option<Seq<Job>>| stale(g, js, now, idle_timeout, stall_timeout)
}

/// The reaper's pass at `now`: each reservation idle beyond its timeout
/// ([`stale`]) expires with the reason for its state and fails with its
/// unfinished jobs; one active build less each. Returns each group reaped
/// with its reserved worker, whose store key is to be released.
pub fn reap_stale_reservations(
    groups: &mut JobGroupRegistry,
    metrics: &mut Metrics,
    now: UtcTime,
    idle_timeout: u64,
    stall_timeout: u64,
) -> (r: Vec<(u128, Option<String>)>)
    requires
        old(groups).wf(),
    ensures
        final(groups).wf(),
        lists_where(
            *old(groups),
            r@.map_values(|p: (u128, Option<String>)| p.0),
            stale_at(now, idle_timeout, stall_timeout),
        ),
        forall|k: int|
            0 <= k < r.len() ==> opt_text((#[trigger] r@[k]).1) == opt_text(
                old(groups).group(r@[k].0).unwrap().reserved_worker_id,
            ),
        forall|x: u128|
            #![trigger final(groups).group(x)]
            if r@.map_values(|p: (u128, Option<String>)| p.0).contains(x) {
                reaped(*old(groups), *final(groups), x, now, idle_timeout, stall_timeout)
            } else {
                untouched(*old(groups), *final(groups), x)
            },
        *final(metrics) == (Metrics {
            active_builds: pred_times(old(metrics).active_builds, r@.len()),
            ..*old(metrics)
        }),
{
    let ids = groups.stale_groups(now, idle_timeout, stall_timeout);
    let ghost pre: JobGroupRegistry = *groups;
    let mut out: Vec<(u128, Option<String>)> = Vec::new();
    let mut j: usize = 0;
    while j < ids.len()
        invariant
            j <= ids.len(),
            groups.wf(),
            ids@.no_duplicates(),
            forall|x: u128|
                ids@.contains(x) <==> ((#[trigger] pre.group(x)) matches Some(g) && stale(
                    g,
                    pre.jobs(x),
                    now,
                    idle_timeout,
                    stall_timeout,
                )),
            out@.len() == j,
            forall|k: int|
                0 <= k < j ==> (#[trigger] out@[k]).0 == ids@[k] && opt_text(out@[k].1) == opt_text(
                    pre.group(ids@[k]).unwrap().reserved_worker_id,
                ),
            forall|x: u128|
                #![trigger groups.group(x)]
                if ids@.take(j as int).contains(x) {
                    reaped(pre, *groups, x, now, idle_timeout, stall_timeout)
                } else {
                    untouched(pre, *groups, x)
                },
        decreases ids.len() - j,
    {
        let id = ids[j];
        let ghost before = *groups;
        proof {
            lemma_take_push(ids@, j as int, id);
            assert(ids@.contains(id));
            assert(untouched(pre, before, id));
        }
        let (was_reserved, worker) = match groups.get(id) {
            Some(g) => (
                g.state == JobGroupState::Reserved,
                match &g.reserved_worker_id {
                    Some(w) => Some(w.clone()),
                    None => None,
                },
            ),
            None => (false, None),
        };
        let reason = reap_reason(was_reserved, idle_timeout, stall_timeout);
        groups.close_group(id, JobGroupState::Expired, reason.as_str(), now);
        proof {
            assert forall|x: u128|
                #![trigger groups.group(x)]
                if ids@.take(j + 1).contains(x) {
                    reaped(pre, *groups, x, now, idle_timeout, stall_timeout)
                } else {
                    untouched(pre, *groups, x)
                } by {
                lemma_take_push(ids@, j as int, x);
                if x != id {
                    assert(groups.group(x) == before.group(x));
                }
            }
        }
        out.push((id, worker));
        j += 1;
    }
    proof {
        assert(ids@.take(ids.len() as int) =~= ids@);
        assert(out@.map_values(|p: (u128, Option<String>)| p.0) =~= ids@);
    }
    metrics.dec_active_builds_by(out.len());
    out
}

} // verus!
