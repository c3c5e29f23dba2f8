//! Worker reservations per job group.
//!
//! Reservations are not exclusive: several groups may hold the same worker.
//! The capacity gate is the worker's own allocation; the store only keeps a
//! key per group and worker, with a time-to-live.
use crate::dag::{deps_view, first_unsorted, is_acyclic, keys_distinct, names_view, validate_dag};
use crate::job_group_registry::{created_reserved, group_terminal, JobGroupRegistry};
use crate::redis_store::{key_text, store_key, strs_view};
use crate::reporting::{parse_uuid, uuid_parsed};
use crate::stages::{clone_names, describes, stage_infos, StageInfo};
use crate::time::UtcTime;
use crate::text::push_str;
use vstd::prelude::*;

verus! {

/// Manages worker reservations in the store.
pub struct ReservationManager;

impl ReservationManager {
    /// The key of `job_group_id`'s reservation of `worker_id`:
    /// `{prefix}worker:reservation:{worker_id}:{job_group_id}`.
    pub fn reservation_key(prefix: &str, worker_id: &str, job_group_id: &str) -> (k: String)
        ensures
            k@ == key_text(
                prefix@,
                seq!["worker"@, "reservation"@, worker_id@, job_group_id@],
            ),
    {
        let parts = ["worker", "reservation", worker_id, job_group_id];
        let k = store_key(prefix, &parts);
        assert(strs_view(parts@) =~= seq!["worker"@, "reservation"@, worker_id@, job_group_id@]);
        k
    }
}


// ── Reserving a worker for a new group ──────────────────────────────────────
//
// A request goes through three waits: the list of connected workers, the
// store's answer for each candidate in turn, and the repository lookup. The
// store lock on a worker is taken before anything else exists for the group,
// so a worker is never promised to a group that could not hold it.

/// Where a reservation request stands.
#[derive(PartialEq, Eq, Structural, Clone, Copy, Debug)]
pub enum ReservePhase {
    /// Waiting for the connected workers.
    Listing,
    /// Waiting for the store's answer on candidate `i`.
    Trying(usize),
    /// A worker is held; waiting for the repository lookup.
    LookingUp,
    /// Answered.
    Finished,
}

/// A reservation request in progress.
pub struct ReserveState {
    /// The id the new group will have (the store lock names it).
    pub group_id: u128,
    pub repo_name: String,
    /// The connected workers, in the order they are tried.
    pub candidates: Vec<String>,
    pub phase: ReservePhase,
    /// The worker whose store reservation succeeded.
    pub worker: Option<String>,
}

pub struct ReserveStateV {
    pub group_id: u128,
    pub repo_name: Seq<char>,
    pub candidates: Seq<Seq<char>>,
    pub phase: ReservePhase,
    pub worker: Option<Seq<char>>,
}

pub open spec fn opt_view(s: Option<String>) -> Option<Seq<char>> {
    match s {
        Some(t) => Some(t@),
        None => None,
    }
}

impl View for ReserveState {
    type V = ReserveStateV;

    open spec fn view(&self) -> ReserveStateV {
        ReserveStateV {
            group_id: self.group_id,
            repo_name: self.repo_name@,
            candidates: names_view(self.candidates@),
            phase: self.phase,
            worker: opt_view(self.worker),
        }
    }
}

/// What came back from the last wait.
pub enum ReserveEvent {
    /// The ids of the connected workers.
    Connected(Vec<String>),
    /// The store's answer for the current candidate: `Some(true)` when the
    /// reservation was taken, `Some(false)` when the worker is already
    /// reserved, `None` on a store error.
    ReserveOutcome(Option<bool>),
    /// The repository's id, or `None` when no repository has that name.
    Repo(Option<u128>),
}

pub enum ReserveEventV {
    Connected(Seq<Seq<char>>),
    ReserveOutcome(Option<bool>),
    Repo(Option<u128>),
}

impl View for ReserveEvent {
    type V = ReserveEventV;

    open spec fn view(&self) -> ReserveEventV {
        match self {
            ReserveEvent::Connected(c) => ReserveEventV::Connected(names_view(c@)),
            ReserveEvent::ReserveOutcome(o) => ReserveEventV::ReserveOutcome(*o),
            ReserveEvent::Repo(r) => ReserveEventV::Repo(*r),
        }
    }
}

/// What to do next.
pub enum ReserveAction {
    /// Try the store reservation of this worker for the group.
    TryReserve(String),
    /// Look up the repository with this name.
    LookupRepo(String),
    /// Answer that the reservation failed, with this message.
    Refuse(String),
    /// The worker is held and the repository known: validate the stages and
    /// create (or return) the group.
    Reserved { worker_id: String, repo_id: u128 },
    /// The event does not belong to this phase: nothing to do.
    Wait,
}

pub enum ReserveActionV {
    TryReserve(Seq<char>),
    LookupRepo(Seq<char>),
    Refuse(Seq<char>),
    Reserved { worker_id: Seq<char>, repo_id: u128 },
    Wait,
}

impl View for ReserveAction {
    type V = ReserveActionV;

    open spec fn view(&self) -> ReserveActionV {
        match self {
            ReserveAction::TryReserve(w) => ReserveActionV::TryReserve(w@),
            ReserveAction::LookupRepo(n) => ReserveActionV::LookupRepo(n@),
            ReserveAction::Refuse(m) => ReserveActionV::Refuse(m@),
            ReserveAction::Reserved { worker_id, repo_id } => ReserveActionV::Reserved {
                worker_id: worker_id@,
                repo_id: *repo_id,
            },
            ReserveAction::Wait => ReserveActionV::Wait,
        }
    }
}

pub open spec fn no_workers_msg() -> Seq<char> {
    "No connected workers available"@
}

pub open spec fn all_reserved_msg() -> Seq<char> {
    "All workers are reserved"@
}

pub open spec fn repo_missing_msg(name: Seq<char>) -> Seq<char> {
    "Repo '"@ + name + "' not found — create it in the DB first"@
}

/// A fresh request for a group with id `group_id` in repository `repo_name`.
pub open spec fn reserve_start(group_id: u128, repo_name: Seq<char>) -> ReserveStateV {
    ReserveStateV {
        group_id,
        repo_name,
        candidates: Seq::empty(),
        phase: ReservePhase::Listing,
        worker: None,
    }
}

impl ReserveStateV {
    /// The candidate being tried is one of the list; a worker is held once
    /// the lookup is under way.
    pub open spec fn wf(self) -> bool {
        match self.phase {
            ReservePhase::Trying(i) => i < self.candidates.len(),
            ReservePhase::LookingUp => self.worker is Some,
            _ => true,
        }
    }
}

/// One step of a reservation request: the next state and what to do.
pub open spec fn reserve_next(s: ReserveStateV, e: ReserveEventV) -> (ReserveStateV, ReserveActionV) {
    match s.phase {
        ReservePhase::Listing => match e {
            ReserveEventV::Connected(c) => if c.len() == 0 {
                (ReserveStateV { phase: ReservePhase::Finished, ..s }, ReserveActionV::Refuse(no_workers_msg()))
            } else {
                (
                    ReserveStateV { candidates: c, phase: ReservePhase::Trying(0), ..s },
                    ReserveActionV::TryReserve(c[0]),
                )
            },
            _ => (s, ReserveActionV::Wait),
        },
        ReservePhase::Trying(i) => match e {
            ReserveEventV::ReserveOutcome(o) => if o == Some(true) {
                (
                    ReserveStateV { phase: ReservePhase::LookingUp, worker: Some(s.candidates[i as int]), ..s },
                    ReserveActionV::LookupRepo(s.repo_name),
                )
            } else if i + 1 < s.candidates.len() {
                (
                    ReserveStateV { phase: ReservePhase::Trying((i + 1) as usize), ..s },
                    ReserveActionV::TryReserve(s.candidates[i + 1]),
                )
            } else {
                (ReserveStateV { phase: ReservePhase::Finished, ..s }, ReserveActionV::Refuse(all_reserved_msg()))
            },
            _ => (s, ReserveActionV::Wait),
        },
        ReservePhase::LookingUp => match e {
            ReserveEventV::Repo(r) => match r {
                Some(id) => (
                    ReserveStateV { phase: ReservePhase::Finished, ..s },
                    ReserveActionV::Reserved { worker_id: s.worker.unwrap(), repo_id: id },
                ),
                None => (
                    ReserveStateV { phase: ReservePhase::Finished, ..s },
                    ReserveActionV::Refuse(repo_missing_msg(s.repo_name)),
                ),
            },
            _ => (s, ReserveActionV::Wait),
        },
        ReservePhase::Finished => (s, ReserveActionV::Wait),
    }
}

impl ReserveState {
    pub open spec fn wf(&self) -> bool {
        self@.wf()
    }

    /// A fresh request: no worker listed yet.
    pub fn new(group_id: u128, repo_name: &str) -> (r: Self)
        ensures
            r@ == reserve_start(group_id, repo_name@),
            r.wf(),
    {
        let r = ReserveState {
            group_id,
            repo_name: String::from_str(repo_name),
            candidates: Vec::new(),
            phase: ReservePhase::Listing,
            worker: None,
        };
        assert(names_view(r.candidates@) =~= Seq::<Seq<char>>::empty());
        r
    }
}

fn copy_state(st: &ReserveState, phase: ReservePhase, worker: Option<String>) -> (r: ReserveState)
    ensures
        r@ == (ReserveStateV { phase, worker: opt_view(worker), ..st@ }),
{
    ReserveState {
        group_id: st.group_id,
        repo_name: st.repo_name.clone(),
        candidates: clone_names(&st.candidates),
        phase,
        worker,
    }
}

/// Advances a reservation request by one event. Candidates are tried in the
/// order given; the first whose store reservation succeeds is held, and
/// only then is the repository looked up and the group made.
pub fn reserve_step(st: &ReserveState, ev: ReserveEvent) -> (r: (ReserveState, ReserveAction))
    requires
        st.wf(),
    ensures
        r.0.wf(),
        (r.0@, r.1@) == reserve_next(st@, ev@),
{
    match st.phase {
        ReservePhase::Listing => match ev {
            ReserveEvent::Connected(c) => {
                if c.len() == 0 {
                    let msg = String::from_str("No connected workers available");
                    (copy_state(st, ReservePhase::Finished, opt_clone(&st.worker)), ReserveAction::Refuse(msg))
                } else {
                    let first = c[0].clone();
                    let ns = ReserveState {
                        group_id: st.group_id,
                        repo_name: st.repo_name.clone(),
                        candidates: c,
                        phase: ReservePhase::Trying(0),
                        worker: opt_clone(&st.worker),
                    };
                    (ns, ReserveAction::TryReserve(first))
                }
            },
            _ => (copy_state(st, st.phase, opt_clone(&st.worker)), ReserveAction::Wait),
        },
        ReservePhase::Trying(i) => match ev {
            ReserveEvent::ReserveOutcome(o) => {
                let held = match o {
                    Some(b) => b,
                    None => false,
                };
                if held {
                    let w = st.candidates[i].clone();
                    (
                        copy_state(st, ReservePhase::LookingUp, Some(w)),
                        ReserveAction::LookupRepo(st.repo_name.clone()),
                    )
                } else if i < st.candidates.len() - 1 {
                    let next = st.candidates[i + 1].clone();
                    (copy_state(st, ReservePhase::Trying(i + 1), opt_clone(&st.worker)), ReserveAction::TryReserve(next))
                } else {
                    let msg = String::from_str("All workers are reserved");
                    (copy_state(st, ReservePhase::Finished, opt_clone(&st.worker)), ReserveAction::Refuse(msg))
                }
            },
            _ => (copy_state(st, st.phase, opt_clone(&st.worker)), ReserveAction::Wait),
        },
        ReservePhase::LookingUp => match ev {
            ReserveEvent::Repo(r) => {
                let w = match &st.worker {
                    Some(w) => w.clone(),
                    None => String::new(),
                };
                match r {
                    Some(id) => (
                        copy_state(st, ReservePhase::Finished, Some(w.clone())),
                        ReserveAction::Reserved { worker_id: w, repo_id: id },
                    ),
                    None => {
                        let mut msg = String::from_str("Repo '");
                        push_str(&mut msg, st.repo_name.as_str());
                        push_str(&mut msg, "' not found — create it in the DB first");
                        (copy_state(st, ReservePhase::Finished, Some(w)), ReserveAction::Refuse(msg))
                    },
                }
            },
            _ => (copy_state(st, st.phase, opt_clone(&st.worker)), ReserveAction::Wait),
        },
        ReservePhase::Finished => (copy_state(st, st.phase, opt_clone(&st.worker)), ReserveAction::Wait),
    }
}

fn opt_clone(s: &Option<String>) -> (r: Option<String>)
    ensures
        opt_view(r) == opt_view(*s),
{
    match s {
        Some(t) => Some(t.clone()),
        None => None,
    }
}


/// The request after the store's answers `o`, one per candidate tried, with
/// the last thing it asked for.
pub open spec fn after_outcomes(s: ReserveStateV, o: Seq<Option<bool>>) -> (ReserveStateV, ReserveActionV)
    decreases o.len(),
{
    if o.len() == 0 {
        (s, ReserveActionV::Wait)
    } else {
        reserve_next(after_outcomes(s, o.drop_last()).0, ReserveEventV::ReserveOutcome(o.last()))
    }
}

/// The request once the connected workers `c` are known.
pub open spec fn listed(group_id: u128, repo_name: Seq<char>, c: Seq<Seq<char>>) -> ReserveStateV {
    reserve_next(reserve_start(group_id, repo_name), ReserveEventV::Connected(c)).0
}

/// With no connected worker, a request is refused at once.
pub proof fn law_no_workers_refused(group_id: u128, repo_name: Seq<char>)
    ensures
        reserve_next(reserve_start(group_id, repo_name), ReserveEventV::Connected(Seq::empty())).1
            == ReserveActionV::Refuse(no_workers_msg()),
{
}

proof fn lemma_refusals(group_id: u128, repo_name: Seq<char>, c: Seq<Seq<char>>, o: Seq<Option<bool>>, m: int)
    requires
        0 < c.len() <= usize::MAX,
        0 <= m <= c.len(),
        m <= o.len(),
        forall|j: int| 0 <= j < m ==> o[j] != Some(true),
    ensures
        ({
            let s1 = listed(group_id, repo_name, c);
            if m == 0 {
                after_outcomes(s1, o.take(m)) == (s1, ReserveActionV::Wait)
            } else if m < c.len() {
                after_outcomes(s1, o.take(m)) == (
                    ReserveStateV { phase: ReservePhase::Trying(m as usize), ..s1 },
                    ReserveActionV::TryReserve(c[m]),
                )
            } else {
                after_outcomes(s1, o.take(m)) == (
                    ReserveStateV { phase: ReservePhase::Finished, ..s1 },
                    ReserveActionV::Refuse(all_reserved_msg()),
                )
            }
        }),
    decreases m,
{
    let s1 = listed(group_id, repo_name, c);
    if m == 0 {
        assert(o.take(0) =~= Seq::<Option<bool>>::empty());
    } else {
        lemma_refusals(group_id, repo_name, c, o, m - 1);
        assert(o.take(m).drop_last() =~= o.take(m - 1));
        assert(o.take(m).last() == o[m - 1]);
        if m - 1 == 0 {
            assert(s1.phase == ReservePhase::Trying(0));
        }
    }
}

/// The first candidate whose store reservation succeeds is the one held,
/// and the repository is looked up only then.
pub proof fn law_first_success_wins(
    group_id: u128,
    repo_name: Seq<char>,
    c: Seq<Seq<char>>,
    o: Seq<Option<bool>>,
    k: int,
)
    requires
        0 < c.len() <= usize::MAX,
        0 <= k < c.len(),
        o.len() == k + 1,
        o[k] == Some(true),
        forall|j: int| 0 <= j < k ==> o[j] != Some(true),
    ensures
        after_outcomes(listed(group_id, repo_name, c), o).0.phase == ReservePhase::LookingUp,
        after_outcomes(listed(group_id, repo_name, c), o).0.worker == Some(c[k]),
        after_outcomes(listed(group_id, repo_name, c), o).1 == ReserveActionV::LookupRepo(repo_name),
{
    lemma_refusals(group_id, repo_name, c, o, k);
    assert(o.drop_last() =~= o.take(k));
    assert(o.last() == o[k]);
}

/// When every candidate is already reserved or the store fails for each,
/// the request is refused.
pub proof fn law_all_reserved_refused(group_id: u128, repo_name: Seq<char>, c: Seq<Seq<char>>, o: Seq<Option<bool>>)
    requires
        0 < c.len() <= usize::MAX,
        o.len() == c.len(),
        forall|j: int| 0 <= j < o.len() ==> o[j] != Some(true),
    ensures
        after_outcomes(listed(group_id, repo_name, c), o).1 == ReserveActionV::Refuse(all_reserved_msg()),
{
    lemma_refusals(group_id, repo_name, c, o, c.len() as int);
    assert(o.take(c.len() as int) =~= o);
}

/// A group is only asked for once a worker is held, for that worker.
pub proof fn law_group_only_for_held_worker(s: ReserveStateV, e: ReserveEventV)
    requires
        s.wf(),
    ensures
        reserve_next(s, e).1 is Reserved ==> s.phase == ReservePhase::LookingUp && s.worker == Some(
            reserve_next(s, e).1->worker_id,
        ) && e is Repo,
{
}

/// A worker is held only on the store's success for the candidate being
/// tried, and it is that candidate.
pub proof fn law_hold_only_on_success(s: ReserveStateV, e: ReserveEventV)
    requires
        s.wf(),
    ensures
        reserve_next(s, e).0.worker != s.worker ==> (s.phase matches ReservePhase::Trying(i) && e
            == ReserveEventV::ReserveOutcome(Some(true)) && reserve_next(s, e).0.worker == Some(
            s.candidates[i as int],
        )),
{
}


/// Whether `id` names a group of `r` that is not finished.
pub open spec fn names_unfinished(r: JobGroupRegistry, id: Option<u128>) -> bool {
    id matches Some(x) && r.group(x) matches Some(g) && !group_terminal(g.state)
}

/// Whether a store reservation for the group `group_id_text` is orphaned:
/// the text is not a UUID, or it names no group that is still unfinished.
pub fn reservation_orphaned(group_id_text: &str, registry: &JobGroupRegistry) -> (b: bool)
    requires
        registry.wf(),
    ensures
        b == !names_unfinished(*registry, uuid_parsed(group_id_text@)),
{
    match parse_uuid(group_id_text) {
        None => true,
        Some(id) => match registry.get(id) {
            Some(g) => g.state.is_terminal(),
            None => true,
        },
    }
}


/// The answer to a reservation that went through.
pub struct ReserveReply {
    pub job_group_id: u128,
    pub worker_id: String,
    /// The requested stages, each with its dependencies.
    pub stages: Vec<StageInfo>,
    pub message: String,
}

pub open spec fn cycle_msg(node: Seq<char>) -> Seq<char> {
    "Stage dependency cycle detected involving '"@ + node + "'"@
}

/// The reply describes `stages` in order.
pub open spec fn lists_stages(r: ReserveReply, stages: Seq<String>, deps: Seq<(String, Vec<String>)>) -> bool {
    &&& r.stages@.len() == stages.len()
    &&& forall|k: int| 0 <= k < stages.len() ==> describes(#[trigger] r.stages@[k], stages[k]@, deps_view(deps))
}

/// The last steps of a reservation once `worker_id` is held for `group_id`
/// and the repository's stage graph `deps` is known. A graph with a cycle
/// is refused, naming the first stage left unsorted. Otherwise, where the
/// repository already has an active group for the same branch and commit
/// (`existing`: its id and reserved worker), that group is returned and
/// nothing is created; else the group is created, reserved at `now`.
pub fn finish_reservation(
    registry: &mut JobGroupRegistry,
    group_id: u128,
    worker_id: &str,
    deps: &Vec<(String, Vec<String>)>,
    existing: Option<(u128, Option<String>)>,
    stages: &Vec<String>,
    now: UtcTime,
) -> (r: Result<ReserveReply, String>)
    requires
        old(registry).wf(),
        keys_distinct(deps_view(deps@)),
    ensures
        final(registry).wf(),
        !is_acyclic(deps_view(deps@)) ==> *final(registry) == *old(registry) && (r matches Err(m) && first_unsorted(
            deps_view(deps@),
        ) matches Some(node) && m@ == cycle_msg(node)),
        is_acyclic(deps_view(deps@)) ==> (r matches Ok(rep) && lists_stages(rep, stages@, deps@)),
        is_acyclic(deps_view(deps@)) && existing is Some ==> *final(registry) == *old(registry) && (r matches Ok(
            rep,
        ) && rep.job_group_id == existing.unwrap().0 && rep.worker_id@ == match existing.unwrap().1 {
            Some(w) => w@,
            None => Seq::<char>::empty(),
        } && rep.message@ == "Existing active group returned"@),
        is_acyclic(deps_view(deps@)) && existing is None ==> (r matches Ok(rep) && rep.job_group_id == group_id
            && rep.worker_id@ == worker_id@ && rep.message@ == "Worker reserved successfully"@)
            && created_reserved(*old(registry), *final(registry), group_id, worker_id@, now),
{
    match validate_dag(deps) {
        Err(node) => {
            let mut m = String::from_str("Stage dependency cycle detected involving '");
            push_str(&mut m, node.as_str());
            push_str(&mut m, "'");
            return Err(m);
        },
        Ok(()) => {},
    }
    let infos = stage_infos(stages, deps);
    match existing {
        Some((id, w)) => {
            let worker = match w {
                Some(w) => w,
                None => String::new(),
            };
            Ok(
                ReserveReply {
                    job_group_id: id,
                    worker_id: worker,
                    stages: infos,
                    message: String::from_str("Existing active group returned"),
                },
            )
        },
        None => {
            registry.create_reserved_group(group_id, worker_id, now);
            Ok(
                ReserveReply {
                    job_group_id: group_id,
                    worker_id: String::from_str(worker_id),
                    stages: infos,
                    message: String::from_str("Worker reserved successfully"),
                },
            )
        },
    }
}

} // verus!
