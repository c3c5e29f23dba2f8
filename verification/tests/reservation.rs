use chola_controller::job_group_registry::{JobGroup, JobGroupRegistry, JobGroupState};
use chola_controller::reservation::{
    finish_reservation, reservation_orphaned, reserve_step, ReserveAction, ReserveEvent,
    ReservePhase, ReserveState,
};
use chola_controller::time::UtcTime;

fn names(v: &[&str]) -> Vec<String> {
    v.iter().map(|s| s.to_string()).collect()
}

fn refusal(a: &ReserveAction) -> Option<String> {
    match a {
        ReserveAction::Refuse(m) => Some(m.clone()),
        _ => None,
    }
}

#[test]
fn no_connected_worker_is_refused() {
    let st = ReserveState::new(1, "repo");
    let (st, act) = reserve_step(&st, ReserveEvent::Connected(vec![]));
    assert_eq!(refusal(&act).as_deref(), Some("No connected workers available"));
    assert_eq!(st.phase, ReservePhase::Finished);
}

#[test]
fn first_worker_reserved_in_store_is_held() {
    let st = ReserveState::new(1, "repo");
    let (st, act) = reserve_step(&st, ReserveEvent::Connected(names(&["w1", "w2", "w3"])));
    assert!(matches!(act, ReserveAction::TryReserve(ref w) if w == "w1"));
    let (st, act) = reserve_step(&st, ReserveEvent::ReserveOutcome(Some(false)));
    assert!(matches!(act, ReserveAction::TryReserve(ref w) if w == "w2"));
    let (st, act) = reserve_step(&st, ReserveEvent::ReserveOutcome(None));
    assert!(matches!(act, ReserveAction::TryReserve(ref w) if w == "w3"));
    assert!(st.worker.is_none());
    let (st, act) = reserve_step(&st, ReserveEvent::ReserveOutcome(Some(true)));
    assert!(matches!(act, ReserveAction::LookupRepo(ref n) if n == "repo"));
    assert_eq!(st.worker.as_deref(), Some("w3"));
    let (st, act) = reserve_step(&st, ReserveEvent::Repo(Some(42)));
    assert!(
        matches!(act, ReserveAction::Reserved { ref worker_id, repo_id: 42 } if worker_id == "w3")
    );
    assert_eq!(st.phase, ReservePhase::Finished);
}

#[test]
fn every_worker_reserved_is_refused() {
    let st = ReserveState::new(1, "repo");
    let (st, _) = reserve_step(&st, ReserveEvent::Connected(names(&["w1", "w2"])));
    let (st, _) = reserve_step(&st, ReserveEvent::ReserveOutcome(Some(false)));
    let (st, act) = reserve_step(&st, ReserveEvent::ReserveOutcome(None));
    assert_eq!(refusal(&act).as_deref(), Some("All workers are reserved"));
    assert!(st.worker.is_none());
}

#[test]
fn unknown_repo_is_refused_after_hold() {
    let st = ReserveState::new(1, "web");
    let (st, _) = reserve_step(&st, ReserveEvent::Connected(names(&["w1"])));
    let (st, _) = reserve_step(&st, ReserveEvent::ReserveOutcome(Some(true)));
    let (_, act) = reserve_step(&st, ReserveEvent::Repo(None));
    assert_eq!(
        refusal(&act).as_deref(),
        Some("Repo 'web' not found — create it in the DB first")
    );
}

#[test]
fn event_out_of_turn_changes_nothing() {
    let st = ReserveState::new(1, "repo");
    let (st, act) = reserve_step(&st, ReserveEvent::Repo(Some(3)));
    assert!(matches!(act, ReserveAction::Wait));
    assert_eq!(st.phase, ReservePhase::Listing);
    let (st, act) = reserve_step(&st, ReserveEvent::ReserveOutcome(Some(true)));
    assert!(matches!(act, ReserveAction::Wait));
    assert!(st.worker.is_none());
}

fn group(id: u128, state: JobGroupState) -> JobGroup {
    let t = UtcTime { secs: 0, nanos: 0 };
    JobGroup {
        id,
        state,
        reserved_stages: vec![],
        reserved_worker_id: Some("w1".to_string()),
        status_reason: None,
        created_at: t,
        updated_at: t,
        completed_at: None,
        last_activity_at: t,
    }
}

#[test]
fn orphaned_reservations_name_no_unfinished_group() {
    let mut reg = JobGroupRegistry::new();
    let live: u128 = 0x67e5504410b1426f9247bb680e5fe0c8;
    let done: u128 = 0x67e5504410b1426f9247bb680e5fe0c9;
    reg.add_group(group(live, JobGroupState::Reserved));
    reg.add_group(group(done, JobGroupState::Success));
    assert!(!reservation_orphaned("67e55044-10b1-426f-9247-bb680e5fe0c8", &reg));
    assert!(reservation_orphaned("67e55044-10b1-426f-9247-bb680e5fe0c9", &reg));
    assert!(reservation_orphaned("67e55044-10b1-426f-9247-bb680e5fe0ca", &reg));
    assert!(reservation_orphaned("not-a-uuid", &reg));
}

fn graph(entries: &[(&str, &[&str])]) -> Vec<(String, Vec<String>)> {
    entries
        .iter()
        .map(|(n, ps)| (n.to_string(), ps.iter().map(|p| p.to_string()).collect()))
        .collect()
}

#[test]
fn finishing_creates_the_reserved_group() {
    let mut reg = JobGroupRegistry::new();
    let deps = graph(&[("test", &["build"])]);
    let now = UtcTime { secs: 5, nanos: 0 };
    let rep = finish_reservation(&mut reg, 7, "w2", &deps, None, &names(&["build", "test"]), now)
        .ok()
        .unwrap();
    assert_eq!(rep.job_group_id, 7);
    assert_eq!(rep.worker_id, "w2");
    assert_eq!(rep.message, "Worker reserved successfully");
    assert_eq!(rep.stages.len(), 2);
    assert_eq!(rep.stages[1].stage_name, "test");
    assert_eq!(rep.stages[1].depends_on, names(&["build"]));
    assert_eq!(rep.stages[0].job_type, "common");
    let g = reg.get(7).unwrap();
    assert_eq!(g.state, JobGroupState::Reserved);
    assert_eq!(g.reserved_worker_id.as_deref(), Some("w2"));
}

#[test]
fn finishing_returns_an_active_group_without_creating() {
    let mut reg = JobGroupRegistry::new();
    let now = UtcTime { secs: 5, nanos: 0 };
    let existing = Some((3u128, Some("w9".to_string())));
    let rep = finish_reservation(&mut reg, 7, "w2", &vec![], existing, &names(&["build"]), now)
        .ok()
        .unwrap();
    assert_eq!(rep.job_group_id, 3);
    assert_eq!(rep.worker_id, "w9");
    assert_eq!(rep.message, "Existing active group returned");
    assert!(reg.get(7).is_none());
}

#[test]
fn finishing_refuses_a_stage_cycle() {
    let mut reg = JobGroupRegistry::new();
    let deps = graph(&[("a", &["b"]), ("b", &["a"])]);
    let now = UtcTime { secs: 5, nanos: 0 };
    let r = finish_reservation(&mut reg, 7, "w2", &deps, None, &names(&["a"]), now);
    assert_eq!(r.err().as_deref(), Some("Stage dependency cycle detected involving 'a'"));
    assert!(reg.get(7).is_none());
}
