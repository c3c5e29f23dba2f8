use chola_controller::redis_store::{parse_worker_death_key, store_key, worker_alive_key};

#[test]
fn store_key_joins_parts_with_colons() {
    assert_eq!(store_key("chola:", &["group", "abc", "jobs"]), "chola:group:abc:jobs");
    assert_eq!(store_key("p:", &[]), "p:");
}

#[test]
fn worker_alive_key_format() {
    assert_eq!(worker_alive_key("chola:", "w-1"), "chola:worker:alive:w-1");
}

#[test]
fn death_key_roundtrip() {
    let k = worker_alive_key("chola:", "worker-7");
    assert_eq!(parse_worker_death_key(&k, "chola:"), Some("worker-7".to_string()));
}

#[test]
fn unrelated_key_is_not_a_death() {
    assert_eq!(parse_worker_death_key("chola:group:1", "chola:"), None);
    assert_eq!(parse_worker_death_key("other:worker:alive:w", "chola:"), None);
}
