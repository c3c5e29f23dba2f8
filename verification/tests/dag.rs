use chola_controller::dag::{deps_satisfied, topo_sort, validate_dag};

fn graph(entries: &[(&str, &[&str])]) -> Vec<(String, Vec<String>)> {
    entries
        .iter()
        .map(|(n, ps)| (n.to_string(), ps.iter().map(|p| p.to_string()).collect()))
        .collect()
}

fn pos(v: &[String], s: &str) -> usize {
    v.iter().position(|x| x == s).unwrap()
}

#[test]
fn topo_sort_puts_dependencies_first() {
    let g = graph(&[("test", &["build"]), ("deploy", &["test", "build"]), ("build", &[])]);
    let sorted = topo_sort(&g).unwrap();
    assert_eq!(sorted.len(), 3);
    assert!(pos(&sorted, "build") < pos(&sorted, "test"));
    assert!(pos(&sorted, "test") < pos(&sorted, "deploy"));
}

#[test]
fn topo_sort_includes_parents_without_entries() {
    let g = graph(&[("test", &["build"])]);
    let sorted = topo_sort(&g).unwrap();
    assert_eq!(sorted, vec!["build".to_string(), "test".to_string()]);
}

#[test]
fn topo_sort_reports_cycle() {
    let g = graph(&[("a", &["b"]), ("b", &["a"])]);
    let err = topo_sort(&g).unwrap_err();
    assert!(err == "a" || err == "b");
    assert!(validate_dag(&g).is_err());
}

#[test]
fn validate_dag_accepts_empty_graph() {
    assert_eq!(validate_dag(&Vec::new()), Ok(()));
}

#[test]
fn deps_satisfied_checks_every_parent() {
    let g = graph(&[("deploy", &["build", "test"])]);
    let done = vec!["build".to_string()];
    assert!(!deps_satisfied("deploy", &g, &done));
    let done = vec!["build".to_string(), "test".to_string()];
    assert!(deps_satisfied("deploy", &g, &done));
    // A stage without an entry waits for nothing.
    assert!(deps_satisfied("lint", &g, &Vec::new()));
}

#[test]
fn cycle_reports_first_stage_left_unsorted() {
    // "lint" sorts; "a" and "b" depend on each other; "c" depends on "b".
    let g = graph(&[("lint", &[]), ("c", &["b"]), ("a", &["b"]), ("b", &["a"])]);
    assert_eq!(topo_sort(&g), Err("c".to_string()));
    assert_eq!(validate_dag(&g), Err("c".to_string()));
}

#[test]
fn self_dependency_is_the_stage_reported() {
    let g = graph(&[("build", &[]), ("loop", &["loop"])]);
    assert_eq!(topo_sort(&g), Err("loop".to_string()));
    assert_eq!(validate_dag(&g), Err("loop".to_string()));
}
