use chola_controller::api::job_groups::{fallback_allocation, job_for_stage, StageResources};

#[test]
fn allocation_is_largest_request() {
    let stages = vec![
        StageResources { cpu: 2, memory_mb: 512, disk_mb: -5 },
        StageResources { cpu: 1, memory_mb: 2048, disk_mb: 100 },
    ];
    assert_eq!(fallback_allocation(&stages), (2, 2048, 100));
    assert_eq!(fallback_allocation(&vec![]), (0, 0, 0));
    assert_eq!(fallback_allocation(&vec![StageResources { cpu: -1, memory_mb: -1, disk_mb: -1 }]), (0, 0, 0));
}

#[test]
fn stage_shows_its_last_run() {
    let names = vec!["build".to_string(), "test".to_string(), "build".to_string()];
    assert_eq!(job_for_stage(&names, "build"), Some(2));
    assert_eq!(job_for_stage(&names, "test"), Some(1));
    assert_eq!(job_for_stage(&names, "deploy"), None);
}
