use chola_controller::api::error::ApiError;
use chola_controller::api::notifications::{default_true, validate_channel_type, validate_trigger};
use chola_controller::api::repos::{
    default_command_mode, default_cpu, default_disk_mb, default_job_type, default_max_duration,
    default_memory_mb, validate_command_mode, validate_resource_fields, validate_string,
    CreateRepoRequest, CreateStageRequest, PaginationParams, UpdateStageRequest,
};
use chola_controller::api::scripts::{validate_script_scope, validate_script_type, CreateScriptRequest};
use chola_controller::api::users::{validate_password, CreateUserRequest, UpdateUserRequest};

fn bad(r: Result<(), ApiError>) -> String {
    match r {
        Err(ApiError::BadRequest(m)) => m,
        other => panic!("expected a bad request, got {:?}", other),
    }
}

fn repo(name: &str, url: &str) -> CreateRepoRequest {
    CreateRepoRequest {
        repo_name: name.to_string(),
        repo_url: url.to_string(),
        default_branch: None,
        global_pre_script: None,
        global_pre_script_scope: None,
        global_post_script: None,
        global_post_script_scope: None,
    }
}

fn stage(mode: &str, command: Option<&str>) -> CreateStageRequest {
    CreateStageRequest {
        stage_name: "build".to_string(),
        command: command.map(|c| c.to_string()),
        required_cpu: default_cpu(),
        required_memory_mb: default_memory_mb(),
        required_disk_mb: default_disk_mb(),
        max_duration_secs: default_max_duration(),
        execution_order: 0,
        parallel_group: None,
        allow_worker_migration: false,
        job_type: default_job_type(),
        depends_on: vec![],
        required_labels: vec![],
        command_mode: mode.to_string(),
    }
}

#[test]
fn defaults() {
    assert_eq!(
        (default_cpu(), default_memory_mb(), default_disk_mb(), default_max_duration()),
        (1, 512, 256, 3600)
    );
    assert_eq!(default_job_type(), "common");
    assert_eq!(default_command_mode(), "fixed");
    assert!(default_true());
}

#[test]
fn string_checks() {
    assert!(validate_string("repo_name", "ok", 255).is_ok());
    assert_eq!(bad(validate_string("repo_name", "", 255)), "repo_name cannot be empty");
    assert_eq!(bad(validate_string("f", "abcd", 3)), "f exceeds max length of 3");
    // The limit counts bytes: "é" is two.
    assert_eq!(bad(validate_string("f", "éé", 3)), "f exceeds max length of 3");
}

#[test]
fn resource_limits() {
    assert!(validate_resource_fields(0, 0, 0, 0).is_ok());
    assert!(validate_resource_fields(1024, 1_048_576, 10_485_760, 86400).is_ok());
    assert_eq!(bad(validate_resource_fields(-1, 0, 0, 0)), "required_cpu must be 0-1024");
    assert_eq!(bad(validate_resource_fields(0, 1_048_577, 0, 0)), "required_memory_mb must be 0-1048576");
    assert_eq!(bad(validate_resource_fields(0, 0, 10_485_761, 0)), "required_disk_mb must be 0-10485760");
    assert_eq!(bad(validate_resource_fields(0, 0, 0, 86401)), "max_duration_secs must be 0-86400");
}

#[test]
fn command_modes() {
    for m in ["fixed", "optional", "required"] {
        assert!(validate_command_mode(m).is_ok());
    }
    assert_eq!(bad(validate_command_mode("Fixed")), "command_mode must be one of: fixed, optional, required");
}

#[test]
fn repo_requests() {
    assert!(repo("r", "https://x").validate().is_ok());
    assert_eq!(bad(repo("", "https://x").validate()), "repo_name cannot be empty");
    assert_eq!(bad(repo("r", "").validate()), "repo_url cannot be empty");
    let mut r = repo("r", "u");
    r.global_pre_script = Some("x".repeat(65537));
    assert_eq!(bad(r.validate()), "global_pre_script must be under 64KB");
    assert_eq!(repo("r", "u").branch(), "main");
}

#[test]
fn stage_requests() {
    assert!(stage("fixed", Some("make")).validate().is_ok());
    assert!(stage("required", None).validate().is_ok());
    assert_eq!(bad(stage("fixed", Some("")).validate()), "command is required for fixed/optional mode");
    assert_eq!(bad(stage("optional", None).validate()), "command is required for fixed/optional mode");
    let u = UpdateStageRequest {
        stage_name: None,
        command: None,
        required_cpu: Some(2000),
        required_memory_mb: None,
        required_disk_mb: None,
        max_duration_secs: None,
        execution_order: None,
        parallel_group: None,
        allow_worker_migration: None,
        job_type: None,
        depends_on: None,
        required_labels: None,
        command_mode: None,
    };
    assert_eq!(bad(u.validate()), "required_cpu must be 0-1024");
}

#[test]
fn pagination() {
    assert_eq!(PaginationParams { limit: None, offset: None }.page(), (50, 0));
    assert_eq!(PaginationParams { limit: Some(500), offset: Some(10) }.page(), (200, 10));
    assert_eq!(PaginationParams { limit: Some(20), offset: None }.page(), (20, 0));
}

#[test]
fn password_policy() {
    assert!(validate_password("Secret123").is_ok());
    assert_eq!(bad(validate_password("Ab1")), "Password must be at least 8 characters");
    assert_eq!(bad(validate_password("secret123")), "Password must contain an uppercase letter");
    assert_eq!(bad(validate_password("SecretPass")), "Password must contain a number");
}

#[test]
fn user_requests() {
    let c = CreateUserRequest {
        username: "".to_string(),
        password: "Secret123".to_string(),
        display_name: None,
        role: "viewer".to_string(),
    };
    assert_eq!(bad(c.validate()), "username cannot be empty");
    let u = UpdateUserRequest { display_name: None, role: None, active: None, password: Some("short".to_string()) };
    assert_eq!(bad(u.validate()), "Password must be at least 8 characters");
    let u = UpdateUserRequest { display_name: None, role: None, active: Some(false), password: None };
    assert!(u.validate().is_ok());
}

#[test]
fn script_requests() {
    assert!(validate_script_type("pre").is_ok());
    assert_eq!(bad(validate_script_type("mid")), "script_type must be 'pre' or 'post'");
    assert!(validate_script_scope("master").is_ok());
    assert_eq!(bad(validate_script_scope("both")), "script_scope must be 'worker' or 'master'");
    let s = CreateScriptRequest {
        script_type: "post".to_string(),
        script_scope: "worker".to_string(),
        script: "".to_string(),
        worker_id: None,
        lock_enabled: false,
        lock_key: None,
        lock_timeout_secs: 300,
    };
    assert_eq!(bad(s.validate()), "script cannot be empty");
}

#[test]
fn notification_rules() {
    assert!(validate_trigger("on_complete").is_ok());
    assert_eq!(bad(validate_trigger("always")), "trigger must be on_success, on_failure, or on_complete");
    assert!(validate_channel_type("slack").is_ok());
    assert_eq!(bad(validate_channel_type("email")), "channel_type must be slack or webhook");
}
