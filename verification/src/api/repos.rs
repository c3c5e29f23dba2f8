//! Repository and stage-configuration requests, and the checks made on them
//! before anything is stored.
use crate::api::error::{bad_request, bad_request2, err_of, ApiError, ApiErrorV};
use crate::api::settings::opt_bad_request;
use crate::text::{chars_eq_str, chars_of, dec, push_str, push_u64, utf8_len, utf8_longer_than};
use vstd::prelude::*;

verus! {

pub struct CreateRepoRequest {
    pub repo_name: String,
    pub repo_url: String,
    pub default_branch: Option<String>,
    pub global_pre_script: Option<String>,
    pub global_pre_script_scope: Option<String>,
    pub global_post_script: Option<String>,
    pub global_post_script_scope: Option<String>,
}

pub struct UpdateRepoRequest {
    pub repo_name: Option<String>,
    pub repo_url: Option<String>,
    pub default_branch: Option<String>,
    pub enabled: Option<bool>,
    pub max_concurrent_builds: Option<i32>,
    pub cancel_superseded: Option<bool>,
    /// `Some(None)` clears the script; `None` leaves it unchanged.
    pub global_pre_script: Option<Option<String>>,
    pub global_pre_script_scope: Option<String>,
    pub global_post_script: Option<Option<String>>,
    pub global_post_script_scope: Option<String>,
}

pub struct CreateStageRequest {
    pub stage_name: String,
    pub command: Option<String>,
    pub required_cpu: i32,
    pub required_memory_mb: i32,
    pub required_disk_mb: i32,
    pub max_duration_secs: i32,
    pub execution_order: i32,
    pub parallel_group: Option<String>,
    pub allow_worker_migration: bool,
    pub job_type: String,
    pub depends_on: Vec<String>,
    pub required_labels: Vec<String>,
    pub command_mode: String,
}

pub struct UpdateStageRequest {
    pub stage_name: Option<String>,
    pub command: Option<String>,
    pub required_cpu: Option<i32>,
    pub required_memory_mb: Option<i32>,
    pub required_disk_mb: Option<i32>,
    pub max_duration_secs: Option<i32>,
    pub execution_order: Option<i32>,
    pub parallel_group: Option<String>,
    pub allow_worker_migration: Option<bool>,
    pub job_type: Option<String>,
    pub depends_on: Option<Vec<String>>,
    pub required_labels: Option<Vec<String>>,
    pub command_mode: Option<String>,
}

/// Page size and offset of a listing.
pub struct PaginationParams {
    pub limit: Option<i64>,
    pub offset: Option<i64>,
}

// ── Specification ───────────────────────────────────────────────────────────
/// The first of two possible errors.
pub open spec fn first_of(a: Option<Seq<char>>, b: Option<Seq<char>>) -> Option<Seq<char>> {
    if a is Some {
        a
    } else {
        b
    }
}

/// Why `value` is no acceptable text for `field`: empty, or longer than
/// `max_len` bytes.
pub open spec fn string_error(field: Seq<char>, value: Seq<char>, max_len: nat) -> Option<Seq<char>> {
    if value.len() == 0 {
        Some(field + " cannot be empty"@)
    } else if utf8_len(value) > max_len {
        Some(field + " exceeds max length of "@ + dec(max_len as int))
    } else {
        None
    }
}

pub open spec fn resource_error(cpu: int, memory_mb: int, disk_mb: int, max_duration: int) -> Option<
    Seq<char>,
> {
    if cpu < 0 || cpu > 1024 {
        Some("required_cpu must be 0-1024"@)
    } else if memory_mb < 0 || memory_mb > 1048576 {
        Some("required_memory_mb must be 0-1048576"@)
    } else if disk_mb < 0 || disk_mb > 10485760 {
        Some("required_disk_mb must be 0-10485760"@)
    } else if max_duration < 0 || max_duration > 86400 {
        Some("max_duration_secs must be 0-86400"@)
    } else {
        None
    }
}

pub open spec fn command_mode_error(mode: Seq<char>) -> Option<Seq<char>> {
    if mode == "fixed"@ || mode == "optional"@ || mode == "required"@ {
        None
    } else {
        Some("command_mode must be one of: fixed, optional, required"@)
    }
}

pub open spec fn script_scope_error(scope: Seq<char>) -> Option<Seq<char>> {
    if scope == "worker"@ || scope == "master"@ || scope == "both"@ {
        None
    } else {
        Some("script scope must be one of: worker, master, both"@)
    }
}

pub open spec fn opt_scope_error(scope: Option<String>) -> Option<Seq<char>> {
    match scope {
        Some(s) => script_scope_error(s@),
        None => None,
    }
}

/// A global script longer than 64 KiB.
pub open spec fn script_size_error(script: Option<String>, field: Seq<char>) -> Option<Seq<char>> {
    match script {
        Some(s) => if utf8_len(s@) > 65536 {
            Some(field + " must be under 64KB"@)
        } else {
            None
        },
        None => None,
    }
}

pub open spec fn opt_string_error(field: Seq<char>, value: Option<String>, max_len: nat) -> Option<
    Seq<char>,
> {
    match value {
        Some(v) => string_error(field, v@, max_len),
        None => None,
    }
}

pub open spec fn create_repo_error(r: CreateRepoRequest) -> Option<Seq<char>> {
    first_of(
        string_error("repo_name"@, r.repo_name@, 255),
        first_of(
            string_error("repo_url"@, r.repo_url@, 2048),
            first_of(
                opt_scope_error(r.global_pre_script_scope),
                first_of(
                    opt_scope_error(r.global_post_script_scope),
                    first_of(
                        script_size_error(r.global_pre_script, "global_pre_script"@),
                        script_size_error(r.global_post_script, "global_post_script"@),
                    ),
                ),
            ),
        ),
    )
}

pub open spec fn flatten(s: Option<Option<String>>) -> Option<String> {
    match s {
        Some(Some(x)) => Some(x),
        _ => None,
    }
}

pub open spec fn update_repo_error(r: UpdateRepoRequest) -> Option<Seq<char>> {
    first_of(
        opt_string_error("repo_name"@, r.repo_name, 255),
        first_of(
            opt_string_error("repo_url"@, r.repo_url, 2048),
            first_of(
                opt_scope_error(r.global_pre_script_scope),
                first_of(
                    opt_scope_error(r.global_post_script_scope),
                    first_of(
                        script_size_error(flatten(r.global_pre_script), "global_pre_script"@),
                        script_size_error(flatten(r.global_post_script), "global_post_script"@),
                    ),
                ),
            ),
        ),
    )
}

/// Modes other than `required` need a non-empty command.
pub open spec fn command_presence_error(mode: Seq<char>, command: Option<String>) -> Option<Seq<char>> {
    if mode != "required"@ && match command {
        Some(c) => c@.len() == 0,
        None => true,
    } {
        Some("command is required for fixed/optional mode"@)
    } else {
        None
    }
}

pub open spec fn create_stage_error(r: CreateStageRequest) -> Option<Seq<char>> {
    first_of(
        string_error("stage_name"@, r.stage_name@, 255),
        first_of(
            command_mode_error(r.command_mode@),
            first_of(
                command_presence_error(r.command_mode@, r.command),
                resource_error(
                    r.required_cpu as int,
                    r.required_memory_mb as int,
                    r.required_disk_mb as int,
                    r.max_duration_secs as int,
                ),
            ),
        ),
    )
}

pub open spec fn or_i32(v: Option<i32>, d: i32) -> int {
    match v {
        Some(x) => x as int,
        None => d as int,
    }
}

pub open spec fn update_stage_error(r: UpdateStageRequest) -> Option<Seq<char>> {
    first_of(
        opt_string_error("stage_name"@, r.stage_name, 255),
        first_of(
            match r.command_mode {
                Some(m) => command_mode_error(m@),
                None => None,
            },
            resource_error(
                or_i32(r.required_cpu, 0),
                or_i32(r.required_memory_mb, 0),
                or_i32(r.required_disk_mb, 0),
                or_i32(r.max_duration_secs, 3600),
            ),
        ),
    )
}

// ── Executable ──────────────────────────────────────────────────────────────
pub fn default_cpu() -> (v: i32)
    ensures
        v == 1,
{
    1
}

pub fn default_memory_mb() -> (v: i32)
    ensures
        v == 512,
{
    512
}

pub fn default_disk_mb() -> (v: i32)
    ensures
        v == 256,
{
    256
}

pub fn default_max_duration() -> (v: i32)
    ensures
        v == 3600,
{
    3600
}

pub fn default_job_type() -> (s: String)
    ensures
        s@ == "common"@,
{
    String::from_str("common")
}

pub fn default_command_mode() -> (s: String)
    ensures
        s@ == "fixed"@,
{
    String::from_str("fixed")
}

/// A non-empty text of at most `max_len` bytes.
pub fn validate_string(field: &str, value: &str, max_len: usize) -> (r: Result<(), ApiError>)
    ensures
        err_of(r) == opt_bad_request(string_error(field@, value@, max_len as nat)),
{
    let v = chars_of(value);
    if v.len() == 0 {
        return Err(bad_request2(field, " cannot be empty"));
    }
    if utf8_longer_than(value, max_len) {
        let mut m = String::new();
        push_str(&mut m, field);
        push_str(&mut m, " exceeds max length of ");
        push_u64(&mut m, max_len as u64);
        assert(m@ =~= field@ + " exceeds max length of "@ + dec(max_len as int));
        return Err(ApiError::BadRequest(m));
    }
    Ok(())
}

pub fn validate_resource_fields(cpu: i32, memory_mb: i32, disk_mb: i32, max_duration: i32) -> (r:
    Result<(), ApiError>)
    ensures
        err_of(r) == opt_bad_request(
            resource_error(cpu as int, memory_mb as int, disk_mb as int, max_duration as int),
        ),
{
    if cpu < 0 || cpu > 1024 {
        return Err(bad_request("required_cpu must be 0-1024"));
    }
    if memory_mb < 0 || memory_mb > 1_048_576 {
        return Err(bad_request("required_memory_mb must be 0-1048576"));
    }
    if disk_mb < 0 || disk_mb > 10_485_760 {
        return Err(bad_request("required_disk_mb must be 0-10485760"));
    }
    if max_duration < 0 || max_duration > 86400 {
        return Err(bad_request("max_duration_secs must be 0-86400"));
    }
    Ok(())
}

pub fn validate_command_mode(mode: &str) -> (r: Result<(), ApiError>)
    ensures
        err_of(r) == opt_bad_request(command_mode_error(mode@)),
{
    let m = chars_of(mode);
    if chars_eq_str(&m, "fixed") || chars_eq_str(&m, "optional") || chars_eq_str(&m, "required") {
        Ok(())
    } else {
        Err(bad_request("command_mode must be one of: fixed, optional, required"))
    }
}

/// The scope of a repository's global script.
pub fn validate_script_scope(scope: &str) -> (r: Result<(), ApiError>)
    ensures
        err_of(r) == opt_bad_request(script_scope_error(scope@)),
{
    let s = chars_of(scope);
    if chars_eq_str(&s, "worker") || chars_eq_str(&s, "master") || chars_eq_str(&s, "both") {
        Ok(())
    } else {
        Err(bad_request("script scope must be one of: worker, master, both"))
    }
}

fn check_opt_scope(scope: &Option<String>) -> (r: Result<(), ApiError>)
    ensures
        err_of(r) == opt_bad_request(opt_scope_error(*scope)),
{
    match scope {
        Some(s) => validate_script_scope(s.as_str()),
        None => Ok(()),
    }
}

fn check_script_size(script: &Option<String>, message: &str) -> (r: Result<(), ApiError>)
    requires
        message@ == "global_pre_script must be under 64KB"@ || message@
            == "global_post_script must be under 64KB"@,
    ensures
        err_of(r) == match *script {
            Some(s) => if utf8_len(s@) > 65536 {
                Some(ApiErrorV::BadRequest(message@))
            } else {
                None
            },
            None => None,
        },
{
    match script {
        Some(s) => {
            if utf8_longer_than(s.as_str(), 65536) {
                Err(bad_request(message))
            } else {
                Ok(())
            }
        },
        None => Ok(()),
    }
}

fn check_opt_string(field: &str, value: &Option<String>, max_len: usize) -> (r: Result<(), ApiError>)
    ensures
        err_of(r) == opt_bad_request(opt_string_error(field@, *value, max_len as nat)),
{
    match value {
        Some(v) => validate_string(field, v.as_str(), max_len),
        None => Ok(()),
    }
}

fn flatten_ref(s: &Option<Option<String>>) -> (r: Option<&String>)
    ensures
        match flatten(*s) {
            Some(x) => r == Some(&x),
            None => r is None,
        },
{
    match s {
        Some(Some(x)) => Some(x),
        _ => None,
    }
}

impl CreateRepoRequest {
    /// The default branch, `main` when none is given.
    pub fn branch(&self) -> (b: &str)
        ensures
            b@ == match self.default_branch {
                Some(d) => d@,
                None => "main"@,
            },
    {
        match &self.default_branch {
            Some(d) => d.as_str(),
            None => "main",
        }
    }

    /// The checks a new repository passes before it is stored.
    pub fn validate(&self) -> (r: Result<(), ApiError>)
        ensures
            err_of(r) == opt_bad_request(create_repo_error(*self)),
    {
        match validate_string("repo_name", self.repo_name.as_str(), 255) {
            Err(e) => return Err(e),
            Ok(()) => {},
        }
        match validate_string("repo_url", self.repo_url.as_str(), 2048) {
            Err(e) => return Err(e),
            Ok(()) => {},
        }
        match check_opt_scope(&self.global_pre_script_scope) {
            Err(e) => return Err(e),
            Ok(()) => {},
        }
        match check_opt_scope(&self.global_post_script_scope) {
            Err(e) => return Err(e),
            Ok(()) => {},
        }
        proof {
            reveal_strlit("global_pre_script must be under 64KB");
            reveal_strlit("global_pre_script");
            reveal_strlit(" must be under 64KB");
            reveal_strlit("global_post_script must be under 64KB");
            reveal_strlit("global_post_script");
            assert("global_pre_script"@ + " must be under 64KB"@ =~= "global_pre_script must be under 64KB"@);
            assert("global_post_script"@ + " must be under 64KB"@ =~= "global_post_script must be under 64KB"@);
        }
        match check_script_size(&self.global_pre_script, "global_pre_script must be under 64KB") {
            Err(e) => return Err(e),
            Ok(()) => {},
        }
        check_script_size(&self.global_post_script, "global_post_script must be under 64KB")
    }
}

impl UpdateRepoRequest {
    /// The checks an update passes before it is stored.
    pub fn validate(&self) -> (r: Result<(), ApiError>)
        ensures
            err_of(r) == opt_bad_request(update_repo_error(*self)),
    {
        match check_opt_string("repo_name", &self.repo_name, 255) {
            Err(e) => return Err(e),
            Ok(()) => {},
        }
        match check_opt_string("repo_url", &self.repo_url, 2048) {
            Err(e) => return Err(e),
            Ok(()) => {},
        }
        match check_opt_scope(&self.global_pre_script_scope) {
            Err(e) => return Err(e),
            Ok(()) => {},
        }
        match check_opt_scope(&self.global_post_script_scope) {
            Err(e) => return Err(e),
            Ok(()) => {},
        }
        proof {
            reveal_strlit("global_pre_script must be under 64KB");
            reveal_strlit("global_pre_script");
            reveal_strlit(" must be under 64KB");
            reveal_strlit("global_post_script must be under 64KB");
            reveal_strlit("global_post_script");
            assert("global_pre_script"@ + " must be under 64KB"@ =~= "global_pre_script must be under 64KB"@);
            assert("global_post_script"@ + " must be under 64KB"@ =~= "global_post_script must be under 64KB"@);
        }
        let pre = match flatten_ref(&self.global_pre_script) {
            Some(s) => Some(s.clone()),
            None => None,
        };
        match check_script_size(&pre, "global_pre_script must be under 64KB") {
            Err(e) => return Err(e),
            Ok(()) => {},
        }
        let post = match flatten_ref(&self.global_post_script) {
            Some(s) => Some(s.clone()),
            None => None,
        };
        check_script_size(&post, "global_post_script must be under 64KB")
    }
}

impl CreateStageRequest {
    /// The checks a new stage configuration passes before it is stored.
    pub fn validate(&self) -> (r: Result<(), ApiError>)
        ensures
            err_of(r) == opt_bad_request(create_stage_error(*self)),
    {
        match validate_string("stage_name", self.stage_name.as_str(), 255) {
            Err(e) => return Err(e),
            Ok(()) => {},
        }
        match validate_command_mode(self.command_mode.as_str()) {
            Err(e) => return Err(e),
            Ok(()) => {},
        }
        let mode = chars_of(self.command_mode.as_str());
        if !chars_eq_str(&mode, "required") {
            let empty = match &self.command {
                Some(c) => chars_of(c.as_str()).len() == 0,
                None => true,
            };
            if empty {
                return Err(bad_request("command is required for fixed/optional mode"));
            }
        }
        validate_resource_fields(
            self.required_cpu,
            self.required_memory_mb,
            self.required_disk_mb,
            self.max_duration_secs,
        )
    }
}

impl UpdateStageRequest {
    /// The checks a stage update passes before it is stored; absent resource
    /// fields are checked as 0, and an absent duration as 3600.
    pub fn validate(&self) -> (r: Result<(), ApiError>)
        ensures
            err_of(r) == opt_bad_request(update_stage_error(*self)),
    {
        match check_opt_string("stage_name", &self.stage_name, 255) {
            Err(e) => return Err(e),
            Ok(()) => {},
        }
        match &self.command_mode {
            Some(m) => match validate_command_mode(m.as_str()) {
                Err(e) => return Err(e),
                Ok(()) => {},
            },
            None => {},
        }
        let cpu = match self.required_cpu {
            Some(x) => x,
            None => 0,
        };
        let mem = match self.required_memory_mb {
            Some(x) => x,
            None => 0,
        };
        let disk = match self.required_disk_mb {
            Some(x) => x,
            None => 0,
        };
        let dur = match self.max_duration_secs {
            Some(x) => x,
            None => 3600,
        };
        validate_resource_fields(cpu, mem, disk, dur)
    }
}

impl PaginationParams {
    /// The page size (50 by default, at most 200) and the offset (0 by default).
    pub fn page(&self) -> (r: (i64, i64))
        ensures
            r.0 == match self.limit {
                Some(l) => if l < 200 {
                    l
                } else {
                    200
                },
                None => 50,
            },
            r.1 == match self.offset {
                Some(o) => o,
                None => 0,
            },
    {
        let limit = match self.limit {
            Some(l) => if l < 200 {
                l
            } else {
                200
            },
            None => 50,
        };
        let offset = match self.offset {
            Some(o) => o,
            None => 0,
        };
        (limit, offset)
    }
}

} // verus!
