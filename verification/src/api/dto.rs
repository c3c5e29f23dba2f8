//! Remaining request and response bodies of the HTTP API, with the checks
//! the handlers make on them before touching storage.
use crate::api::error::{bad_request, bad_request2, err_of, ApiError, ApiErrorV};
use crate::api::settings::opt_bad_request;
use crate::text::{
    chars_eq_str, chars_of, contains, contains_char, contains_chars, trim, trim_bounds, utf8_len,
    utf8_longer_than,
};
use vstd::prelude::*;

verus! {

pub struct CreateApiKeyRequest {
    pub name: String,
}

pub struct ApiKeyResponse {
    pub id: String,
    pub name: String,
    pub created_at: String,
    pub last_used_at: Option<String>,
}

/// A new API key; the raw key is shown this once.
pub struct CreateApiKeyResponse {
    pub key: String,
    pub meta: ApiKeyResponse,
}

pub struct LoginRequest {
    pub username: String,
    pub password: String,
}

pub struct UserResponse {
    pub id: String,
    pub username: String,
    pub display_name: Option<String>,
    pub role: String,
    pub active: bool,
    pub created_at: String,
    pub updated_at: String,
}

pub struct LoginResponse {
    pub token: String,
    pub expires_at: String,
    pub user: UserResponse,
}

pub struct ChangePasswordRequest {
    pub current_password: String,
    pub new_password: String,
}

pub struct BranchBlacklistQuery {
    pub worker_id: Option<String>,
}

/// A build requested by repository name.
pub struct TriggerRequest {
    pub repo_name: String,
    pub branch: Option<String>,
    pub commit_sha: Option<String>,
    pub stages: Option<Vec<String>>,
    pub priority: Option<i32>,
    pub idempotency_key: Option<String>,
}

pub struct RunListParams {
    pub limit: Option<i64>,
    pub offset: Option<i64>,
    pub state: Option<String>,
    pub worker_id: Option<String>,
}

pub struct LogParams {
    pub from_offset: Option<u64>,
}

pub struct ResourceQuery {
    pub limit: Option<i64>,
}

pub struct CreateWebhookRequest {
    pub provider: String,
    pub events: Option<Vec<String>>,
}

pub struct UpdateLabelsRequest {
    pub labels: Vec<String>,
}

pub struct RegisterWorkerRequest {
    pub worker_id: String,
    pub hostname: String,
    pub labels: Option<Vec<String>>,
    pub description: Option<String>,
}

pub struct CreateTokenRequest {
    pub name: String,
    pub scope: Option<String>,
    pub expires_at: Option<String>,
    pub max_uses: Option<i32>,
}

pub struct CreateVariableRequest {
    pub name: String,
    pub value: String,
    pub is_secret: bool,
}

pub struct UpdateVariableRequest {
    pub name: Option<String>,
    pub value: Option<String>,
    pub is_secret: Option<bool>,
}

pub struct CreateScheduleRequest {
    pub interval_secs: i64,
    pub stages: Vec<String>,
    pub branch: String,
}

pub struct UpdateScheduleRequest {
    pub interval_secs: Option<i64>,
    pub stages: Option<Vec<String>>,
    pub branch: Option<String>,
    pub enabled: Option<bool>,
}

// ── Specification ───────────────────────────────────────────────────────────
/// A name of 1 to 255 bytes.
pub open spec fn name_in_range(name: Seq<char>) -> bool {
    name.len() > 0 && utf8_len(name) <= 255
}

pub open spec fn blank(s: Seq<char>) -> bool {
    trim(s).len() == 0
}

pub open spec fn interval_error(secs: i64) -> Option<Seq<char>> {
    if secs < 60 {
        Some("interval_secs must be at least 60"@)
    } else {
        None
    }
}

/// A file-name component that could leave its directory.
pub open spec fn unsafe_component(value: Seq<char>) -> bool {
    contains(value, ".."@) || value.contains('/') || value.contains('\\') || value.contains('\0')
}

// ── Executable ──────────────────────────────────────────────────────────────
fn name_ok(name: &str) -> (b: bool)
    ensures
        b == name_in_range(name@),
{
    let v = chars_of(name);
    v.len() > 0 && !utf8_longer_than(name, 255)
}

fn is_blank(s: &str) -> (b: bool)
    ensures
        b == blank(s@),
{
    let v = chars_of(s);
    let (lo, hi) = trim_bounds(&v);
    lo == hi
}

impl CreateApiKeyRequest {
    pub fn validate(&self) -> (r: Result<(), ApiError>)
        ensures
            err_of(r) == if name_in_range(self.name@) {
                None
            } else {
                Some(ApiErrorV::BadRequest("name must be 1–255 chars"@))
            },
    {
        if name_ok(self.name.as_str()) {
            Ok(())
        } else {
            Err(bad_request("name must be 1–255 chars"))
        }
    }
}

impl CreateVariableRequest {
    pub fn validate(&self) -> (r: Result<(), ApiError>)
        ensures
            err_of(r) == if name_in_range(self.name@) {
                None
            } else {
                Some(ApiErrorV::BadRequest("name must be 1-255 characters"@))
            },
    {
        if name_ok(self.name.as_str()) {
            Ok(())
        } else {
            Err(bad_request("name must be 1-255 characters"))
        }
    }
}

impl UpdateVariableRequest {
    pub fn validate(&self) -> (r: Result<(), ApiError>)
        ensures
            err_of(r) == match self.name {
                Some(n) => if name_in_range(n@) {
                    None
                } else {
                    Some(ApiErrorV::BadRequest("name must be 1-255 characters"@))
                },
                None => None,
            },
    {
        match &self.name {
            Some(n) => if name_ok(n.as_str()) {
                Ok(())
            } else {
                Err(bad_request("name must be 1-255 characters"))
            },
            None => Ok(()),
        }
    }
}

/// The branch a schedule runs on when none is given.
pub fn default_branch() -> (s: String)
    ensures
        s@ == "main"@,
{
    String::from_str("main")
}

impl CreateScheduleRequest {
    pub fn validate(&self) -> (r: Result<(), ApiError>)
        ensures
            err_of(r) == opt_bad_request(
                if self.interval_secs < 60 {
                    Some("interval_secs must be at least 60"@)
                } else if self.stages@.len() == 0 {
                    Some("stages cannot be empty"@)
                } else {
                    None
                },
            ),
    {
        if self.interval_secs < 60 {
            return Err(bad_request("interval_secs must be at least 60"));
        }
        if self.stages.len() == 0 {
            return Err(bad_request("stages cannot be empty"));
        }
        Ok(())
    }
}

impl UpdateScheduleRequest {
    pub fn validate(&self) -> (r: Result<(), ApiError>)
        ensures
            err_of(r) == opt_bad_request(
                match self.interval_secs {
                    Some(s) => interval_error(s),
                    None => None,
                },
            ),
    {
        match self.interval_secs {
            Some(s) => if s < 60 {
                Err(bad_request("interval_secs must be at least 60"))
            } else {
                Ok(())
            },
            None => Ok(()),
        }
    }
}

impl CreateWebhookRequest {
    pub fn validate(&self) -> (r: Result<(), ApiError>)
        ensures
            err_of(r) == if self.provider@ == "github"@ || self.provider@ == "gitlab"@ {
                None
            } else {
                Some(ApiErrorV::BadRequest("provider must be 'github' or 'gitlab'"@))
            },
    {
        let p = chars_of(self.provider.as_str());
        if chars_eq_str(&p, "github") || chars_eq_str(&p, "gitlab") {
            Ok(())
        } else {
            Err(bad_request("provider must be 'github' or 'gitlab'"))
        }
    }
}

impl RegisterWorkerRequest {
    pub fn validate(&self) -> (r: Result<(), ApiError>)
        ensures
            err_of(r) == if blank(self.worker_id@) {
                Some(ApiErrorV::BadRequest("worker_id is required"@))
            } else if blank(self.hostname@) {
                Some(ApiErrorV::BadRequest("hostname is required"@))
            } else {
                None
            },
    {
        if is_blank(self.worker_id.as_str()) {
            return Err(bad_request("worker_id is required"));
        }
        if is_blank(self.hostname.as_str()) {
            return Err(bad_request("hostname is required"));
        }
        Ok(())
    }
}

impl CreateTokenRequest {
    pub fn validate(&self) -> (r: Result<(), ApiError>)
        ensures
            err_of(r) == if blank(self.name@) {
                Some(ApiErrorV::BadRequest("Name is required"@))
            } else {
                None
            },
    {
        if is_blank(self.name.as_str()) {
            Err(bad_request("Name is required"))
        } else {
            Ok(())
        }
    }

    /// The token's scope, `shared` when none is given.
    pub fn scope_or_default(&self) -> (s: &str)
        ensures
            s@ == match self.scope {
                Some(x) => x@,
                None => "shared"@,
            },
    {
        match &self.scope {
            Some(x) => x.as_str(),
            None => "shared",
        }
    }
}

impl TriggerRequest {
    /// The priority, 0 when none is given.
    pub fn priority_or_default(&self) -> (p: i32)
        ensures
            p == match self.priority {
                Some(x) => x,
                None => 0,
            },
    {
        match self.priority {
            Some(x) => x,
            None => 0,
        }
    }
}

impl RunListParams {
    /// The page size (50 by default, at most 200) and the offset (0 by default).
    pub fn page(&self) -> (r: (i64, i64))
        ensures
            r.0 == match self.limit {
                Some(l) => if l < 200 {
                    l
                } else {
                    200
                },
                None => 50,
            },
            r.1 == match self.offset {
                Some(o) => o,
                None => 0,
            },
    {
        let limit = match self.limit {
            Some(l) => if l < 200 {
                l
            } else {
                200
            },
            None => 50,
        };
        let offset = match self.offset {
            Some(o) => o,
            None => 0,
        };
        (limit, offset)
    }
}

impl LogParams {
    /// The byte offset to stream from, 0 when none is given.
    pub fn offset(&self) -> (o: u64)
        ensures
            o == match self.from_offset {
                Some(x) => x,
                None => 0,
            },
    {
        match self.from_offset {
            Some(x) => x,
            None => 0,
        }
    }
}

impl ResourceQuery {
    /// The number of samples, 20 by default and at most 100.
    pub fn limit_or_default(&self) -> (l: i64)
        ensures
            l == match self.limit {
                Some(x) => if x < 100 {
                    x
                } else {
                    100
                },
                None => 20,
            },
    {
        match self.limit {
            Some(x) => if x < 100 {
                x
            } else {
                100
            },
            None => 20,
        }
    }
}

/// A path component of an artifact request: refused when it holds `..`, a
/// slash, a backslash or a NUL character.
pub fn validate_path_component(name: &str, value: &str) -> (r: Result<(), ApiError>)
    ensures
        err_of(r) == if unsafe_component(value@) {
            Some(ApiErrorV::BadRequest("Invalid "@ + name@))
        } else {
            None
        },
{
    let v = chars_of(value);
    let dots = chars_of("..");
    if contains_chars(&v, &dots) || contains_char(&v, '/') || contains_char(&v, '\\')
        || contains_char(&v, '\0') {
        return Err(bad_request2("Invalid ", name));
    }
    Ok(())
}

} // verus!
