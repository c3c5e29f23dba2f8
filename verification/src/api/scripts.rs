//! Per-stage pre/post scripts: request bodies and their checks.
use crate::api::error::{bad_request, err_of, ApiError};
use crate::api::repos::first_of;
use crate::api::settings::opt_bad_request;
use crate::text::{chars_eq_str, chars_of, utf8_len, utf8_longer_than};
use vstd::prelude::*;

verus! {

pub struct CreateScriptRequest {
    pub script_type: String,
    pub script_scope: String,
    pub script: String,
    pub worker_id: Option<String>,
    pub lock_enabled: bool,
    pub lock_key: Option<String>,
    pub lock_timeout_secs: i32,
}

pub struct UpdateScriptRequest {
    pub script_type: Option<String>,
    pub script_scope: Option<String>,
    pub script: Option<String>,
    /// `Some(None)` clears the worker; `None` leaves it unchanged.
    pub worker_id: Option<Option<String>>,
    pub lock_enabled: Option<bool>,
    pub lock_key: Option<Option<String>>,
    pub lock_timeout_secs: Option<i32>,
}

pub open spec fn script_type_error(t: Seq<char>) -> Option<Seq<char>> {
    if t == "pre"@ || t == "post"@ {
        None
    } else {
        Some("script_type must be 'pre' or 'post'"@)
    }
}

pub open spec fn script_scope_error(s: Seq<char>) -> Option<Seq<char>> {
    if s == "worker"@ || s == "master"@ {
        None
    } else {
        Some("script_scope must be 'worker' or 'master'"@)
    }
}

/// A script body: not empty, at most 64 KiB.
pub open spec fn script_body_error(s: Seq<char>) -> Option<Seq<char>> {
    if s.len() == 0 {
        Some("script cannot be empty"@)
    } else if utf8_len(s) > 65536 {
        Some("script must be under 64KB"@)
    } else {
        None
    }
}

pub open spec fn create_script_error(r: CreateScriptRequest) -> Option<Seq<char>> {
    first_of(
        script_type_error(r.script_type@),
        first_of(script_scope_error(r.script_scope@), script_body_error(r.script@)),
    )
}

pub open spec fn update_script_error(r: UpdateScriptRequest) -> Option<Seq<char>> {
    first_of(
        match r.script_type {
            Some(t) => script_type_error(t@),
            None => None,
        },
        first_of(
            match r.script_scope {
                Some(s) => script_scope_error(s@),
                None => None,
            },
            match r.script {
                Some(s) => script_body_error(s@),
                None => None,
            },
        ),
    )
}

/// The lock timeout when none is given.
pub fn default_lock_timeout() -> (v: i32)
    ensures
        v == 120,
{
    120
}

pub fn validate_script_type(val: &str) -> (r: Result<(), ApiError>)
    ensures
        err_of(r) == opt_bad_request(script_type_error(val@)),
{
    let v = chars_of(val);
    if chars_eq_str(&v, "pre") || chars_eq_str(&v, "post") {
        Ok(())
    } else {
        Err(bad_request("script_type must be 'pre' or 'post'"))
    }
}

/// The scope of a stage script.
pub fn validate_script_scope(val: &str) -> (r: Result<(), ApiError>)
    ensures
        err_of(r) == opt_bad_request(script_scope_error(val@)),
{
    let v = chars_of(val);
    if chars_eq_str(&v, "worker") || chars_eq_str(&v, "master") {
        Ok(())
    } else {
        Err(bad_request("script_scope must be 'worker' or 'master'"))
    }
}

fn validate_script_body(s: &str) -> (r: Result<(), ApiError>)
    ensures
        err_of(r) == opt_bad_request(script_body_error(s@)),
{
    let v = chars_of(s);
    if v.len() == 0 {
        return Err(bad_request("script cannot be empty"));
    }
    if utf8_longer_than(s, 65536) {
        return Err(bad_request("script must be under 64KB"));
    }
    Ok(())
}

impl CreateScriptRequest {
    pub fn validate(&self) -> (r: Result<(), ApiError>)
        ensures
            err_of(r) == opt_bad_request(create_script_error(*self)),
    {
        match validate_script_type(self.script_type.as_str()) {
            Err(e) => return Err(e),
            Ok(()) => {},
        }
        match validate_script_scope(self.script_scope.as_str()) {
            Err(e) => return Err(e),
            Ok(()) => {},
        }
        validate_script_body(self.script.as_str())
    }
}

impl UpdateScriptRequest {
    pub fn validate(&self) -> (r: Result<(), ApiError>)
        ensures
            err_of(r) == opt_bad_request(update_script_error(*self)),
    {
        match &self.script_type {
            Some(t) => match validate_script_type(t.as_str()) {
                Err(e) => return Err(e),
                Ok(()) => {},
            },
            None => {},
        }
        match &self.script_scope {
            Some(s) => match validate_script_scope(s.as_str()) {
                Err(e) => return Err(e),
                Ok(()) => {},
            },
            None => {},
        }
        match &self.script {
            Some(s) => validate_script_body(s.as_str()),
            None => Ok(()),
        }
    }
}

} // verus!
