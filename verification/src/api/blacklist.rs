//! Command and branch blacklists: the checks made on an entry's pattern (a
//! regular expression) and owner before it is stored.
use crate::api::error::{bad_request, err_of, ApiError, ApiErrorV};
use crate::text::{chars_of, push_str};
use vstd::prelude::*;

verus! {

/// The text of the error `regex::Regex::new(pattern)` reports, if the
/// pattern does not compile.
pub uninterp spec fn regex_error_text(pattern: Seq<char>) -> Option<Seq<char>>;

/// `regex::Regex::new(pattern)`, keeping only the error's text. Trusted:
/// whether the pattern compiles, and the message, are named, not computed
/// here.
#[verifier::external_body]
fn regex_error(pattern: &str) -> (r: Option<String>)
    ensures
        match regex_error_text(pattern@) {
            Some(m) => r matches Some(s) && s@ == m,
            None => r is None,
        },
{
    match regex::Regex::new(pattern) {
        Ok(_) => None,
        Err(e) => Some(e.to_string()),
    }
}

/// Why a pattern is refused: empty, or not a regular expression.
pub open spec fn pattern_error(p: Seq<char>) -> Option<ApiErrorV> {
    if p.len() == 0 {
        Some(ApiErrorV::BadRequest("pattern cannot be empty"@))
    } else {
        regex_refusal(p)
    }
}

/// The refusal of a pattern that does not compile.
pub open spec fn regex_refusal(p: Seq<char>) -> Option<ApiErrorV> {
    match regex_error_text(p) {
        Some(m) => Some(ApiErrorV::BadRequest("Invalid regex: "@ + m)),
        None => None,
    }
}

pub open spec fn opt_str(s: Option<&str>) -> Option<Seq<char>> {
    match s {
        Some(x) => Some(x@),
        None => None,
    }
}

/// Checks that a pattern compiles as a regular expression.
pub fn check_regex(pattern: &str) -> (r: Result<(), ApiError>)
    ensures
        err_of(r) == regex_refusal(pattern@),
{
    match regex_error(pattern) {
        None => Ok(()),
        Some(e) => {
            let mut m = String::new();
            push_str(&mut m, "Invalid regex: ");
            push_str(&mut m, e.as_str());
            Err(ApiError::BadRequest(m))
        },
    }
}

/// Checks a new pattern: present, not empty, and a regular expression.
pub fn check_pattern(pattern: Option<&str>) -> (r: Result<(), ApiError>)
    ensures
        err_of(r) == match opt_str(pattern) {
            None => Some(ApiErrorV::BadRequest("pattern is required"@)),
            Some(p) => pattern_error(p),
        },
{
    match pattern {
        None => Err(bad_request("pattern is required")),
        Some(p) => {
            if chars_of(p).len() == 0 {
                return Err(bad_request("pattern cannot be empty"));
            }
            check_regex(p)
        },
    }
}

/// Checks a new command blacklist entry.
pub fn validate_command_blacklist(pattern: Option<&str>) -> (r: Result<(), ApiError>)
    ensures
        err_of(r) == match opt_str(pattern) {
            None => Some(ApiErrorV::BadRequest("pattern is required"@)),
            Some(p) => pattern_error(p),
        },
{
    check_pattern(pattern)
}

/// Checks a new branch blacklist entry: the worker it applies to, then its
/// pattern.
pub fn validate_branch_blacklist(worker_id: Option<&str>, pattern: Option<&str>) -> (r: Result<
    (),
    ApiError,
>)
    ensures
        err_of(r) == match opt_str(worker_id) {
            None => Some(ApiErrorV::BadRequest("worker_id is required"@)),
            Some(w) => if w.len() == 0 {
                Some(ApiErrorV::BadRequest("worker_id cannot be empty"@))
            } else {
                match opt_str(pattern) {
                    None => Some(ApiErrorV::BadRequest("pattern is required"@)),
                    Some(p) => pattern_error(p),
                }
            },
        },
{
    match worker_id {
        None => Err(bad_request("worker_id is required")),
        Some(w) => {
            if chars_of(w).len() == 0 {
                return Err(bad_request("worker_id cannot be empty"));
            }
            check_pattern(pattern)
        },
    }
}

/// Checks an update of an entry: a new pattern, if given, must compile.
pub fn validate_pattern_update(pattern: Option<&str>) -> (r: Result<(), ApiError>)
    ensures
        err_of(r) == match opt_str(pattern) {
            None => None,
            Some(p) => regex_refusal(p),
        },
{
    match pattern {
        None => Ok(()),
        Some(p) => check_regex(p),
    }
}

} // verus!
