//! Notification rules: when they fire and through which channel.
use crate::api::error::{bad_request, err_of, ApiError};
use crate::api::settings::opt_bad_request;
use crate::text::{chars_eq_str, chars_of};
use vstd::prelude::*;

verus! {

pub open spec fn trigger_error(t: Seq<char>) -> Option<Seq<char>> {
    if t == "on_success"@ || t == "on_failure"@ || t == "on_complete"@ {
        None
    } else {
        Some("trigger must be on_success, on_failure, or on_complete"@)
    }
}

pub open spec fn channel_type_error(c: Seq<char>) -> Option<Seq<char>> {
    if c == "slack"@ || c == "webhook"@ {
        None
    } else {
        Some("channel_type must be slack or webhook"@)
    }
}

/// New rules are enabled unless the request says otherwise.
pub fn default_true() -> (b: bool)
    ensures
        b,
{
    true
}

pub fn validate_trigger(trigger: &str) -> (r: Result<(), ApiError>)
    ensures
        err_of(r) == opt_bad_request(trigger_error(trigger@)),
{
    let t = chars_of(trigger);
    if chars_eq_str(&t, "on_success") || chars_eq_str(&t, "on_failure") || chars_eq_str(
        &t,
        "on_complete",
    ) {
        Ok(())
    } else {
        Err(bad_request("trigger must be on_success, on_failure, or on_complete"))
    }
}

pub fn validate_channel_type(channel_type: &str) -> (r: Result<(), ApiError>)
    ensures
        err_of(r) == opt_bad_request(channel_type_error(channel_type@)),
{
    let c = chars_of(channel_type);
    if chars_eq_str(&c, "slack") || chars_eq_str(&c, "webhook") {
        Ok(())
    } else {
        Err(bad_request("channel_type must be slack or webhook"))
    }
}

} // verus!
