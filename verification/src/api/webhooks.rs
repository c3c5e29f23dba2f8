//! Incoming webhook deliveries: who may deliver, and which pushes start a build.
//!
//! The JSON body is read by the caller; what the decisions need of it
//! enters here as plain fields.
use crate::api::error::{bad_request, err_of, ApiError, ApiErrorV};
use crate::crypto::{github_signature_valid, verify_github_signature};
use crate::text::{chars_eq, chars_eq_str, chars_of, starts_with, starts_with_chars, string_of};
use vstd::prelude::*;

verus! {

/// Branch and commit of a push event.
pub struct PushPayload {
    pub branch: String,
    pub commit_sha: String,
}

pub open spec fn zero_commit() -> Seq<char> {
    "0000000000000000000000000000000000000000"@
}

/// The push that a delivery's `ref` and `after` fields describe: a branch
/// ref (`refs/heads/<branch>`) and a commit other than all zeros (which marks
/// a deleted branch).
pub open spec fn push_spec(git_ref: Option<Seq<char>>, after: Option<Seq<char>>) -> Option<(Seq<char>, Seq<char>)> {
    match (git_ref, after) {
        (Some(r), Some(a)) => if starts_with(r, "refs/heads/"@) && a != zero_commit() {
            Some((r.skip(11), a))
        } else {
            None
        },
        _ => None,
    }
}

pub open spec fn opt_str(s: Option<&str>) -> Option<Seq<char>> {
    match s {
        Some(x) => Some(x@),
        None => None,
    }
}

fn push_from(git_ref: Option<&str>, after: Option<&str>) -> (p: Option<PushPayload>)
    ensures
        match push_spec(opt_str(git_ref), opt_str(after)) {
            Some((b, c)) => p matches Some(x) && x.branch@ == b && x.commit_sha@ == c,
            None => p is None,
        },
{
    let r = match git_ref {
        Some(r) => r,
        None => return None,
    };
    let a = match after {
        Some(a) => a,
        None => return None,
    };
    let rv = chars_of(r);
    let prefix = chars_of("refs/heads/");
    if !starts_with_chars(&rv, &prefix) {
        return None;
    }
    let av = chars_of(a);
    if chars_eq_str(&av, "0000000000000000000000000000000000000000") {
        return None;
    }
    proof {
        reveal_strlit("refs/heads/");
    }
    Some(PushPayload { branch: string_of(&rv, 11, rv.len()), commit_sha: String::from_str(a) })
}

/// A GitHub push delivery, from its `ref` and `after` fields.
pub fn parse_github_push(git_ref: Option<&str>, after: Option<&str>) -> (p: Option<PushPayload>)
    ensures
        match push_spec(opt_str(git_ref), opt_str(after)) {
            Some((b, c)) => p matches Some(x) && x.branch@ == b && x.commit_sha@ == c,
            None => p is None,
        },
{
    push_from(git_ref, after)
}

/// A GitLab push delivery, from its `ref` and `after` fields.
pub fn parse_gitlab_push(git_ref: Option<&str>, after: Option<&str>) -> (p: Option<PushPayload>)
    ensures
        match push_spec(opt_str(git_ref), opt_str(after)) {
            Some((b, c)) => p matches Some(x) && x.branch@ == b && x.commit_sha@ == c,
            None => p is None,
        },
{
    push_from(git_ref, after)
}

/// Whether a delivery may proceed: the provider in the URL is the webhook's;
/// a GitHub delivery's signature header, when present, is the body's
/// HMAC under the webhook secret; a GitLab delivery's token header, when
/// present, is the secret itself.
pub open spec fn delivery_check(
    provider: Seq<char>,
    stored_provider: Seq<char>,
    secret: Seq<char>,
    signature: Seq<char>,
    token: Seq<char>,
    body: Seq<u8>,
) -> Option<ApiErrorV> {
    if stored_provider != provider {
        Some(ApiErrorV::BadRequest("Provider mismatch"@))
    } else if provider == "github"@ {
        if signature.len() > 0 && !github_signature_valid(secret, body, signature) {
            Some(ApiErrorV::Unauthorized("Invalid signature"@))
        } else {
            None
        }
    } else if provider == "gitlab"@ {
        if token.len() > 0 && token != secret {
            Some(ApiErrorV::Unauthorized("Invalid token"@))
        } else {
            None
        }
    } else {
        Some(ApiErrorV::BadRequest("Unsupported provider"@))
    }
}

/// Checks a delivery; `signature` and `token` are the header values, empty
/// when absent.
pub fn check_delivery(
    provider: &str,
    stored_provider: &str,
    secret: &str,
    signature: &str,
    token: &str,
    body: &[u8],
) -> (r: Result<(), ApiError>)
    ensures
        err_of(r) == delivery_check(provider@, stored_provider@, secret@, signature@, token@, body@),
{
    let p = chars_of(provider);
    let sp = chars_of(stored_provider);
    if !chars_eq(&p, &sp) {
        return Err(bad_request("Provider mismatch"));
    }
    if chars_eq_str(&p, "github") {
        let sig = chars_of(signature);
        if sig.len() > 0 && !verify_github_signature(secret, body, signature) {
            return Err(ApiError::Unauthorized(String::from_str("Invalid signature")));
        }
        Ok(())
    } else if chars_eq_str(&p, "gitlab") {
        let t = chars_of(token);
        let s = chars_of(secret);
        if t.len() > 0 && !chars_eq(&t, &s) {
            return Err(ApiError::Unauthorized(String::from_str("Invalid token")));
        }
        Ok(())
    } else {
        Err(bad_request("Unsupported provider"))
    }
}

/// Whether the webhook is configured for `event`.
pub fn event_configured(events: &Vec<String>, event: &str) -> (b: bool)
    ensures
        b == exists|i: int| 0 <= i < events.len() && (#[trigger] events@[i])@ == event@,
{
    let e = chars_of(event);
    let mut i: usize = 0;
    while i < events.len()
        invariant
            i <= events.len(),
            e@ == event@,
            forall|j: int| 0 <= j < i ==> (#[trigger] events@[j])@ != event@,
        decreases events.len() - i,
    {
        let x = chars_of(events[i].as_str());
        if chars_eq(&x, &e) {
            return true;
        }
        i += 1;
    }
    false
}

} // verus!
