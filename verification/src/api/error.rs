//! Errors returned by the HTTP API, each with the status it stands for.
use crate::query::error::{ChqlError, ChqlErrorV};
use crate::text::{dec, push_str, push_u64};
use vstd::prelude::*;

verus! {

#[derive(Debug)]
pub enum ApiError {
    BadRequest(String),
    Unauthorized(String),
    Forbidden(String),
    NotFound(String),
    Conflict(String),
    Internal(String),
    StorageUnavailable,
}

/// The view of an [`ApiError`]: the same variant with its message as text.
pub enum ApiErrorV {
    BadRequest(Seq<char>),
    Unauthorized(Seq<char>),
    Forbidden(Seq<char>),
    NotFound(Seq<char>),
    Conflict(Seq<char>),
    Internal(Seq<char>),
    StorageUnavailable,
}

impl View for ApiError {
    type V = ApiErrorV;

    open spec fn view(&self) -> ApiErrorV {
        match self {
            ApiError::BadRequest(m) => ApiErrorV::BadRequest(m@),
            ApiError::Unauthorized(m) => ApiErrorV::Unauthorized(m@),
            ApiError::Forbidden(m) => ApiErrorV::Forbidden(m@),
            ApiError::NotFound(m) => ApiErrorV::NotFound(m@),
            ApiError::Conflict(m) => ApiErrorV::Conflict(m@),
            ApiError::Internal(m) => ApiErrorV::Internal(m@),
            ApiError::StorageUnavailable => ApiErrorV::StorageUnavailable,
        }
    }
}

/// The error of a result, by its view; `None` for success.
pub open spec fn err_of<T>(r: Result<T, ApiError>) -> Option<ApiErrorV> {
    match r {
        Ok(_) => None,
        Err(e) => Some(e@),
    }
}

/// The message of the bad request that a query error becomes: the message,
/// then ` (position N)` where there is a position, then `: hint` where there
/// is a hint.
pub open spec fn chql_message(e: ChqlErrorV) -> Seq<char> {
    let m = match e.position {
        Some(p) => e.message + " (position "@ + dec(p as int) + ")"@,
        None => e.message,
    };
    match e.hint {
        Some(h) => m + ": "@ + h,
        None => m,
    }
}

/// A bad request with the message `msg`.
pub fn bad_request(msg: &str) -> (e: ApiError)
    ensures
        e@ == ApiErrorV::BadRequest(msg@),
{
    ApiError::BadRequest(String::from_str(msg))
}

/// A bad request whose message is `a` followed by `b`.
pub fn bad_request2(a: &str, b: &str) -> (e: ApiError)
    ensures
        e@ == ApiErrorV::BadRequest(a@ + b@),
{
    let mut m = String::new();
    push_str(&mut m, a);
    push_str(&mut m, b);
    assert(m@ =~= a@ + b@);
    ApiError::BadRequest(m)
}

impl ApiError {
    /// The bad request that a ChQL parse error is reported as.
    pub fn from_chql(err: ChqlError) -> (e: ApiError)
        ensures
            e@ == ApiErrorV::BadRequest(chql_message(err@)),
    {
        let mut msg = String::new();
        push_str(&mut msg, err.message.as_str());
        match err.position {
            Some(p) => {
                push_str(&mut msg, " (position ");
                push_u64(&mut msg, p as u64);
                push_str(&mut msg, ")");
            },
            None => {},
        }
        match &err.hint {
            Some(h) => {
                push_str(&mut msg, ": ");
                push_str(&mut msg, h.as_str());
            },
            None => {},
        }
        proof {
            let ev = err@;
            let m0 = match ev.position {
                Some(p) => ev.message + " (position "@ + dec(p as int) + ")"@,
                None => ev.message,
            };
            match ev.position {
                Some(p) => {
                    assert(dec(p as int) == crate::text::dec_digits(p as nat));
                },
                None => {},
            }
            match ev.hint {
                Some(h) => {
                    assert(msg@ =~= m0 + ": "@ + h);
                },
                None => {
                    assert(msg@ =~= m0);
                },
            }
        }
        ApiError::BadRequest(msg)
    }
}

} // verus!
