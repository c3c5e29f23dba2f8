//! Authentication: how a request presents its credentials, the checks made
//! on runner tokens and API keys, token claims and the auth settings.
use crate::text::{chars_of, push_str, starts_with, starts_with_chars, string_of};
use crate::time::UtcTime;
use crate::job_group_registry::earlier;
use vstd::prelude::*;

verus! {

/// The claims of a session token.
pub struct Claims {
    /// The user's id (a UUID in text form).
    pub sub: String,
    pub username: String,
    pub role: String,
    /// Unique token id, for revocation.
    pub jti: String,
    /// Expiry, in seconds since the Unix epoch.
    pub exp: usize,
    /// Issue time, in seconds since the Unix epoch.
    pub iat: usize,
}

/// Settings of the auth layer.
pub struct AuthConfig {
    pub enabled: bool,
    pub jwt_secret: String,
}

impl Claims {
    /// The claims of a token issued at `now` that expires `expiry_secs` later.
    pub fn issue(
        sub: String,
        username: String,
        role: String,
        jti: String,
        now: usize,
        expiry_secs: usize,
    ) -> (c: Self)
        requires
            now + expiry_secs <= usize::MAX,
        ensures
            c.sub == sub,
            c.username == username,
            c.role == role,
            c.jti == jti,
            c.iat == now,
            c.exp == now + expiry_secs,
    {
        Claims { sub, username, role, jti, exp: now + expiry_secs, iat: now }
    }
}

impl AuthConfig {
    /// The auth layer's settings taken from the controller's configuration.
    pub fn from_controller_config(enabled: bool, jwt_secret: &str) -> (c: Self)
        ensures
            c.enabled == enabled,
            c.jwt_secret@ == jwt_secret@,
    {
        AuthConfig { enabled, jwt_secret: String::from_str(jwt_secret) }
    }
}


// ── Credentials of a request ────────────────────────────────────────────────
/// How a request presents its credentials.
pub enum Credential {
    /// Auth is off: the request acts as the anonymous super-admin.
    Anonymous,
    /// A runner token (`chola_svc_…`), looked up by its SHA-256.
    RunnerToken(String),
    /// An API key (`chola_…`), looked up by its SHA-256.
    ApiKey(String),
    /// A session token (JWT) to decode.
    Session(String),
    /// No credentials at all.
    Missing,
    /// An `Authorization` header that is not `Bearer …`.
    BadFormat,
}

pub enum CredentialV {
    Anonymous,
    RunnerToken(Seq<char>),
    ApiKey(Seq<char>),
    Session(Seq<char>),
    Missing,
    BadFormat,
}

impl View for Credential {
    type V = CredentialV;

    open spec fn view(&self) -> CredentialV {
        match self {
            Credential::Anonymous => CredentialV::Anonymous,
            Credential::RunnerToken(t) => CredentialV::RunnerToken(t@),
            Credential::ApiKey(k) => CredentialV::ApiKey(k@),
            Credential::Session(t) => CredentialV::Session(t@),
            Credential::Missing => CredentialV::Missing,
            Credential::BadFormat => CredentialV::BadFormat,
        }
    }
}

/// `c` occurs in `s`, first at `i`.
pub open spec fn first_char_at(s: Seq<char>, c: char, i: int) -> bool {
    0 <= i < s.len() && s[i] == c && forall|j: int| 0 <= j < i ==> s[j] != c
}

/// The value of the first `token=` pair of a query string (pairs split at `&`).
pub open spec fn query_token_spec(q: Seq<char>) -> Option<Seq<char>>
    decreases q.len(),
{
    if exists|i: int| first_char_at(q, '&', i) {
        let i = choose|i: int| first_char_at(q, '&', i);
        let piece = q.take(i);
        if starts_with(piece, "token="@) {
            Some(piece.skip(6))
        } else {
            query_token_spec(q.skip(i + 1))
        }
    } else if starts_with(q, "token="@) {
        Some(q.skip(6))
    } else {
        None
    }
}

/// What a request's credentials are, from the auth switch, the `X-API-Key`
/// and `Authorization` headers (when readable as text) and the query string.
pub open spec fn credential_of(
    enabled: bool,
    api_key: Option<Seq<char>>,
    authorization: Option<Seq<char>>,
    query: Option<Seq<char>>,
) -> CredentialV {
    if !enabled {
        CredentialV::Anonymous
    } else if api_key is Some {
        let k = api_key->0;
        if starts_with(k, "chola_svc_"@) {
            CredentialV::RunnerToken(k)
        } else {
            CredentialV::ApiKey(k)
        }
    } else {
        let header = match authorization {
            Some(h) => Some(h),
            None => match query {
                Some(q) => match query_token_spec(q) {
                    Some(t) => Some("Bearer "@ + t),
                    None => None,
                },
                None => None,
            },
        };
        match header {
            None => CredentialV::Missing,
            Some(h) => if starts_with(h, "Bearer chola_svc_"@) {
                CredentialV::RunnerToken(h.skip(7))
            } else if starts_with(h, "Bearer chola_"@) {
                CredentialV::ApiKey(h.skip(7))
            } else if starts_with(h, "Bearer "@) {
                CredentialV::Session(h.skip(7))
            } else {
                CredentialV::BadFormat
            },
        }
    }
}

fn find_char(v: &Vec<char>, lo: usize, c: char) -> (r: Option<usize>)
    requires
        lo <= v.len(),
    ensures
        match r {
            Some(i) => lo <= i < v.len() && first_char_at(v@.skip(lo as int), c, i - lo),
            None => forall|j: int| lo <= j < v.len() ==> v@[j] != c,
        },
{
    let mut i = lo;
    while i < v.len()
        invariant
            lo <= i <= v.len(),
            forall|j: int| lo <= j < i ==> v@[j] != c,
        decreases v.len() - i,
    {
        if v[i] == c {
            return Some(i);
        }
        i += 1;
    }
    None
}

/// The `token` query parameter: the first `&`-separated pair that starts
/// with `token=`, without that prefix.
pub fn query_token(query: &str) -> (r: Option<String>)
    ensures
        match query_token_spec(query@) {
            Some(t) => r matches Some(s) && s@ == t,
            None => r is None,
        },
{
    let q = chars_of(query);
    let prefix = chars_of("token=");
    proof {
        reveal_strlit("token=");
    }
    let mut lo: usize = 0;
    assert(q@.skip(0) =~= q@);
    while lo <= q.len()
        invariant
            lo <= q.len(),
            prefix@ == "token="@,
            prefix@.len() == 6,
            forall|j: int| 0 <= j < 6 ==> prefix@[j] == "token="@[j],
            query_token_spec(query@) == query_token_spec(q@.skip(lo as int)),
            q@ == query@,
        decreases q.len() + 1 - lo,
    {
        let ghost rest = q@.skip(lo as int);
        match find_char(&q, lo, '&') {
            Some(i) => {
                let piece = vec_slice(&q, lo, i);
                proof {
                    assert(first_char_at(rest, '&', i - lo));
                    assert forall|j: int| #[trigger] first_char_at(rest, '&', j) implies j == i - lo by {
                        if j < i - lo {
                            assert(rest[j] != '&');
                        } else if j > i - lo {
                            assert(rest[i - lo] != '&');
                        }
                    }
                    assert(piece@ =~= rest.take(i - lo));
                    assert(rest.skip(i - lo + 1) =~= q@.skip(i + 1));
                }
                if starts_with_chars(&piece, &prefix) {
                    assert(piece@.skip(6) =~= q@.subrange(lo + 6, i as int));
                    return Some(string_of(&q, lo + 6, i));
                }
                lo = i + 1;
            },
            None => {
                let piece = vec_slice(&q, lo, q.len());
                proof {
                    assert forall|j: int| !#[trigger] first_char_at(rest, '&', j) by {
                        if 0 <= j < rest.len() {
                            assert(rest[j] == q@[lo + j]);
                        }
                    }
                    assert(piece@ =~= rest);
                }
                if starts_with_chars(&piece, &prefix) {
                    assert(rest.skip(6) =~= q@.subrange(lo + 6, q.len() as int));
                    return Some(string_of(&q, lo + 6, q.len()));
                }
                return None;
            },
        }
    }
    None
}

fn vec_slice(v: &Vec<char>, lo: usize, hi: usize) -> (r: Vec<char>)
    requires
        lo <= hi <= v.len(),
    ensures
        r@ == v@.subrange(lo as int, hi as int),
{
    let mut r: Vec<char> = Vec::new();
    let mut i = lo;
    while i < hi
        invariant
            lo <= i <= hi,
            hi <= v.len(),
            r@ == v@.subrange(lo as int, i as int),
        decreases hi - i,
    {
        r.push(v[i]);
        i += 1;
        assert(r@ =~= v@.subrange(lo as int, i as int));
    }
    r
}

/// How a request presents its credentials: with auth off, none are needed;
/// an `X-API-Key` header is a runner token (`chola_svc_` prefix) or an API
/// key; otherwise the `Authorization` header, or failing that the `token`
/// query parameter as a bearer token, names a runner token, an API key
/// (`chola_` prefix) or a session token.
pub fn classify_credentials(
    enabled: bool,
    api_key: Option<&str>,
    authorization: Option<&str>,
    query: Option<&str>,
) -> (c: Credential)
    ensures
        c@ == credential_of(
            enabled,
            match api_key {
                Some(k) => Some(k@),
                None => None,
            },
            match authorization {
                Some(h) => Some(h@),
                None => None,
            },
            match query {
                Some(q) => Some(q@),
                None => None,
            },
        ),
{
    if !enabled {
        return Credential::Anonymous;
    }
    proof {
        reveal_strlit("chola_svc_");
        reveal_strlit("Bearer chola_svc_");
        reveal_strlit("Bearer chola_");
        reveal_strlit("Bearer ");
    }
    match api_key {
        Some(k) => {
            let kc = chars_of(k);
            let svc = chars_of("chola_svc_");
            if starts_with_chars(&kc, &svc) {
                return Credential::RunnerToken(String::from_str(k));
            }
            return Credential::ApiKey(String::from_str(k));
        },
        None => {},
    }
    let header: Option<String> = match authorization {
        Some(h) => Some(String::from_str(h)),
        None => match query {
            Some(q) => match query_token(q) {
                Some(t) => {
                    let mut s = String::new();
                    push_str(&mut s, "Bearer ");
                    push_str(&mut s, t.as_str());
                    Some(s)
                },
                None => None,
            },
            None => None,
        },
    };
    match header {
        None => Credential::Missing,
        Some(h) => {
            let hc = chars_of(h.as_str());
            if starts_with_chars(&hc, &chars_of("Bearer chola_svc_")) {
                Credential::RunnerToken(string_of(&hc, 7, hc.len()))
            } else if starts_with_chars(&hc, &chars_of("Bearer chola_")) {
                Credential::ApiKey(string_of(&hc, 7, hc.len()))
            } else if starts_with_chars(&hc, &chars_of("Bearer ")) {
                Credential::Session(string_of(&hc, 7, hc.len()))
            } else {
                Credential::BadFormat
            }
        },
    }
}

// ── Checks on stored credentials ────────────────────────────────────────────
/// Why stored credentials are refused.
pub enum AuthRefusal {
    RunnerTokenInactive,
    InvalidRunnerToken,
    RunnerTokenExpired,
    AccountDisabled,
}

impl AuthRefusal {
    /// The message a refused request is answered with.
    pub fn message(&self) -> (s: &'static str)
        ensures
            s@ == match self {
                AuthRefusal::RunnerTokenInactive => "Runner token is inactive"@,
                AuthRefusal::InvalidRunnerToken => "Invalid runner token"@,
                AuthRefusal::RunnerTokenExpired => "Runner token has expired"@,
                AuthRefusal::AccountDisabled => "Account is disabled"@,
            },
    {
        match self {
            AuthRefusal::RunnerTokenInactive => "Runner token is inactive",
            AuthRefusal::InvalidRunnerToken => "Invalid runner token",
            AuthRefusal::RunnerTokenExpired => "Runner token has expired",
            AuthRefusal::AccountDisabled => "Account is disabled",
        }
    }
}

/// The user name a stored runner token acts as at `now`, `runner:{name}`;
/// refused when it is inactive, not of the `runner` scope, or expired.
pub fn runner_token_user(
    active: bool,
    scope: &str,
    expires_at: Option<UtcTime>,
    name: &str,
    now: UtcTime,
) -> (r: Result<String, AuthRefusal>)
    ensures
        match r {
            Ok(u) => active && scope@ == "runner"@ && !(expires_at matches Some(e) && earlier(e, now)) && u@
                == "runner:"@ + name@,
            Err(AuthRefusal::RunnerTokenInactive) => !active,
            Err(AuthRefusal::InvalidRunnerToken) => active && scope@ != "runner"@,
            Err(AuthRefusal::RunnerTokenExpired) => active && scope@ == "runner"@ && (expires_at matches Some(
                e,
            ) && earlier(e, now)),
            Err(AuthRefusal::AccountDisabled) => false,
        },
{
    if !active {
        return Err(AuthRefusal::RunnerTokenInactive);
    }
    let sc = chars_of(scope);
    if !crate::text::chars_eq_str(&sc, "runner") {
        return Err(AuthRefusal::InvalidRunnerToken);
    }
    match expires_at {
        Some(e) => {
            if e.secs < now.secs || (e.secs == now.secs && e.nanos < now.nanos) {
                return Err(AuthRefusal::RunnerTokenExpired);
            }
        },
        None => {},
    }
    let mut u = String::new();
    push_str(&mut u, "runner:");
    push_str(&mut u, name);
    Ok(u)
}

} // verus!
