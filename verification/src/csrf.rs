//! Cross-site request checks.
//!
//! A mutating request (POST, PUT, DELETE) outside the webhook routes is let
//! through when it has no `Origin`, when the origin's host is the host the
//! request arrived on (`X-Forwarded-Host` from a proxy, else `Host`), or when
//! the origin is in the configured allow-list.
//!
//! Header values enter as `Option<Option<&str>>`: absent, present but not
//! visible ASCII, or present with their text.
use crate::text::{
    chars_eq, chars_eq_str, chars_of, contains_at, lower, lower_chars, occurs_at, starts_with,
    starts_with_chars, trim, trim_bounds,
};
use vstd::prelude::*;

verus! {

pub open spec fn names_view(v: Seq<String>) -> Seq<Seq<char>> {
    v.map_values(|s: String| s@)
}

/// `t` occurs in `s` at `i` and nowhere before.
pub open spec fn first_at(s: Seq<char>, t: Seq<char>, i: int) -> bool {
    contains_at(s, t, i) && forall|j: int| 0 <= j < i ==> !#[trigger] contains_at(s, t, j)
}

/// The host part of an origin: what follows the first `://`, else all of it.
pub open spec fn origin_host(origin: Seq<char>) -> Seq<char> {
    if exists|i: int| #[trigger] first_at(origin, "://"@, i) {
        let i = choose|i: int| #[trigger] first_at(origin, "://"@, i);
        origin.skip(i + 3)
    } else {
        origin
    }
}

/// The text before the first `,`, else all of it.
pub open spec fn before_comma(h: Seq<char>) -> Seq<char> {
    if exists|i: int| 0 <= i < h.len() && h[i] == ',' && forall|j: int| 0 <= j < i ==> h[j] != ',' {
        let i = choose|i: int| 0 <= i < h.len() && h[i] == ',' && forall|j: int| 0 <= j < i ==> h[j] != ',';
        h.take(i)
    } else {
        h
    }
}

/// The header a request's host is read from: `X-Forwarded-Host` when
/// present, else `Host`; its text when it is visible ASCII.
pub open spec fn host_header(forwarded_host: Option<Option<Seq<char>>>, host: Option<Option<Seq<char>>>) -> Option<
    Seq<char>,
> {
    match forwarded_host {
        Some(v) => v,
        None => match host {
            Some(v) => v,
            None => None,
        },
    }
}

/// The host the request arrived on: the first entry of the header, trimmed;
/// empty when there is none.
pub open spec fn request_host(forwarded_host: Option<Option<Seq<char>>>, host: Option<Option<Seq<char>>>) -> Seq<
    char,
> {
    match host_header(forwarded_host, host) {
        Some(h) => trim(before_comma(h)),
        None => Seq::empty(),
    }
}

pub open spec fn origin_allowed_spec(
    origin: Seq<char>,
    forwarded_host: Option<Option<Seq<char>>>,
    host: Option<Option<Seq<char>>>,
    allowed: Seq<Seq<char>>,
) -> bool {
    ||| allowed.contains(origin)
    ||| {
        let rh = request_host(forwarded_host, host);
        rh.len() > 0 && lower(origin_host(origin)) == lower(rh)
    }
}

pub open spec fn opt_view(h: Option<Option<&str>>) -> Option<Option<Seq<char>>> {
    match h {
        Some(Some(s)) => Some(Some(s@)),
        Some(None) => Some(None),
        None => None,
    }
}

/// Index just past the first `://` in `v`, if any.
fn scheme_end(v: &Vec<char>) -> (r: Option<usize>)
    ensures
        match r {
            Some(e) => e >= 3 && first_at(v@, "://"@, e - 3) && e <= v.len(),
            None => !exists|i: int| #[trigger] first_at(v@, "://"@, i),
        },
{
    let sep = chars_of("://");
    let mut i: usize = 0;
    while i < v.len()
        invariant
            i <= v.len(),
            sep@ == "://"@,
            forall|j: int| 0 <= j < i ==> !#[trigger] contains_at(v@, "://"@, j),
        decreases v.len() - i,
    {
        if occurs_at(v, &sep, i) {
            proof {
                reveal_strlit("://");
            }
            return Some(i + 3);
        }
        i += 1;
    }
    proof {
        assert forall|k: int| !#[trigger] first_at(v@, "://"@, k) by {
            if first_at(v@, "://"@, k) {
                assert(contains_at(v@, "://"@, k));
                reveal_strlit("://");
                assert(k < v.len());
            }
        }
    }
    None
}

/// Index of the first `,` in `v`, else its length.
fn comma_end(v: &Vec<char>) -> (r: usize)
    ensures
        r <= v.len(),
        v@.take(r as int) == before_comma(v@),
{
    let mut i: usize = 0;
    while i < v.len()
        invariant
            i <= v.len(),
            forall|j: int| 0 <= j < i ==> v@[j] != ',',
        decreases v.len() - i,
    {
        if v[i] == ',' {
            proof {
                let h = v@;
                assert(0 <= i < h.len() && h[i as int] == ',' && forall|j: int| 0 <= j < i ==> h[j] != ',');
                let c = choose|c: int| 0 <= c < h.len() && h[c] == ',' && forall|j: int| 0 <= j < c ==> h[j] != ',';
                assert(c == i as int) by {
                    if c < i {
                        assert(h[c] != ',');
                    } else if c > i {
                        assert(h[i as int] != ',');
                    }
                }
            }
            return i;
        }
        i += 1;
    }
    assert(v@.take(v.len() as int) =~= v@);
    v.len()
}

/// True if `origin` is same-origin with the request (its host equals the
/// request's host, ignoring ASCII case) or is exactly in `allowed`.
pub fn origin_allowed(
    origin: &str,
    forwarded_host: Option<Option<&str>>,
    host: Option<Option<&str>>,
    allowed: &Vec<String>,
) -> (b: bool)
    ensures
        b == origin_allowed_spec(origin@, opt_view(forwarded_host), opt_view(host), names_view(allowed@)),
{
    let o = chars_of(origin);
    let mut k: usize = 0;
    while k < allowed.len()
        invariant
            k <= allowed.len(),
            o@ == origin@,
            forall|j: int| 0 <= j < k ==> allowed@[j]@ != origin@,
        decreases allowed.len() - k,
    {
        let a = chars_of(allowed[k].as_str());
        if chars_eq(&a, &o) {
            proof {
                assert(names_view(allowed@)[k as int] == origin@);
            }
            return true;
        }
        k += 1;
    }
    proof {
        assert(!names_view(allowed@).contains(origin@)) by {
            if names_view(allowed@).contains(origin@) {
                let j = choose|j: int| 0 <= j < names_view(allowed@).len() && names_view(allowed@)[j] == origin@;
                assert(allowed@[j]@ == origin@);
            }
        }
    }
    let header = match forwarded_host {
        Some(v) => v,
        None => match host {
            Some(v) => v,
            None => None,
        },
    };
    let h = match header {
        Some(h) => h,
        None => return false,
    };
    let hv = chars_of(h);
    let ce = comma_end(&hv);
    let first: Vec<char> = crate::text::chars_of(crate::text::string_of(&hv, 0, ce).as_str());
    assert(first@ =~= before_comma(h@));
    let (lo, hi) = trim_bounds(&first);
    if lo == hi {
        return false;
    }
    let rh: Vec<char> = chars_of(crate::text::string_of(&first, lo, hi).as_str());
    let oh_start = match scheme_end(&o) {
        Some(e) => e,
        None => 0,
    };
    let oh: Vec<char> = chars_of(crate::text::string_of(&o, oh_start, o.len()).as_str());
    proof {
        if oh_start > 0 {
            let i = choose|i: int| #[trigger] first_at(o@, "://"@, i);
            assert(i == oh_start - 3) by {
                if i < oh_start - 3 {
                    assert(!contains_at(o@, "://"@, i));
                } else if i > oh_start - 3 {
                    assert(!contains_at(o@, "://"@, oh_start - 3));
                }
            }
            assert(oh@ =~= origin_host(origin@));
        } else {
            assert(oh@ =~= origin_host(origin@));
        }
    }
    let lo_o = lower_chars(&oh);
    let lo_h = lower_chars(&rh);
    chars_eq(&lo_o, &lo_h)
}

/// Whether the cross-site check refuses a request with this method, path and
/// headers (`origin` as the `Origin` header, read like the host headers).
pub fn csrf_blocks(
    method: &str,
    path: &str,
    origin: Option<Option<&str>>,
    forwarded_host: Option<Option<&str>>,
    host: Option<Option<&str>>,
    allowed: &Vec<String>,
) -> (b: bool)
    ensures
        b == {
            let mutating = method@ == "POST"@ || method@ == "PUT"@ || method@ == "DELETE"@;
            let webhook = starts_with(path@, "/api/v1/webhooks"@);
            let o = match origin {
                Some(Some(s)) => s@,
                _ => Seq::empty(),
            };
            mutating && !webhook && o.len() > 0 && !origin_allowed_spec(
                o,
                opt_view(forwarded_host),
                opt_view(host),
                names_view(allowed@),
            )
        },
{
    let m = chars_of(method);
    let mutating = chars_eq_str(&m, "POST") || chars_eq_str(&m, "PUT") || chars_eq_str(&m, "DELETE");
    let p = chars_of(path);
    let prefix = chars_of("/api/v1/webhooks");
    let webhook = starts_with_chars(&p, &prefix);
    if !mutating || webhook {
        return false;
    }
    let o = match origin {
        Some(Some(s)) => s,
        _ => "",
    };
    let ov = chars_of(o);
    if ov.len() == 0 {
        proof {
            reveal_strlit("");
        }
        return false;
    }
    proof {
        reveal_strlit("");
    }
    !origin_allowed(o, forwarded_host, host, allowed)
}

} // verus!
