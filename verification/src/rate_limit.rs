//! Fixed-window rate limiting per client address.
//!
//! Each client gets at most `max_requests` requests per window; a window
//! starts with the first request after the previous one ran out. Times are
//! nanoseconds on a monotonic clock read by the caller; addresses are an
//! address family tag and the address bits.
use vstd::prelude::*;

verus! {

/// A client address: 4 or 6 for the family, and the address bits.
pub type ClientKey = (u8, u128);

/// A client's window: requests counted and when the window started.
pub struct Window {
    pub count: u32,
    pub start: u64,
}

pub struct RateLimiter {
    windows: Vec<(ClientKey, Window)>,
    max_requests: u32,
    window: u64,
}

pub open spec fn window_of(ws: Seq<(ClientKey, Window)>, ip: ClientKey) -> Option<(u32, u64)>
    decreases ws.len(),
{
    if ws.len() == 0 {
        None
    } else if ws[0].0 == ip {
        Some((ws[0].1.count, ws[0].1.start))
    } else {
        window_of(ws.drop_first(), ip)
    }
}

pub open spec fn keys_distinct(ws: Seq<(ClientKey, Window)>) -> bool {
    forall|i: int, j: int| 0 <= i < j < ws.len() ==> ws[i].0 != ws[j].0
}

/// Elapsed time from `start` to `now`; zero when `now` is earlier
/// (`Instant::duration_since` saturates).
pub open spec fn elapsed(start: u64, now: u64) -> int {
    if now >= start {
        now - start
    } else {
        0
    }
}

/// The decision on a request at `now` from a client whose window is `w`
/// (a new client starts an empty window at `now`), and the window after it.
pub open spec fn decide(w: Option<(u32, u64)>, now: u64, max_requests: u32, window: u64) -> (bool, (u32, u64)) {
    let (count, start) = match w {
        Some(x) => x,
        None => (0u32, now),
    };
    if elapsed(start, now) >= window {
        (true, (1u32, now))
    } else if count < max_requests {
        (true, ((count + 1) as u32, start))
    } else {
        (false, (count, start))
    }
}

proof fn lemma_window_at(ws: Seq<(ClientKey, Window)>, i: int)
    requires
        keys_distinct(ws),
        0 <= i < ws.len(),
    ensures
        window_of(ws, ws[i].0) == Some((ws[i].1.count, ws[i].1.start)),
    decreases i,
{
    if i > 0 {
        assert(ws[0].0 != ws[i].0);
        assert(ws.drop_first()[i - 1] == ws[i]);
        lemma_window_at(ws.drop_first(), i - 1);
    }
}

proof fn lemma_window_absent(ws: Seq<(ClientKey, Window)>, ip: ClientKey)
    requires
        forall|k: int| 0 <= k < ws.len() ==> ws[k].0 != ip,
    ensures
        window_of(ws, ip) is None,
    decreases ws.len(),
{
    if ws.len() > 0 {
        assert forall|k: int| 0 <= k < ws.drop_first().len() implies ws.drop_first()[k].0 != ip by {
            assert(ws.drop_first()[k] == ws[k + 1]);
        }
        lemma_window_absent(ws.drop_first(), ip);
    }
}

impl RateLimiter {
    pub closed spec fn wf(&self) -> bool {
        keys_distinct(self.windows@)
    }

    /// The window of a client, as (count, start).
    pub closed spec fn window_for(&self, ip: ClientKey) -> Option<(u32, u64)> {
        window_of(self.windows@, ip)
    }

    pub closed spec fn limit(&self) -> u32 {
        self.max_requests
    }

    pub closed spec fn window_len(&self) -> u64 {
        self.window
    }

    /// A limiter allowing `max_requests` per `window` nanoseconds.
    pub fn new(max_requests: u32, window: u64) -> (r: Self)
        ensures
            r.wf(),
            r.limit() == max_requests,
            r.window_len() == window,
            forall|ip: ClientKey| #[trigger] r.window_for(ip) is None,
    {
        RateLimiter { windows: Vec::new(), max_requests, window }
    }

    /// Whether a request from `ip` at `now` is within the limit; records it.
    pub fn check(&mut self, ip: ClientKey, now: u64) -> (ok: bool)
        requires
            old(self).wf(),
        ensures
            final(self).wf(),
            final(self).limit() == old(self).limit(),
            final(self).window_len() == old(self).window_len(),
            ({
                let d = decide(old(self).window_for(ip), now, old(self).limit(), old(self).window_len());
                ok == d.0 && final(self).window_for(ip) == Some(d.1)
            }),
            forall|other: ClientKey| other != ip ==> #[trigger] final(self).window_for(other) == old(self).window_for(other),
    {
        let ghost before = self.windows@;
        let mut i: usize = 0;
        while i < self.windows.len()
            invariant
                i <= self.windows.len(),
                self.windows@ == before,
                keys_distinct(before),
                forall|k: int| 0 <= k < i ==> before[k].0 != ip,
            ensures
                i <= self.windows.len(),
                self.windows@ == before,
                forall|k: int| 0 <= k < i ==> before[k].0 != ip,
                i < self.windows.len() ==> before[i as int].0 == ip,
            decreases self.windows.len() - i,
        {
            if self.windows[i].0.0 == ip.0 && self.windows[i].0.1 == ip.1 {
                break;
            }
            i += 1;
        }
        let found = i < self.windows.len();
        let (count, start) = if found {
            proof {
                lemma_window_at(before, i as int);
            }
            (self.windows[i].1.count, self.windows[i].1.start)
        } else {
            proof {
                lemma_window_absent(before, ip);
            }
            (0u32, now)
        };
        let since = if now >= start {
            now - start
        } else {
            0
        };
        let (ok, w) = if since >= self.window {
            (true, Window { count: 1, start: now })
        } else if count < self.max_requests {
            (true, Window { count: count + 1, start })
        } else {
            (false, Window { count, start })
        };
        if found {
            self.windows.remove(i);
            self.windows.insert(i, (ip, w));
            proof {
                let after = self.windows@;
                assert(after =~= before.update(i as int, (ip, w)));
                assert forall|a: int, b: int| 0 <= a < b < after.len() implies after[a].0 != after[b].0 by {
                    assert(after[a].0 == before[a].0);
                    assert(after[b].0 == before[b].0);
                }
                lemma_window_at(after, i as int);
                assert forall|other: ClientKey| other != ip implies #[trigger] window_of(after, other) == window_of(
                    before,
                    other,
                ) by {
                    if exists|k: int| 0 <= k < before.len() && before[k].0 == other {
                        let k = choose|k: int| 0 <= k < before.len() && before[k].0 == other;
                        lemma_window_at(before, k);
                        lemma_window_at(after, k);
                    } else {
                        lemma_window_absent(before, other);
                        assert forall|k: int| 0 <= k < after.len() implies after[k].0 != other by {
                            assert(after[k].0 == before[k].0);
                        }
                        lemma_window_absent(after, other);
                    }
                }
            }
        } else {
            self.windows.push((ip, w));
            proof {
                let after = self.windows@;
                assert forall|a: int, b: int| 0 <= a < b < after.len() implies after[a].0 != after[b].0 by {
                    if b == before.len() {
                        assert(after[a] == before[a]);
                    } else {
                        assert(after[a] == before[a]);
                        assert(after[b] == before[b]);
                    }
                }
                lemma_window_at(after, before.len() as int);
                assert forall|other: ClientKey| other != ip implies #[trigger] window_of(after, other) == window_of(
                    before,
                    other,
                ) by {
                    if exists|k: int| 0 <= k < before.len() && before[k].0 == other {
                        let k = choose|k: int| 0 <= k < before.len() && before[k].0 == other;
                        lemma_window_at(before, k);
                        assert(after[k] == before[k]);
                        lemma_window_at(after, k);
                    } else {
                        lemma_window_absent(before, other);
                        assert forall|k: int| 0 <= k < after.len() implies after[k].0 != other by {
                            if k < before.len() {
                                assert(after[k] == before[k]);
                            }
                        }
                        lemma_window_absent(after, other);
                    }
                }
            }
        }
        ok
    }
}

/// Within one window a client is allowed at most `max_requests` requests:
/// the count of a window never exceeds the limit (when the limit is positive).
pub proof fn law_window_count_bounded(w: Option<(u32, u64)>, now: u64, max_requests: u32, window: u64)
    requires
        max_requests >= 1,
        w matches Some((c, _)) ==> c <= max_requests,
    ensures
        decide(w, now, max_requests, window).1.0 <= max_requests,
        decide(w, now, max_requests, window).0 ==> decide(w, now, max_requests, window).1.0 >= 1,
{
}

/// A request is refused only when the window has not run out and already
/// holds `max_requests` requests; a refusal leaves the window as it was.
pub proof fn law_refusal(w: Option<(u32, u64)>, now: u64, max_requests: u32, window: u64)
    ensures
        !decide(w, now, max_requests, window).0 ==> ({
            let (count, start) = match w {
                Some(x) => x,
                None => (0u32, now),
            };
            elapsed(start, now) < window && count >= max_requests && decide(w, now, max_requests, window).1 == (
            count, start)
        }),
{
}


/// One minute, in the nanoseconds the limiter counts in.
pub const MINUTE_NANOS: u64 = 60_000_000_000;

/// The limiter on logins: 5 requests a minute per client.
pub fn login_limiter() -> (r: RateLimiter)
    ensures
        r.wf(),
        r.limit() == 5,
        r.window_len() == MINUTE_NANOS,
        forall|ip: ClientKey| #[trigger] r.window_for(ip) is None,
{
    RateLimiter::new(5, MINUTE_NANOS)
}

/// The limiter on received webhooks: 60 requests a minute per client.
pub fn webhook_limiter() -> (r: RateLimiter)
    ensures
        r.wf(),
        r.limit() == 60,
        r.window_len() == MINUTE_NANOS,
        forall|ip: ClientKey| #[trigger] r.window_for(ip) is None,
{
    RateLimiter::new(60, MINUTE_NANOS)
}

/// The answer to a refused request: status 429 and its JSON body.
pub open spec fn too_many_body() -> Seq<char> {
    "{\"error\":\"Too many requests\"}"@
}

/// A request from `ip` at `now` through `limiter`: `Ok` to go on, or the
/// refusal (status 429, `{"error":"Too many requests"}`) past the limit.
pub fn let_through(limiter: &mut RateLimiter, ip: ClientKey, now: u64) -> (r: Result<(), (u16, String)>)
    requires
        old(limiter).wf(),
    ensures
        final(limiter).wf(),
        final(limiter).limit() == old(limiter).limit(),
        final(limiter).window_len() == old(limiter).window_len(),
        ({
            let d = decide(old(limiter).window_for(ip), now, old(limiter).limit(), old(limiter).window_len());
            (r is Ok <==> d.0) && final(limiter).window_for(ip) == Some(d.1)
        }),
        r matches Err(e) ==> e.0 == 429 && e.1@ == too_many_body(),
        forall|other: ClientKey| other != ip ==> #[trigger] final(limiter).window_for(other) == old(limiter).window_for(other),
{
    if limiter.check(ip, now) {
        Ok(())
    } else {
        Err((429, String::from_str("{\"error\":\"Too many requests\"}")))
    }
}

} // verus!
