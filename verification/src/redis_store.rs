//! Key layout of the controller's Redis store, and the cached job-group state.
use crate::text::{chars_of, push_str, starts_with, starts_with_chars, string_of};
use vstd::prelude::*;

verus! {

/// Cached state of a job group: its state, each stage's state, its worker.
pub struct JobGroupCache {
    pub state: String,
    pub stages: Vec<(String, String)>,
    pub worker_id: Option<String>,
}

pub open spec fn strs_view(parts: Seq<&str>) -> Seq<Seq<char>> {
    parts.map_values(|s: &str| s@)
}

/// `parts` joined with `:` between them.
pub open spec fn join_colon(parts: Seq<Seq<char>>) -> Seq<char>
    decreases parts.len(),
{
    if parts.len() == 0 {
        Seq::empty()
    } else if parts.len() == 1 {
        parts[0]
    } else {
        join_colon(parts.drop_last()) + ":"@ + parts.last()
    }
}

/// The key made of `parts` under `prefix`.
pub open spec fn key_text(prefix: Seq<char>, parts: Seq<Seq<char>>) -> Seq<char> {
    prefix + join_colon(parts)
}

/// The worker whose presence key `key` is, if it is one: what follows
/// `{prefix}worker:alive:`.
pub open spec fn death_key_worker(key: Seq<char>, prefix: Seq<char>) -> Option<Seq<char>> {
    let pattern = prefix + "worker:alive:"@;
    if starts_with(key, pattern) {
        Some(key.subrange(pattern.len() as int, key.len() as int))
    } else {
        None
    }
}

/// The key made of `parts` under `prefix`: `{prefix}{parts joined by ':'}`.
pub fn store_key(prefix: &str, parts: &[&str]) -> (k: String)
    ensures
        k@ == key_text(prefix@, strs_view(parts@)),
{
    let mut k = String::new();
    push_str(&mut k, prefix);
    let mut i: usize = 0;
    while i < parts.len()
        invariant
            i <= parts.len(),
            k@ == prefix@ + join_colon(strs_view(parts@).subrange(0, i as int)),
        decreases parts.len() - i,
    {
        let ghost before = k@;
        let ghost sv = strs_view(parts@);
        if i > 0 {
            push_str(&mut k, ":");
        }
        push_str(&mut k, parts[i]);
        proof {
            let pre = sv.subrange(0, i as int);
            let post = sv.subrange(0, i + 1);
            assert(post.drop_last() == pre);
            assert(post.last() == parts@[i as int]@);
            if i == 0 {
                assert(join_colon(pre) == Seq::<char>::empty());
                assert(join_colon(post) == post[0]);
                assert(k@ =~= prefix@ + join_colon(post));
            } else {
                assert(k@ =~= prefix@ + join_colon(post));
            }
        }
        i += 1;
    }
    assert(strs_view(parts@).subrange(0, parts@.len() as int) == strs_view(parts@));
    k
}

/// The presence key of a worker, `{prefix}worker:alive:{worker_id}`.
pub fn worker_alive_key(prefix: &str, worker_id: &str) -> (k: String)
    ensures
        k@ == key_text(prefix@, seq!["worker"@, "alive"@, worker_id@]),
{
    let parts = ["worker", "alive", worker_id];
    let k = store_key(prefix, &parts);
    assert(strs_view(parts@) =~= seq!["worker"@, "alive"@, worker_id@]);
    k
}

/// Parse an expired key event to extract a worker_id.
/// Key format: `{prefix}worker:alive:{worker_id}`.
pub fn parse_worker_death_key(key: &str, prefix: &str) -> (r: Option<String>)
    ensures
        match death_key_worker(key@, prefix@) {
            Some(w) => r matches Some(s) && s@ == w,
            None => r is None,
        },
{
    let mut pattern = String::new();
    push_str(&mut pattern, prefix);
    push_str(&mut pattern, "worker:alive:");
    let p = chars_of(pattern.as_str());
    let k = chars_of(key);
    if starts_with_chars(&k, &p) {
        Some(string_of(&k, p.len(), k.len()))
    } else {
        None
    }
}

/// A worker's presence key reads back as that worker.
pub proof fn lemma_death_key_roundtrip(prefix: Seq<char>, worker_id: Seq<char>)
    ensures
        death_key_worker(key_text(prefix, seq!["worker"@, "alive"@, worker_id]), prefix) == Some(
            worker_id,
        ),
{
    reveal_strlit("worker:alive:");
    reveal_strlit("worker");
    reveal_strlit("alive");
    reveal_strlit(":");
    let parts = seq!["worker"@, "alive"@, worker_id];
    assert(parts.drop_last().drop_last() =~= seq!["worker"@]);
    assert(parts.drop_last() =~= seq!["worker"@, "alive"@]);
    assert(join_colon(seq!["worker"@]) == "worker"@);
    assert(join_colon(parts.drop_last()) == "worker"@ + ":"@ + "alive"@);
    assert(join_colon(parts) == "worker"@ + ":"@ + "alive"@ + ":"@ + worker_id);
    assert(join_colon(parts) =~= "worker:alive:"@ + worker_id);
    let key = key_text(prefix, parts);
    let pattern = prefix + "worker:alive:"@;
    assert(key =~= pattern + worker_id);
    assert(key.subrange(0, pattern.len() as int) =~= pattern);
    assert(key.subrange(pattern.len() as int, key.len() as int) =~= worker_id);
}

} // verus!
