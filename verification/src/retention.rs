//! Decisions of the retention sweep: which tiers run, and whether the
//! configured tier ages allow a periodic tick at all.
use crate::api::settings::{setting_u64, u64_setting};
use crate::text::{chars_eq, chars_of};
use crate::time::{elapsed_secs, elapsed_seconds, UtcTime};
use vstd::prelude::*;

verus! {

/// Options for a single retention sweep. When all three are false, all tiers run.
pub struct RunOnceOpts {
    /// Run T1 (file purge).
    pub run_t1: bool,
    /// Run T2 (archive).
    pub run_t2: bool,
    /// Run T3 (delete archive).
    pub run_t3: bool,
}

/// Counts returned by a single retention sweep.
pub struct RunOnceResult {
    pub t1_purged: i64,
    pub t2_archived: i64,
    pub t3_deleted: i64,
}

/// Why a periodic tick is skipped, when it is.
pub enum TickSkip {
    /// A tier age is zero or negative.
    NonPositive,
    /// The ages are not strictly increasing from T1 to T3.
    BadOrdering,
}

impl RunOnceOpts {
    /// Run all three tiers.
    pub fn all() -> (o: Self)
        ensures
            o.run_t1 && o.run_t2 && o.run_t3,
    {
        RunOnceOpts { run_t1: true, run_t2: true, run_t3: true }
    }

    /// The tiers a sweep with these options runs: those asked for, or all
    /// three when none is.
    pub fn tiers(&self) -> (t: (bool, bool, bool))
        ensures
            ({
                let none = !self.run_t1 && !self.run_t2 && !self.run_t3;
                t == (self.run_t1 || none, self.run_t2 || none, self.run_t3 || none)
            }),
    {
        let run_all = !self.run_t1 && !self.run_t2 && !self.run_t3;
        (self.run_t1 || run_all, self.run_t2 || run_all, self.run_t3 || run_all)
    }
}

impl RunOnceResult {
    pub fn zero() -> (r: Self)
        ensures
            r.t1_purged == 0 && r.t2_archived == 0 && r.t3_deleted == 0,
    {
        RunOnceResult { t1_purged: 0, t2_archived: 0, t3_deleted: 0 }
    }
}

/// Whether a periodic tick may run with tier ages `t1`, `t2`, `t3` (in days):
/// all positive and strictly increasing.
pub fn tick_gate(t1: i32, t2: i32, t3: i32) -> (r: Result<(), TickSkip>)
    ensures
        r is Ok <==> (0 < t1 < t2 < t3),
        r matches Err(TickSkip::NonPositive) <==> (t1 <= 0 || t2 <= 0 || t3 <= 0),
{
    if t1 <= 0 || t2 <= 0 || t3 <= 0 {
        return Err(TickSkip::NonPositive);
    }
    if t1 >= t2 || t2 >= t3 {
        return Err(TickSkip::BadOrdering);
    }
    Ok(())
}

/// The cleanup interval in force: the configured one, at least 60 seconds.
pub fn effective_interval(secs: u64) -> (r: u64)
    ensures
        r == if secs < 60 {
            60
        } else {
            secs
        },
{
    if secs < 60 {
        60
    } else {
        secs
    }
}


/// A worker whose last heartbeat `hb` is younger than `timeout_secs` at `now`.
pub open spec fn live(hb: Option<UtcTime>, now: UtcTime, timeout_secs: i64) -> bool {
    hb matches Some(t) && elapsed_secs(t, now) < timeout_secs
}

/// The last heartbeat on record for `worker`: that of its first entry.
pub open spec fn heartbeat_of(beats: Seq<(Seq<char>, Option<UtcTime>)>, worker: Seq<char>) -> Option<UtcTime>
    decreases beats.len(),
{
    if beats.len() == 0 {
        None
    } else if beats[0].0 == worker {
        beats[0].1
    } else {
        heartbeat_of(beats.drop_first(), worker)
    }
}

pub open spec fn beats_view(b: Seq<(String, Option<UtcTime>)>) -> Seq<(Seq<char>, Option<UtcTime>)> {
    b.map_values(|e: (String, Option<UtcTime>)| (e.0@, e.1))
}

fn heartbeat_for(beats: &Vec<(String, Option<UtcTime>)>, worker: &String) -> (r: Option<UtcTime>)
    ensures
        r == heartbeat_of(beats_view(beats@), worker@),
{
    let w = chars_of(worker.as_str());
    let mut i: usize = 0;
    let ghost bv = beats_view(beats@);
    assert(bv.skip(0) =~= bv);
    while i < beats.len()
        invariant
            i <= beats.len(),
            bv == beats_view(beats@),
            w@ == worker@,
            heartbeat_of(bv, worker@) == heartbeat_of(bv.skip(i as int), worker@),
        decreases beats.len() - i,
    {
        assert(bv.skip(i as int).drop_first() =~= bv.skip(i + 1));
        assert(bv.skip(i as int)[0] == bv[i as int]);
        let c = chars_of(beats[i].0.as_str());
        if chars_eq(&c, &w) {
            return beats[i].1;
        }
        i += 1;
    }
    None
}

/// The owners among `owners` still alive at `now`: their last heartbeat (from
/// `beats`, the worker registry's record) is younger than `timeout_secs`.
/// Order is kept.
pub fn filter_live_workers(
    owners: &Vec<String>,
    beats: &Vec<(String, Option<UtcTime>)>,
    now: UtcTime,
    timeout_secs: i64,
) -> (r: Vec<String>)
    ensures
        r@.map_values(|s: String| s@) == owners@.map_values(|s: String| s@).filter(
            |w: Seq<char>| live(heartbeat_of(beats_view(beats@), w), now, timeout_secs),
        ),
{
    let ghost p = |w: Seq<char>| live(heartbeat_of(beats_view(beats@), w), now, timeout_secs);
    let ghost ov = owners@.map_values(|s: String| s@);
    let mut out: Vec<String> = Vec::new();
    let mut i: usize = 0;
    while i < owners.len()
        invariant
            i <= owners.len(),
            p == (|w: Seq<char>| live(heartbeat_of(beats_view(beats@), w), now, timeout_secs)),
            ov == owners@.map_values(|s: String| s@),
            out@.map_values(|s: String| s@) == ov.take(i as int).filter(p),
        decreases owners.len() - i,
    {
        let ghost before = out@.map_values(|s: String| s@);
        proof {
            reveal(Seq::filter);
            assert(ov.take(i + 1).drop_last() =~= ov.take(i as int));
            assert(ov.take(i + 1).last() == owners@[i as int]@);
            assert(ov.take(i + 1).filter(p) == if p(owners@[i as int]@) {
                ov.take(i as int).filter(p).push(owners@[i as int]@)
            } else {
                ov.take(i as int).filter(p)
            });
        }
        let alive = match heartbeat_for(beats, &owners[i]) {
            Some(t) => elapsed_seconds(t, now) < timeout_secs as i128,
            None => false,
        };
        if alive {
            out.push(owners[i].clone());
            assert(out@.map_values(|s: String| s@) =~= before.push(owners@[i as int]@));
        }
        i += 1;
    }
    assert(ov.take(i as int) =~= ov);
    out
}


/// The tier ages (days) and cleanup interval (seconds) a periodic tick reads
/// from the stored overrides `db`, else from the configured defaults; the
/// ages are taken as `i32`, as the sweep computes with them.
pub open spec fn tier_ages(db: Seq<(String, String)>, d1: u64, d2: u64, d3: u64) -> (i32, i32, i32) {
    (
        u64_setting(db, "retention.t1_purge_files_after_days"@, d1) as i32,
        u64_setting(db, "retention.t2_archive_after_days"@, d2) as i32,
        u64_setting(db, "retention.t3_delete_archive_after_days"@, d3) as i32,
    )
}

/// What a periodic tick runs with: the tier ages, whether they allow a
/// sweep, and the cleanup interval in force.
pub fn tick_settings(
    db: &Vec<(String, String)>,
    d1: u64,
    d2: u64,
    d3: u64,
    interval_default: u64,
) -> (r: ((i32, i32, i32), Result<(), TickSkip>, u64))
    ensures
        r.0 == tier_ages(db@, d1, d2, d3),
        r.1 is Ok <==> (0 < r.0.0 < r.0.1 < r.0.2),
        r.1 matches Err(TickSkip::NonPositive) <==> (r.0.0 <= 0 || r.0.1 <= 0 || r.0.2 <= 0),
        r.2 == ({
            let i = u64_setting(db@, "retention.cleanup_interval_secs"@, interval_default);
            if i < 60 {
                60
            } else {
                i
            }
        }),
{
    let t1 = setting_u64(db, "retention.t1_purge_files_after_days", d1) as i32;
    let t2 = setting_u64(db, "retention.t2_archive_after_days", d2) as i32;
    let t3 = setting_u64(db, "retention.t3_delete_archive_after_days", d3) as i32;
    let interval = effective_interval(setting_u64(db, "retention.cleanup_interval_secs", interval_default));
    ((t1, t2, t3), tick_gate(t1, t2, t3), interval)
}

} // verus!
