//! Build (job group) views: the resources a build holds and the run of
//! each configured stage.
use crate::text::{chars_eq, chars_of};
use vstd::prelude::*;

verus! {

/// What a configured stage asks of its worker.
pub struct StageResources {
    pub cpu: i32,
    pub memory_mb: i32,
    pub disk_mb: i32,
}

/// The largest of the values, counting negatives as 0; 0 for none.
pub open spec fn max_nonneg(s: Seq<i32>) -> int
    decreases s.len(),
{
    if s.len() == 0 {
        0
    } else {
        let m = max_nonneg(s.drop_last());
        if s.last() > m {
            s.last() as int
        } else {
            m
        }
    }
}

pub open spec fn cpus(s: Seq<StageResources>) -> Seq<i32> {
    s.map_values(|r: StageResources| r.cpu)
}

pub open spec fn mems(s: Seq<StageResources>) -> Seq<i32> {
    s.map_values(|r: StageResources| r.memory_mb)
}

pub open spec fn disks(s: Seq<StageResources>) -> Seq<i32> {
    s.map_values(|r: StageResources| r.disk_mb)
}

proof fn lemma_max_bounds(s: Seq<i32>)
    ensures
        0 <= max_nonneg(s) <= i32::MAX,
    decreases s.len(),
{
    if s.len() > 0 {
        lemma_max_bounds(s.drop_last());
    }
}

/// The resources a build is shown to hold when the registry has none on
/// record: for each kind, the most any of its stages asks (at least 0).
pub fn fallback_allocation(stages: &Vec<StageResources>) -> (r: (i32, i32, i32))
    ensures
        r.0 == max_nonneg(cpus(stages@)),
        r.1 == max_nonneg(mems(stages@)),
        r.2 == max_nonneg(disks(stages@)),
{
    let mut c: i32 = 0;
    let mut m: i32 = 0;
    let mut d: i32 = 0;
    let mut i: usize = 0;
    while i < stages.len()
        invariant
            i <= stages.len(),
            c == max_nonneg(cpus(stages@).take(i as int)),
            m == max_nonneg(mems(stages@).take(i as int)),
            d == max_nonneg(disks(stages@).take(i as int)),
        decreases stages.len() - i,
    {
        proof {
            assert(cpus(stages@).take(i + 1).drop_last() =~= cpus(stages@).take(i as int));
            assert(mems(stages@).take(i + 1).drop_last() =~= mems(stages@).take(i as int));
            assert(disks(stages@).take(i + 1).drop_last() =~= disks(stages@).take(i as int));
            lemma_max_bounds(cpus(stages@).take(i as int));
        }
        let s = &stages[i];
        if s.cpu > c {
            c = s.cpu;
        }
        if s.memory_mb > m {
            m = s.memory_mb;
        }
        if s.disk_mb > d {
            d = s.disk_mb;
        }
        i += 1;
    }
    proof {
        assert(cpus(stages@).take(i as int) =~= cpus(stages@));
        assert(mems(stages@).take(i as int) =~= mems(stages@));
        assert(disks(stages@).take(i as int) =~= disks(stages@));
    }
    (c, m, d)
}

/// Job `i` is the last of `names` run for `stage`.
pub open spec fn last_run(names: Seq<Seq<char>>, stage: Seq<char>, i: int) -> bool {
    &&& 0 <= i < names.len()
    &&& names[i] == stage
    &&& forall|k: int| i < k < names.len() ==> names[k] != stage
}

pub open spec fn names_of(v: Seq<String>) -> Seq<Seq<char>> {
    v.map_values(|s: String| s@)
}

/// The job that shows a configured stage's run, among the build's jobs (given
/// by their stage names): the last one run for it; none while the stage is
/// pending.
pub fn job_for_stage(job_stage_names: &Vec<String>, stage: &str) -> (r: Option<usize>)
    ensures
        match r {
            Some(i) => last_run(names_of(job_stage_names@), stage@, i as int),
            None => forall|k: int|
                0 <= k < job_stage_names@.len() ==> (#[trigger] job_stage_names@[k])@ != stage@,
        },
{
    let st = chars_of(stage);
    let mut i: usize = job_stage_names.len();
    while i > 0
        invariant
            i <= job_stage_names.len(),
            st@ == stage@,
            forall|k: int| i <= k < job_stage_names@.len() ==> (#[trigger] job_stage_names@[k])@ != stage@,
        decreases i,
    {
        let c = chars_of(job_stage_names[i - 1].as_str());
        if chars_eq(&c, &st) {
            return Some(i - 1);
        }
        i -= 1;
    }
    None
}

} // verus!
