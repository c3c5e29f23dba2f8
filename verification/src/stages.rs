//! Stage submission and worker reservation: the job a submitted stage
//! becomes, the environment it runs with, and the stage list a reservation
//! answers with.
use crate::dag::{deps_of, deps_view, keys_distinct, names_view};
use crate::job_group_registry::{
    transitioned, uuid_string, uuid_text, Job, JobGroup, JobGroupRegistry,
    JobGroupState,
};
use crate::text::{chars_eq, chars_of, push_str};
use crate::time::UtcTime;
use vstd::prelude::*;

verus! {

// ── The job of a stage ──────────────────────────────────────────────────────
/// The id of the job a stage runs as: the one given, else `{group}-{stage}`.
pub fn stage_job_id(group_id: u128, stage: &str, given: &str) -> (r: String)
    ensures
        r@ == if given@.len() == 0 {
            uuid_text(group_id) + "-"@ + stage@
        } else {
            given@
        },
{
    if chars_of(given).len() == 0 {
        let mut s = uuid_string(group_id);
        push_str(&mut s, "-");
        push_str(&mut s, stage);
        s
    } else {
        String::from_str(given)
    }
}

/// The command a stage runs: the override, else a placeholder echo.
pub fn stage_command(stage: &str, command_override: &str) -> (r: String)
    ensures
        r@ == if command_override@.len() == 0 {
            "echo 'Running stage: "@ + stage@ + "'"@
        } else {
            command_override@
        },
{
    if chars_of(command_override).len() == 0 {
        let mut s = String::new();
        push_str(&mut s, "echo 'Running stage: ");
        push_str(&mut s, stage);
        push_str(&mut s, "'");
        s
    } else {
        String::from_str(command_override)
    }
}

// ── Environment ─────────────────────────────────────────────────────────────
/// A pipeline variable of a repository.
pub struct RepoVariable {
    pub name: String,
    pub value: String,
    pub is_secret: bool,
}

pub type EnvV = Seq<(Seq<char>, Seq<char>)>;

pub open spec fn env_view(e: Seq<(String, String)>) -> EnvV {
    e.map_values(|p: (String, String)| (p.0@, p.1@))
}

pub open spec fn vars_view(v: Seq<RepoVariable>) -> Seq<(Seq<char>, Seq<char>, bool)> {
    v.map_values(|x: RepoVariable| (x.name@, x.value@, x.is_secret))
}

pub open spec fn has_key(env: EnvV, k: Seq<char>) -> bool {
    exists|i: int| 0 <= i < env.len() && (#[trigger] env[i]).0 == k
}

/// `env` with each variable added, in order, unless its name is set already
/// (the request's own values win, then the first variable of a name).
pub open spec fn with_variables(env: EnvV, vars: Seq<(Seq<char>, Seq<char>, bool)>) -> EnvV
    decreases vars.len(),
{
    if vars.len() == 0 {
        env
    } else {
        let e = with_variables(env, vars.drop_last());
        let v = vars.last();
        if has_key(e, v.0) {
            e
        } else {
            e.push((v.0, v.1))
        }
    }
}

/// The names of the secret variables, in order.
pub open spec fn secret_names(vars: Seq<(Seq<char>, Seq<char>, bool)>) -> Seq<Seq<char>>
    decreases vars.len(),
{
    if vars.len() == 0 {
        Seq::empty()
    } else {
        let r = secret_names(vars.drop_last());
        if vars.last().2 {
            r.push(vars.last().0)
        } else {
            r
        }
    }
}

fn env_has_key(env: &Vec<(String, String)>, k: &String) -> (b: bool)
    ensures
        b == has_key(env_view(env@), k@),
{
    let kc = chars_of(k.as_str());
    let mut i: usize = 0;
    while i < env.len()
        invariant
            i <= env.len(),
            kc@ == k@,
            forall|j: int| 0 <= j < i ==> (#[trigger] env_view(env@)[j]).0 != k@,
        decreases env.len() - i,
    {
        let c = chars_of(env[i].0.as_str());
        if chars_eq(&c, &kc) {
            assert(env_view(env@)[i as int].0 == k@);
            return true;
        }
        i += 1;
    }
    false
}

/// The environment a stage runs with, and the names of the secret variables
/// (whose values are masked in its log).
pub fn merge_variables(env: &Vec<(String, String)>, vars: &Vec<RepoVariable>) -> (r: (
    Vec<(String, String)>,
    Vec<String>,
))
    ensures
        env_view(r.0@) == with_variables(env_view(env@), vars_view(vars@)),
        names_view(r.1@) == secret_names(vars_view(vars@)),
{
    let mut out: Vec<(String, String)> = Vec::new();
    let mut k: usize = 0;
    while k < env.len()
        invariant
            k <= env.len(),
            env_view(out@) == env_view(env@.take(k as int)),
        decreases env.len() - k,
    {
        let ghost before = out@;
        let pair = (env[k].0.clone(), env[k].1.clone());
        assert(pair == env@[k as int]);
        out.push(pair);
        assert(out@ == before.push(env@[k as int]));
        assert(env@.take(k + 1) =~= env@.take(k as int).push(env@[k as int]));
        assert(env_view(out@) =~= env_view(before).push((env@[k as int].0@, env@[k as int].1@)));
        assert(env_view(env@.take(k + 1)) =~= env_view(env@.take(k as int)).push((env@[k as int].0@, env@[k as int].1@)));
        k += 1;
    }
    assert(env@.take(k as int) =~= env@);
    let mut secrets: Vec<String> = Vec::new();
    let mut i: usize = 0;
    while i < vars.len()
        invariant
            i <= vars.len(),
            env_view(out@) == with_variables(env_view(env@), vars_view(vars@).take(i as int)),
            names_view(secrets@) == secret_names(vars_view(vars@).take(i as int)),
        decreases vars.len() - i,
    {
        let ghost vv = vars_view(vars@);
        proof {
            assert(vv.take(i + 1).drop_last() =~= vv.take(i as int));
            assert(vv.take(i + 1).last() == vv[i as int]);
        }
        let v = &vars[i];
        if !env_has_key(&out, &v.name) {
            let ghost before = env_view(out@);
            out.push((v.name.clone(), v.value.clone()));
            assert(env_view(out@) =~= before.push((v.name@, v.value@)));
        }
        if v.is_secret {
            let ghost sb = names_view(secrets@);
            secrets.push(v.name.clone());
            assert(names_view(secrets@) =~= sb.push(v.name@));
        }
        i += 1;
    }
    assert(vars_view(vars@).take(i as int) =~= vars_view(vars@));
    (out, secrets)
}

// ── Submission into the registry ────────────────────────────────────────────
/// Why a stage cannot be submitted to a group.
pub enum SubmitRefusal {
    /// The group is unknown.
    GroupNotFound,
    /// The group has no reserved worker.
    NoReservedWorker,
}

/// The group a stage goes to, after submission: running if it was reserved.
pub open spec fn submitted(g: JobGroup, now: UtcTime) -> JobGroup {
    if g.state == JobGroupState::Reserved {
        transitioned(g, JobGroupState::Running, now)
    } else {
        g
    }
}

impl JobGroupRegistry {
    /// The worker a stage of `group_id` runs on: the group's reserved worker.
    pub fn stage_target(&self, group_id: u128) -> (r: Result<String, SubmitRefusal>)
        requires
            self.wf(),
        ensures
            match self.group(group_id) {
                None => r matches Err(SubmitRefusal::GroupNotFound),
                Some(g) => match g.reserved_worker_id {
                    None => r matches Err(SubmitRefusal::NoReservedWorker),
                    Some(w) => r matches Ok(x) && x@ == w@,
                },
            },
    {
        match self.get(group_id) {
            None => Err(SubmitRefusal::GroupNotFound),
            Some(g) => match &g.reserved_worker_id {
                None => Err(SubmitRefusal::NoReservedWorker),
                Some(w) => Ok(w.clone()),
            },
        }
    }

    /// Files the job of a submitted stage under its group at `now`; a group
    /// still reserved starts running.
    pub fn submit_stage_job(&mut self, group_id: u128, job: Job, now: UtcTime)
        requires
            old(self).wf(),
        ensures
            final(self).wf(),
            final(self).group(group_id) == match old(self).group(group_id) {
                Some(g) => Some(submitted(g, now)),
                None => None,
            },
            final(self).jobs(group_id) == Some(
                match old(self).jobs(group_id) {
                    Some(js) => js,
                    None => Seq::<Job>::empty(),
                }.push(job),
            ),
            forall|x: u128|
                x != group_id ==> #[trigger] final(self).group(x) == old(self).group(x) && final(self).jobs(x)
                    == old(self).jobs(x),
    {
        let reserved = match self.get(group_id) {
            Some(g) => g.state == JobGroupState::Reserved,
            None => false,
        };
        if reserved {
            self.update_state(group_id, JobGroupState::Running, now);
        }
        self.add_job_to_group(group_id, job);
    }
}

// ── Reservation answer ──────────────────────────────────────────────────────
/// What a reservation tells the runner of one stage.
pub struct StageInfo {
    pub stage_name: String,
    pub command: String,
    pub required_cpu: i32,
    pub required_memory_mb: i32,
    pub required_disk_mb: i32,
    pub max_duration_secs: i32,
    pub parallel_group: String,
    pub job_type: String,
    pub depends_on: Vec<String>,
}

/// `s` describes stage `name` with the dependencies the graph `deps` lists
/// for it (none without an entry); the other fields are left empty, and the
/// job type is `common`.
pub open spec fn describes(s: StageInfo, name: Seq<char>, deps: Seq<(Seq<char>, Seq<Seq<char>>)>) -> bool {
    &&& s.stage_name@ == name
    &&& s.command@.len() == 0
    &&& s.required_cpu == 0 && s.required_memory_mb == 0 && s.required_disk_mb == 0
    &&& s.max_duration_secs == 0
    &&& s.parallel_group@.len() == 0
    &&& s.job_type@ == "common"@
    &&& names_view(s.depends_on@) == match deps_of(deps, name) {
        Some(p) => p,
        None => Seq::empty(),
    }
}

pub(crate) fn clone_names(v: &Vec<String>) -> (r: Vec<String>)
    ensures
        names_view(r@) == names_view(v@),
{
    let mut r: Vec<String> = Vec::new();
    let mut i: usize = 0;
    while i < v.len()
        invariant
            i <= v.len(),
            names_view(r@) == names_view(v@.take(i as int)),
        decreases v.len() - i,
    {
        let ghost before = r@;
        r.push(v[i].clone());
        assert(v@.take(i + 1) =~= v@.take(i as int).push(v@[i as int]));
        assert(names_view(r@) =~= names_view(before).push(v@[i as int]@));
        assert(names_view(v@.take(i + 1)) =~= names_view(v@.take(i as int)).push(v@[i as int]@));
        i += 1;
    }
    assert(v@.take(i as int) =~= v@);
    r
}

/// The entry of stage `name` in `deps`, if any.
fn find_stage(name: &str, deps: &Vec<(String, Vec<String>)>) -> (r: Option<usize>)
    requires
        keys_distinct(deps_view(deps@)),
    ensures
        match r {
            Some(i) => i < deps.len() && deps_of(deps_view(deps@), name@) == Some(deps_view(deps@)[i as int].1),
            None => deps_of(deps_view(deps@), name@) is None,
        },
{
    let ghost d = deps_view(deps@);
    let n = chars_of(name);
    let mut i: usize = 0;
    while i < deps.len()
        invariant
            i <= deps.len(),
            d == deps_view(deps@),
            keys_distinct(d),
            n@ == name@,
            forall|e: int| 0 <= e < i ==> d[e].0 != name@,
        decreases deps.len() - i,
    {
        let k = chars_of(deps[i].0.as_str());
        if chars_eq(&k, &n) {
            proof {
                assert(d[i as int].0 == name@);
                let c = choose|c: int| 0 <= c < d.len() && d[c].0 == name@;
                assert(c == i as int);
            }
            return Some(i);
        }
        i += 1;
    }
    None
}

/// The reservation's description of stage `name`.
pub fn stage_info(name: &str, deps: &Vec<(String, Vec<String>)>) -> (s: StageInfo)
    requires
        keys_distinct(deps_view(deps@)),
    ensures
        describes(s, name@, deps_view(deps@)),
{
    let depends_on = match find_stage(name, deps) {
        Some(i) => clone_names(&deps[i].1),
        None => Vec::new(),
    };
    proof {
        reveal_strlit("common");
        reveal_strlit("");
        assert(names_view(Seq::<String>::empty()) =~= Seq::<Seq<char>>::empty());
    }
    StageInfo {
        stage_name: String::from_str(name),
        command: String::new(),
        required_cpu: 0,
        required_memory_mb: 0,
        required_disk_mb: 0,
        max_duration_secs: 0,
        parallel_group: String::new(),
        job_type: String::from_str("common"),
        depends_on,
    }
}

/// The reservation's description of each requested stage, in order.
pub fn stage_infos(stages: &Vec<String>, deps: &Vec<(String, Vec<String>)>) -> (r: Vec<StageInfo>)
    requires
        keys_distinct(deps_view(deps@)),
    ensures
        r@.len() == stages@.len(),
        forall|k: int| 0 <= k < r@.len() ==> describes(#[trigger] r@[k], stages@[k]@, deps_view(deps@)),
{
    let mut r: Vec<StageInfo> = Vec::new();
    let mut i: usize = 0;
    while i < stages.len()
        invariant
            i <= stages.len(),
            keys_distinct(deps_view(deps@)),
            r@.len() == i,
            forall|k: int| 0 <= k < i ==> describes(#[trigger] r@[k], stages@[k]@, deps_view(deps@)),
        decreases stages.len() - i,
    {
        r.push(stage_info(stages[i].as_str(), deps));
        i += 1;
    }
    r
}

} // verus!
