//! Runtime-tunable settings: which keys may be overridden, what values each
//! accepts, and how an override is resolved against the configuration file.
use crate::api::error::{bad_request, bad_request2, err_of, ApiError, ApiErrorV};
use crate::text::{
    chars_eq_str, chars_of, contains, contains_chars, dec, lower, lower_chars, parse_i64,
    parse_i64_chars, parse_u64, parse_u64_chars, push_i64, push_str, push_u64,
};
use vstd::prelude::*;

verus! {

// ── Specification ───────────────────────────────────────────────────────────
/// The keys that may be overridden at runtime.
pub open spec fn is_editable_key(key: Seq<char>) -> bool {
    ||| key == "scheduling.strategy"@
    ||| key == "scheduling.nvme_preference"@
    ||| key == "scheduling.branch_affinity"@
    ||| key == "workers.heartbeat_timeout_secs"@
    ||| key == "workers.reservation_timeout_secs"@
    ||| key == "workers.idle_timeout_secs"@
    ||| key == "workers.stall_timeout_secs"@
    ||| key == "logging.level"@
    ||| key == "logging.log_dir"@
    ||| key == "retention.max_age_days"@
    ||| key == "retention.max_builds_per_repo"@
    ||| key == "retention.t1_purge_files_after_days"@
    ||| key == "retention.t2_archive_after_days"@
    ||| key == "retention.t3_delete_archive_after_days"@
    ||| key == "retention.cleanup_interval_secs"@
    ||| key == "retention.enable_worker_fanout"@
    ||| key == "execution.work_dir"@
    ||| key == "execution.log_dir"@
    ||| key == "execution.repos_dir"@
}

/// Why `value` is not an integer in `[min, max]`, if it is not one.
pub open spec fn int_range_error(key: Seq<char>, value: Seq<char>, min: int, max: int) -> Option<
    Seq<char>,
> {
    match parse_i64(value) {
        None => Some(key + " must be an integer"@),
        Some(n) => if n < min || n > max {
            Some(key + " must be between "@ + dec(min) + " and "@ + dec(max))
        } else {
            None
        },
    }
}

/// Why `value` is not an acceptable absolute path, if it is not one.
pub open spec fn path_error(key: Seq<char>, value: Seq<char>) -> Option<Seq<char>> {
    if value.len() == 0 {
        Some(key + " must not be empty"@)
    } else if value[0] != '/' {
        Some(key + " must be an absolute path (start with /)"@)
    } else if contains(value, ".."@) {
        Some(key + " must not contain '..'"@)
    } else {
        None
    }
}

/// `true`/`false` in any ASCII case.
pub open spec fn bool_value(value: Seq<char>) -> Option<bool> {
    if lower(value) == "true"@ {
        Some(true)
    } else if lower(value) == "false"@ {
        Some(false)
    } else {
        None
    }
}

pub open spec fn bool_error(key: Seq<char>) -> Seq<char> {
    key + " must be 'true' or 'false'"@
}

/// The allowed range of each numeric retention key.
pub open spec fn retention_bounds(key: Seq<char>) -> Option<(int, int)> {
    if key == "retention.max_builds_per_repo"@ {
        Some((100, 1000000))
    } else if key == "retention.t1_purge_files_after_days"@ {
        Some((1, 3650))
    } else if key == "retention.t2_archive_after_days"@ {
        Some((1, 3650))
    } else if key == "retention.t3_delete_archive_after_days"@ {
        Some((1, 36500))
    } else if key == "retention.cleanup_interval_secs"@ {
        Some((60, 86400))
    } else {
        None
    }
}

pub open spec fn is_path_key(key: Seq<char>) -> bool {
    ||| key == "logging.log_dir"@
    ||| key == "execution.work_dir"@
    ||| key == "execution.log_dir"@
    ||| key == "execution.repos_dir"@
}

/// Why `value` is refused for `key`, if it is; keys without a rule accept
/// anything.
pub open spec fn setting_error(key: Seq<char>, value: Seq<char>) -> Option<Seq<char>> {
    if key == "scheduling.strategy"@ {
        if value == "best-fit"@ || value == "round-robin"@ {
            None
        } else {
            Some("strategy must be 'best-fit' or 'round-robin'"@)
        }
    } else if key == "scheduling.nvme_preference"@ || key == "scheduling.branch_affinity"@ {
        if value == "true"@ || value == "false"@ {
            None
        } else {
            Some(bool_error(key))
        }
    } else if key == "workers.heartbeat_timeout_secs"@ {
        int_range_error(key, value, 5, 300)
    } else if key == "workers.reservation_timeout_secs"@ || key == "workers.idle_timeout_secs"@
        || key == "workers.stall_timeout_secs"@ {
        int_range_error(key, value, 60, 86400)
    } else if key == "logging.level"@ {
        if value == "trace"@ || value == "debug"@ || value == "info"@ || value == "warn"@ || value
            == "error"@ {
            None
        } else {
            Some("level must be one of: trace, debug, info, warn, error"@)
        }
    } else if key == "retention.max_age_days"@ {
        int_range_error(key, value, 0, 3650)
    } else {
        match retention_bounds(key) {
            Some(b) => int_range_error(key, value, b.0, b.1),
            None => if key == "retention.enable_worker_fanout"@ {
                if bool_value(value) is Some {
                    None
                } else {
                    Some(bool_error(key))
                }
            } else if is_path_key(key) {
                path_error(key, value)
            } else {
                None
            },
        }
    }
}

/// The value stored for `key`: the first entry with that key.
pub open spec fn lookup(db: Seq<(String, String)>, key: Seq<char>) -> Option<Seq<char>>
    decreases db.len(),
{
    if db.len() == 0 {
        None
    } else if db[0].0@ == key {
        Some(db[0].1@)
    } else {
        lookup(db.drop_first(), key)
    }
}

/// A retention tier as currently in force: the stored override, else the
/// configured default; a stored value that is no integer is an internal error.
pub open spec fn current_tier(db: Seq<(String, String)>, key: Seq<char>, default: u32) -> Result<
    u64,
    ApiErrorV,
> {
    match lookup(db, key) {
        Some(v) => match parse_u64(v) {
            Some(n) => Ok(n),
            None => Err(
                ApiErrorV::Internal("stored "@ + key + " is not an integer: "@ + v),
            ),
        },
        None => Ok(default as u64),
    }
}

/// The tier `k` with `value` proposed for `key`.
pub open spec fn tier_value(
    key: Seq<char>,
    proposed: u64,
    db: Seq<(String, String)>,
    k: Seq<char>,
    default: u32,
) -> Result<u64, ApiErrorV> {
    if key == k {
        Ok(proposed)
    } else {
        current_tier(db, k, default)
    }
}

/// The outcome of proposing `value` for one of the tier keys: `None` when
/// `t1 < t2 < t3` still holds, else the error.
pub open spec fn tier_ordering_error(
    key: Seq<char>,
    value: Seq<char>,
    db: Seq<(String, String)>,
    f1: u32,
    f2: u32,
    f3: u32,
) -> Option<ApiErrorV> {
    match parse_u64(value) {
        None => Some(ApiErrorV::BadRequest(key + " must be an integer"@)),
        Some(p) => match tier_value(key, p, db, "retention.t1_purge_files_after_days"@, f1) {
            Err(e) => Some(e),
            Ok(t1) => match tier_value(key, p, db, "retention.t2_archive_after_days"@, f2) {
                Err(e) => Some(e),
                Ok(t2) => match tier_value(
                    key,
                    p,
                    db,
                    "retention.t3_delete_archive_after_days"@,
                    f3,
                ) {
                    Err(e) => Some(e),
                    Ok(t3) => if t1 >= t2 {
                        Some(
                            ApiErrorV::BadRequest(
                                "retention tier ordering violated: t1 ("@ + dec(t1 as int)
                                    + ") must be < t2 ("@ + dec(t2 as int) + ")"@,
                            ),
                        )
                    } else if t2 >= t3 {
                        Some(
                            ApiErrorV::BadRequest(
                                "retention tier ordering violated: t2 ("@ + dec(t2 as int)
                                    + ") must be < t3 ("@ + dec(t3 as int) + ")"@,
                            ),
                        )
                    } else {
                        None
                    },
                },
            },
        },
    }
}

// ── Executable ──────────────────────────────────────────────────────────────
/// A bad request with the given message, if there is one.
pub open spec fn opt_bad_request(e: Option<Seq<char>>) -> Option<ApiErrorV> {
    match e {
        Some(m) => Some(ApiErrorV::BadRequest(m)),
        None => None,
    }
}

/// Whether `key` may be overridden at runtime.
pub fn editable_key(key: &str) -> (b: bool)
    ensures
        b == is_editable_key(key@),
{
    let k = chars_of(key);
    chars_eq_str(&k, "scheduling.strategy") || chars_eq_str(&k, "scheduling.nvme_preference")
        || chars_eq_str(&k, "scheduling.branch_affinity") || chars_eq_str(
        &k,
        "workers.heartbeat_timeout_secs",
    ) || chars_eq_str(&k, "workers.reservation_timeout_secs") || chars_eq_str(
        &k,
        "workers.idle_timeout_secs",
    ) || chars_eq_str(&k, "workers.stall_timeout_secs") || chars_eq_str(&k, "logging.level")
        || chars_eq_str(&k, "logging.log_dir") || chars_eq_str(&k, "retention.max_age_days")
        || chars_eq_str(&k, "retention.max_builds_per_repo") || chars_eq_str(
        &k,
        "retention.t1_purge_files_after_days",
    ) || chars_eq_str(&k, "retention.t2_archive_after_days") || chars_eq_str(
        &k,
        "retention.t3_delete_archive_after_days",
    ) || chars_eq_str(&k, "retention.cleanup_interval_secs") || chars_eq_str(
        &k,
        "retention.enable_worker_fanout",
    ) || chars_eq_str(&k, "execution.work_dir") || chars_eq_str(&k, "execution.log_dir")
        || chars_eq_str(&k, "execution.repos_dir")
}

/// Accepts `true`/`false` in any ASCII case.
pub fn parse_bool(key: &str, value: &str) -> (r: Result<bool, ApiError>)
    ensures
        match bool_value(value@) {
            Some(b) => r == Ok::<bool, ApiError>(b),
            None => err_of(r) == Some(ApiErrorV::BadRequest(bool_error(key@))),
        },
{
    let v = chars_of(value);
    let l = lower_chars(&v);
    if chars_eq_str(&l, "true") {
        Ok(true)
    } else if chars_eq_str(&l, "false") {
        Ok(false)
    } else {
        Err(bad_request2(key, " must be 'true' or 'false'"))
    }
}

/// An absolute path without `..`.
pub fn validate_path(key: &str, value: &str) -> (r: Result<(), ApiError>)
    ensures
        err_of(r) == opt_bad_request(path_error(key@, value@)),
{
    let v = chars_of(value);
    if v.len() == 0 {
        return Err(bad_request2(key, " must not be empty"));
    }
    if v[0] != '/' {
        return Err(bad_request2(key, " must be an absolute path (start with /)"));
    }
    let dots = chars_of("..");
    if contains_chars(&v, &dots) {
        return Err(bad_request2(key, " must not contain '..'"));
    }
    Ok(())
}

/// An integer in `[min, max]`.
pub fn validate_int_range(key: &str, value: &str, min: i64, max: i64) -> (r: Result<(), ApiError>)
    ensures
        err_of(r) == opt_bad_request(int_range_error(key@, value@, min as int, max as int)),
{
    let v = chars_of(value);
    match parse_i64_chars(&v, 0, v.len()) {
        None => {
            assert(v@.subrange(0, v@.len() as int) == v@);
            Err(bad_request2(key, " must be an integer"))
        },
        Some(n) => {
            assert(v@.subrange(0, v@.len() as int) == v@);
            if n < min || n > max {
                let mut m = String::new();
                push_str(&mut m, key);
                push_str(&mut m, " must be between ");
                push_i64(&mut m, min);
                push_str(&mut m, " and ");
                push_i64(&mut m, max);
                assert(m@ =~= key@ + " must be between "@ + dec(min as int) + " and "@ + dec(
                    max as int,
                ));
                Err(ApiError::BadRequest(m))
            } else {
                Ok(())
            }
        },
    }
}

/// Checks `value` against the rule of `key`.
pub fn validate_setting_value(key: &str, value: &str) -> (r: Result<(), ApiError>)
    ensures
        err_of(r) == opt_bad_request(setting_error(key@, value@)),
{
    let k = chars_of(key);
    let v = chars_of(value);
    if chars_eq_str(&k, "scheduling.strategy") {
        if chars_eq_str(&v, "best-fit") || chars_eq_str(&v, "round-robin") {
            Ok(())
        } else {
            Err(bad_request("strategy must be 'best-fit' or 'round-robin'"))
        }
    } else if chars_eq_str(&k, "scheduling.nvme_preference") || chars_eq_str(
        &k,
        "scheduling.branch_affinity",
    ) {
        if chars_eq_str(&v, "true") || chars_eq_str(&v, "false") {
            Ok(())
        } else {
            Err(bad_request2(key, " must be 'true' or 'false'"))
        }
    } else if chars_eq_str(&k, "workers.heartbeat_timeout_secs") {
        validate_int_range(key, value, 5, 300)
    } else if chars_eq_str(&k, "workers.reservation_timeout_secs") || chars_eq_str(
        &k,
        "workers.idle_timeout_secs",
    ) || chars_eq_str(&k, "workers.stall_timeout_secs") {
        validate_int_range(key, value, 60, 86400)
    } else if chars_eq_str(&k, "logging.level") {
        if chars_eq_str(&v, "trace") || chars_eq_str(&v, "debug") || chars_eq_str(&v, "info")
            || chars_eq_str(&v, "warn") || chars_eq_str(&v, "error") {
            Ok(())
        } else {
            Err(bad_request("level must be one of: trace, debug, info, warn, error"))
        }
    } else if chars_eq_str(&k, "retention.max_age_days") {
        validate_int_range(key, value, 0, 3650)
    } else if chars_eq_str(&k, "retention.max_builds_per_repo") {
        validate_int_range(key, value, 100, 1000000)
    } else if chars_eq_str(&k, "retention.t1_purge_files_after_days") {
        validate_int_range(key, value, 1, 3650)
    } else if chars_eq_str(&k, "retention.t2_archive_after_days") {
        validate_int_range(key, value, 1, 3650)
    } else if chars_eq_str(&k, "retention.t3_delete_archive_after_days") {
        validate_int_range(key, value, 1, 36500)
    } else if chars_eq_str(&k, "retention.cleanup_interval_secs") {
        validate_int_range(key, value, 60, 86400)
    } else if chars_eq_str(&k, "retention.enable_worker_fanout") {
        match parse_bool(key, value) {
            Ok(_) => Ok(()),
            Err(e) => Err(e),
        }
    } else if chars_eq_str(&k, "logging.log_dir") || chars_eq_str(&k, "execution.work_dir")
        || chars_eq_str(&k, "execution.log_dir") || chars_eq_str(&k, "execution.repos_dir") {
        validate_path(key, value)
    } else {
        Ok(())
    }
}

/// The value in force for `key` and where it comes from: the stored override
/// (`"database"`), else the configuration file's value (`"config"`).
pub fn resolve(db: &Vec<(String, String)>, key: &str, config_val: &str) -> (r: (String, String))
    ensures
        match lookup(db@, key@) {
            Some(v) => r.0@ == v && r.1@ == "database"@,
            None => r.0@ == config_val@ && r.1@ == "config"@,
        },
{
    match find_entry(db, key) {
        Some(i) => (db[i].1.clone(), String::from_str("database")),
        None => (String::from_str(config_val), String::from_str("config")),
    }
}

/// Index of the entry that [`lookup`] reads.
fn find_entry(db: &Vec<(String, String)>, key: &str) -> (r: Option<usize>)
    ensures
        match r {
            Some(i) => i < db.len() && lookup(db@, key@) == Some(db@[i as int].1@),
            None => lookup(db@, key@) is None,
        },
{
    let target = String::from_str(key);
    let mut i: usize = 0;
    assert(db@.subrange(0, db.len() as int) == db@);
    while i < db.len()
        invariant
            i <= db.len(),
            target@ == key@,
            lookup(db@, key@) == lookup(db@.subrange(i as int, db.len() as int), key@),
        decreases db.len() - i,
    {
        let ghost rest = db@.subrange(i as int, db.len() as int);
        assert(rest[0] == db@[i as int]);
        assert(rest.drop_first() == db@.subrange(i + 1, db.len() as int));
        if db[i].0 == target {
            return Some(i);
        }
        i += 1;
    }
    None
}

/// The tier `k` with `proposed` put in for `key`.
fn tier(
    db: &Vec<(String, String)>,
    key: &str,
    proposed: u64,
    k: &str,
    default: u32,
) -> (r: Result<u64, ApiError>)
    ensures
        match tier_value(key@, proposed, db@, k@, default) {
            Ok(n) => r == Ok::<u64, ApiError>(n),
            Err(e) => err_of(r) == Some(e),
        },
{
    let kc = chars_of(key);
    if chars_eq_str(&kc, k) {
        return Ok(proposed);
    }
    match find_entry(db, k) {
        None => Ok(default as u64),
        Some(i) => {
            let v = chars_of(db[i].1.as_str());
            match parse_u64_chars(&v, 0, v.len()) {
                Some(n) => {
                    assert(v@.subrange(0, v@.len() as int) == v@);
                    Ok(n)
                },
                None => {
                    assert(v@.subrange(0, v@.len() as int) == v@);
                    let mut m = String::new();
                    push_str(&mut m, "stored ");
                    push_str(&mut m, k);
                    push_str(&mut m, " is not an integer: ");
                    push_str(&mut m, db[i].1.as_str());
                    assert(m@ =~= "stored "@ + k@ + " is not an integer: "@ + db@[i as int].1@);
                    Err(ApiError::Internal(m))
                },
            }
        },
    }
}

fn ordering_violation(head: &str, a: u64, mid: &str, b: u64) -> (e: ApiError)
    ensures
        e@ == ApiErrorV::BadRequest(head@ + dec(a as int) + mid@ + dec(b as int) + ")"@),
{
    let mut m = String::new();
    push_str(&mut m, head);
    push_u64(&mut m, a);
    push_str(&mut m, mid);
    push_u64(&mut m, b);
    push_str(&mut m, ")");
    assert(m@ =~= head@ + dec(a as int) + mid@ + dec(b as int) + ")"@);
    ApiError::BadRequest(m)
}

/// A numeric setting in force: the stored override when it reads as a
/// `u64`, else the configured `default`.
pub open spec fn u64_setting(db: Seq<(String, String)>, key: Seq<char>, default: u64) -> u64 {
    match lookup(db, key) {
        Some(v) => match parse_u64(v) {
            Some(n) => n,
            None => default,
        },
        None => default,
    }
}

pub fn setting_u64(db: &Vec<(String, String)>, key: &str, default: u64) -> (r: u64)
    ensures
        r == u64_setting(db@, key@, default),
{
    match find_entry(db, key) {
        Some(i) => {
            let v = chars_of(db[i].1.as_str());
            assert(v@.subrange(0, v@.len() as int) == v@);
            match parse_u64_chars(&v, 0, v.len()) {
                Some(n) => n,
                None => default,
            }
        },
        None => default,
    }
}

/// A switch in force: the stored override when it is exactly `true` or
/// `false`, else the configured `default`.
pub fn setting_bool(db: &Vec<(String, String)>, key: &str, default: bool) -> (r: bool)
    ensures
        r == match lookup(db@, key@) {
            Some(v) => if v == "true"@ {
                true
            } else if v == "false"@ {
                false
            } else {
                default
            },
            None => default,
        },
{
    match find_entry(db, key) {
        Some(i) => {
            let v = chars_of(db[i].1.as_str());
            if chars_eq_str(&v, "true") {
                true
            } else if chars_eq_str(&v, "false") {
                false
            } else {
                default
            }
        },
        None => default,
    }
}

/// Re-checks `t1 < t2 < t3` when `value` is proposed for one of the three
/// tier keys; the other two come from the stored overrides `db`, else from the
/// configured defaults `f1`, `f2`, `f3`.
pub fn check_tier_ordering(
    key: &str,
    value: &str,
    db: &Vec<(String, String)>,
    f1: u32,
    f2: u32,
    f3: u32,
) -> (r: Result<(), ApiError>)
    ensures
        err_of(r) == tier_ordering_error(key@, value@, db@, f1, f2, f3),
{
    let v = chars_of(value);
    let proposed = match parse_u64_chars(&v, 0, v.len()) {
        Some(p) => p,
        None => {
            assert(v@.subrange(0, v@.len() as int) == v@);
            return Err(bad_request2(key, " must be an integer"));
        },
    };
    assert(v@.subrange(0, v@.len() as int) == v@);
    let t1 = match tier(db, key, proposed, "retention.t1_purge_files_after_days", f1) {
        Ok(t) => t,
        Err(e) => return Err(e),
    };
    let t2 = match tier(db, key, proposed, "retention.t2_archive_after_days", f2) {
        Ok(t) => t,
        Err(e) => return Err(e),
    };
    let t3 = match tier(db, key, proposed, "retention.t3_delete_archive_after_days", f3) {
        Ok(t) => t,
        Err(e) => return Err(e),
    };
    if t1 >= t2 {
        return Err(
            ordering_violation("retention tier ordering violated: t1 (", t1, ") must be < t2 (", t2),
        );
    }
    if t2 >= t3 {
        return Err(
            ordering_violation("retention tier ordering violated: t2 (", t2, ") must be < t3 (", t3),
        );
    }
    Ok(())
}


/// One of the three retention tier keys.
pub open spec fn is_tier_key(key: Seq<char>) -> bool {
    ||| key == "retention.t1_purge_files_after_days"@
    ||| key == "retention.t2_archive_after_days"@
    ||| key == "retention.t3_delete_archive_after_days"@
}

/// The refusal of a runtime setting change (`key` and `value` as given in
/// the request), with the stored overrides `db` and the configured tier ages
/// `f1`, `f2`, `f3`; none when the change may be stored.
pub open spec fn setting_update_error(
    key: Option<Seq<char>>,
    value: Option<Seq<char>>,
    db: Seq<(String, String)>,
    f1: u32,
    f2: u32,
    f3: u32,
) -> Option<ApiErrorV> {
    match key {
        None => Some(ApiErrorV::BadRequest("key is required"@)),
        Some(k) => match value {
            None => Some(ApiErrorV::BadRequest("value is required"@)),
            Some(v) => if !is_editable_key(k) {
                Some(ApiErrorV::BadRequest("Setting '"@ + k + "' is not editable at runtime"@))
            } else if setting_error(k, v) is Some {
                opt_bad_request(setting_error(k, v))
            } else if is_tier_key(k) {
                tier_ordering_error(k, v, db, f1, f2, f3)
            } else {
                None
            },
        },
    }
}

/// Checks a runtime setting change before it is stored: both fields given,
/// an editable key, a valid value, and for a retention tier the ordering
/// `t1 < t2 < t3` with the other two ages in force.
pub fn check_setting_update(
    key: Option<&str>,
    value: Option<&str>,
    db: &Vec<(String, String)>,
    f1: u32,
    f2: u32,
    f3: u32,
) -> (r: Result<(), ApiError>)
    ensures
        err_of(r) == setting_update_error(
            match key {
                Some(k) => Some(k@),
                None => None,
            },
            match value {
                Some(v) => Some(v@),
                None => None,
            },
            db@,
            f1,
            f2,
            f3,
        ),
{
    let k = match key {
        None => return Err(bad_request("key is required")),
        Some(k) => k,
    };
    let v = match value {
        None => return Err(bad_request("value is required")),
        Some(v) => v,
    };
    if !editable_key(k) {
        let mut m = String::new();
        push_str(&mut m, "Setting '");
        push_str(&mut m, k);
        push_str(&mut m, "' is not editable at runtime");
        return Err(ApiError::BadRequest(m));
    }
    match validate_setting_value(k, v) {
        Err(e) => return Err(e),
        Ok(()) => {},
    }
    let kc = chars_of(k);
    if chars_eq_str(&kc, "retention.t1_purge_files_after_days") || chars_eq_str(
        &kc,
        "retention.t2_archive_after_days",
    ) || chars_eq_str(&kc, "retention.t3_delete_archive_after_days") {
        check_tier_ordering(k, v, db, f1, f2, f3)
    } else {
        Ok(())
    }
}

} // verus!
