//! ChQL → SQL compiler. Walks the [`Ast`] producing a parameterised SQL
//! fragment (with `?` placeholders) and an ordered list of binds. Column names
//! come from the [`Column`] allowlist; values always travel as binds.
use vstd::prelude::*;

use super::ast::{Ast, AstV, CmpOp, Value, ValueV};
use super::numeral::{canonical_numeral, float_text, is_float_text, push_canonical_numeral};
use crate::text::{chars_of, dec, push_char, push_str, push_u64};
use crate::time::{day_start, parse_rfc3339, parse_ymd, rfc3339_instant, start_of_day, ymd_day_number, UtcTime};

verus! {

#[derive(Debug, Clone, PartialEq)]
pub enum CompileError {
    UnknownField(String),
    OperatorNotSupported { field: String, op: CmpOp },
    InvalidDate(String),
}

/// The view of a `CompileError`.
pub enum CompileErrorV {
    UnknownField(Seq<char>),
    OperatorNotSupported(Seq<char>, CmpOp),
    InvalidDate(Seq<char>),
}

impl View for CompileError {
    type V = CompileErrorV;

    open spec fn view(&self) -> CompileErrorV {
        match self {
            CompileError::UnknownField(f) => CompileErrorV::UnknownField(f@),
            CompileError::OperatorNotSupported { field, op } => CompileErrorV::OperatorNotSupported(
                field@,
                *op,
            ),
            CompileError::InvalidDate(v) => CompileErrorV::InvalidDate(v@),
        }
    }
}

/// Name of a comparison operator as `Debug` writes it.
pub open spec fn op_name(op: CmpOp) -> Seq<char> {
    match op {
        CmpOp::Eq => "Eq"@,
        CmpOp::Neq => "Neq"@,
        CmpOp::Gt => "Gt"@,
        CmpOp::Gte => "Gte"@,
        CmpOp::Lt => "Lt"@,
        CmpOp::Lte => "Lte"@,
        CmpOp::IlikeContains => "IlikeContains"@,
        CmpOp::Regex => "Regex"@,
        CmpOp::Wildcard => "Wildcard"@,
    }
}

/// The text of `CompileError`'s `Display`.
pub open spec fn compile_error_text(e: CompileErrorV) -> Seq<char> {
    match e {
        CompileErrorV::UnknownField(name) => "Unknown field '"@ + name + "'"@,
        CompileErrorV::OperatorNotSupported(field, op) => "Operator "@ + op_name(op)
            + " not supported on field '"@ + field + "'"@,
        CompileErrorV::InvalidDate(v) => "Invalid date literal '"@ + v
            + "' (expected YYYY-MM-DD or RFC3339)"@,
    }
}

impl CompileError {
    /// The display text of this error.
    pub fn to_text(&self) -> (s: String)
        ensures
            s@ == compile_error_text(self@),
    {
        let mut s = String::new();
        match self {
            CompileError::UnknownField(name) => {
                push_str(&mut s, "Unknown field '");
                push_str(&mut s, name.as_str());
                push_str(&mut s, "'");
            },
            CompileError::OperatorNotSupported { field, op } => {
                push_str(&mut s, "Operator ");
                push_str(
                    &mut s,
                    match op {
                        CmpOp::Eq => "Eq",
                        CmpOp::Neq => "Neq",
                        CmpOp::Gt => "Gt",
                        CmpOp::Gte => "Gte",
                        CmpOp::Lt => "Lt",
                        CmpOp::Lte => "Lte",
                        CmpOp::IlikeContains => "IlikeContains",
                        CmpOp::Regex => "Regex",
                        CmpOp::Wildcard => "Wildcard",
                    },
                );
                push_str(&mut s, " not supported on field '");
                push_str(&mut s, field.as_str());
                push_str(&mut s, "'");
            },
            CompileError::InvalidDate(v) => {
                push_str(&mut s, "Invalid date literal '");
                push_str(&mut s, v.as_str());
                push_str(&mut s, "' (expected YYYY-MM-DD or RFC3339)");
            },
        }
        s
    }
}

/// Columns a query may filter on. This mapping is the only place SQL
/// identifiers come from.
#[derive(Debug, Clone, Copy, PartialEq, Eq, Structural)]
pub enum Column {
    State,
    Branch,
    /// Friendly repository name, resolved through a subquery on `repos`.
    Repo,
    RepoId,
    StageName,
    ExitCode,
    CreatedAt,
    CompletedAt,
}

pub open spec fn column_ident(c: Column) -> Seq<char> {
    match c {
        Column::State => "state"@,
        Column::Branch => "branch"@,
        Column::Repo => "repo_id"@,
        Column::RepoId => "repo_id"@,
        Column::StageName => "stage_name"@,
        Column::ExitCode => "exit_code"@,
        Column::CreatedAt => "created_at"@,
        Column::CompletedAt => "completed_at"@,
    }
}

pub open spec fn column_needs_jobs(c: Column) -> bool {
    c == Column::StageName || c == Column::ExitCode
}

/// The column a field name refers to.
pub open spec fn column_of(field: Seq<char>) -> Option<Column> {
    if field == "state"@ {
        Some(Column::State)
    } else if field == "branch"@ {
        Some(Column::Branch)
    } else if field == "repo"@ {
        Some(Column::Repo)
    } else if field == "repo_id"@ {
        Some(Column::RepoId)
    } else if field == "stage"@ {
        Some(Column::StageName)
    } else if field == "exit_code"@ {
        Some(Column::ExitCode)
    } else if field == "created_at"@ {
        Some(Column::CreatedAt)
    } else if field == "completed_at"@ {
        Some(Column::CompletedAt)
    } else {
        None
    }
}

impl Column {
    /// SQL identifier of this column in the `job_groups`-rooted query (the
    /// column inside the `jobs` subquery for stage and exit code).
    pub fn sql_ident(self) -> (s: &'static str)
        ensures
            s@ == column_ident(self),
    {
        match self {
            Column::State => "state",
            Column::Branch => "branch",
            Column::Repo => "repo_id",
            Column::RepoId => "repo_id",
            Column::StageName => "stage_name",
            Column::ExitCode => "exit_code",
            Column::CreatedAt => "created_at",
            Column::CompletedAt => "completed_at",
        }
    }

    /// True if filtering this column takes an EXISTS subquery on `jobs`.
    pub fn needs_jobs_subquery(self) -> (b: bool)
        ensures
            b == column_needs_jobs(self),
    {
        match self {
            Column::StageName | Column::ExitCode => true,
            _ => false,
        }
    }
}

/// The column named by `field`, or `UnknownField`.
pub fn resolve(field: &str) -> (r: Result<Column, CompileError>)
    ensures
        match r {
            Ok(c) => column_of(field@) == Some(c),
            Err(e) => column_of(field@) is None && e@ == CompileErrorV::UnknownField(field@),
        },
{
    let f = chars_of(field);
    if crate::text::chars_eq_str(&f, "state") {
        Ok(Column::State)
    } else if crate::text::chars_eq_str(&f, "branch") {
        Ok(Column::Branch)
    } else if crate::text::chars_eq_str(&f, "repo") {
        Ok(Column::Repo)
    } else if crate::text::chars_eq_str(&f, "repo_id") {
        Ok(Column::RepoId)
    } else if crate::text::chars_eq_str(&f, "stage") {
        Ok(Column::StageName)
    } else if crate::text::chars_eq_str(&f, "exit_code") {
        Ok(Column::ExitCode)
    } else if crate::text::chars_eq_str(&f, "created_at") {
        Ok(Column::CreatedAt)
    } else if crate::text::chars_eq_str(&f, "completed_at") {
        Ok(Column::CompletedAt)
    } else {
        Err(CompileError::UnknownField(String::from_str(field)))
    }
}

/// A value bound to a `?` placeholder. Numbers are numerals that
/// `str::parse::<f64>` accepts, kept as text.
#[derive(Debug, Clone, PartialEq)]
pub enum SqlBind {
    Str(String),
    Num(String),
    /// A date or datetime, as a UTC instant.
    Date(UtcTime),
}

/// The view of a `SqlBind`.
pub enum BindV {
    Str(Seq<char>),
    Num(Seq<char>),
    Date(UtcTime),
}

impl View for SqlBind {
    type V = BindV;

    open spec fn view(&self) -> BindV {
        match self {
            SqlBind::Str(s) => BindV::Str(s@),
            SqlBind::Num(n) => BindV::Num(n@),
            SqlBind::Date(d) => BindV::Date(*d),
        }
    }
}

/// SQL text with `?` placeholders, one per bind, left to right.
#[derive(Debug, Clone, PartialEq)]
pub struct SqlFragment {
    pub sql: String,
    pub binds: Vec<SqlBind>,
}

/// The view of a `SqlFragment`.
pub struct FragV {
    pub sql: Seq<char>,
    pub binds: Seq<BindV>,
}

pub open spec fn binds_view(b: Seq<SqlBind>) -> Seq<BindV> {
    b.map_values(|x: SqlBind| x@)
}

impl View for SqlFragment {
    type V = FragV;

    open spec fn view(&self) -> FragV {
        FragV { sql: self.sql@, binds: binds_view(self.binds@) }
    }
}

// ── Placeholder renumbering ─────────────────────────────────────────────────
/// Number of `?` in `s`.
pub open spec fn count_q(s: Seq<char>) -> nat
    decreases s.len(),
{
    if s.len() == 0 {
        0
    } else {
        count_q(s.drop_first()) + if s[0] == '?' {
            1nat
        } else {
            0nat
        }
    }
}

/// `s` with its `?` placeholders numbered `$idx`, `$idx+1`, ….
pub open spec fn pg_from(s: Seq<char>, idx: int) -> Seq<char>
    decreases s.len(),
{
    if s.len() == 0 {
        seq![]
    } else if s[0] == '?' {
        seq!['$'] + dec(idx) + pg_from(s.drop_first(), idx + 1)
    } else {
        seq![s[0]] + pg_from(s.drop_first(), idx)
    }
}

proof fn lemma_pg_step(s: Seq<char>, i: int, idx: int)
    requires
        0 <= i < s.len(),
    ensures
        pg_from(s.subrange(i, s.len() as int), idx) == (if s[i] == '?' {
            seq!['$'] + dec(idx) + pg_from(s.subrange(i + 1, s.len() as int), idx + 1)
        } else {
            seq![s[i]] + pg_from(s.subrange(i + 1, s.len() as int), idx)
        }),
        count_q(s.subrange(i, s.len() as int)) == count_q(s.subrange(i + 1, s.len() as int)) + (
        if s[i] == '?' {
            1int
        } else {
            0int
        }),
{
    assert(s.subrange(i, s.len() as int).drop_first() == s.subrange(i + 1, s.len() as int));
}

impl SqlFragment {
    /// Converts `?` placeholders to Postgres `$N` form, numbering from
    /// `start_idx`. Returns the SQL and the next free number.
    pub fn to_pg(&self, start_idx: usize) -> (r: (String, usize))
        requires
            start_idx + count_q(self.sql@) <= usize::MAX,
        ensures
            r.0@ == pg_from(self.sql@, start_idx as int),
            r.1 == start_idx + count_q(self.sql@),
    {
        let s = chars_of(self.sql.as_str());
        let ghost g = s@;
        let mut out = String::new();
        let mut idx = start_idx;
        let mut i: usize = 0;
        assert(g.subrange(0, g.len() as int) == g);
        while i < s.len()
            invariant
                g == s@,
                g == self.sql@,
                i <= s.len(),
                start_idx <= idx,
                idx + count_q(g.subrange(i as int, g.len() as int)) == start_idx + count_q(g),
                start_idx + count_q(g) <= usize::MAX,
                pg_from(g, start_idx as int) == out@ + pg_from(
                    g.subrange(i as int, g.len() as int),
                    idx as int,
                ),
            decreases s.len() - i,
        {
            proof {
                lemma_pg_step(g, i as int, idx as int);
            }
            let ghost before = out@;
            if s[i] == '?' {
                push_char(&mut out, '$');
                push_u64(&mut out, idx as u64);
                assert(dec(idx as int) == crate::text::dec_digits(idx as nat));
                assert(out@ == before + (seq!['$'] + dec(idx as int)));
                idx = idx + 1;
            } else {
                push_char(&mut out, s[i]);
                assert(out@ == before + seq![g[i as int]]);
            }
            i = i + 1;
        }
        assert(g.subrange(i as int, g.len() as int).len() == 0);
        (out, idx)
    }
}

// ── Specification of the compiler ───────────────────────────────────────────
pub open spec fn op_sql(op: CmpOp) -> Seq<char> {
    match op {
        CmpOp::Eq => "="@,
        CmpOp::Neq => "<>"@,
        CmpOp::Gt => ">"@,
        CmpOp::Gte => ">="@,
        CmpOp::Lt => "<"@,
        CmpOp::Lte => "<="@,
        _ => ""@,
    }
}

pub open spec fn is_relational(op: CmpOp) -> bool {
    op == CmpOp::Eq || op == CmpOp::Neq || op == CmpOp::Gt || op == CmpOp::Gte || op
        == CmpOp::Lt || op == CmpOp::Lte
}

/// The text of a value: strings and dates as written, numbers in canonical form.
pub open spec fn value_text(v: ValueV) -> Seq<char> {
    match v {
        ValueV::Str(s) => s,
        ValueV::Date(s) => s,
        ValueV::Num(n) => canonical_numeral(n),
    }
}

pub open spec fn star_to_percent(s: Seq<char>) -> Seq<char> {
    s.map_values(|c: char| if c == '*' {
        '%'
    } else {
        c
    })
}

/// A numeric bind from a value: numerals as they are, strings when
/// `str::parse::<f64>` accepts them; otherwise `InvalidDate`.
pub open spec fn bind_number(v: ValueV) -> Result<BindV, CompileErrorV> {
    match v {
        ValueV::Num(n) => Ok(BindV::Num(n)),
        ValueV::Str(s) => if is_float_text(s) {
            Ok(BindV::Num(s))
        } else {
            Err(CompileErrorV::InvalidDate(s))
        },
        ValueV::Date(s) => Err(CompileErrorV::InvalidDate(s)),
    }
}

/// A date bind from text, given what the RFC 3339 reader and the
/// `YYYY-MM-DD` reader make of it: RFC 3339 first, then a date at midnight UTC.
pub open spec fn date_bind_of(
    text: Seq<char>,
    rfc3339: Option<(i64, u32)>,
    day: Option<i32>,
) -> Result<BindV, CompileErrorV> {
    match rfc3339 {
        Some((s, n)) => Ok(BindV::Date(UtcTime { secs: s, nanos: n })),
        None => match day {
            Some(d) => Ok(BindV::Date(UtcTime { secs: day_start(d as int) as i64, nanos: 0 })),
            None => Err(CompileErrorV::InvalidDate(text)),
        },
    }
}

pub open spec fn date_bind(text: Seq<char>) -> Result<BindV, CompileErrorV> {
    date_bind_of(text, rfc3339_instant(text), ymd_day_number(text))
}

/// The bind for a relational comparison on `col`.
pub open spec fn bind_for(col: Column, v: ValueV) -> Result<BindV, CompileErrorV> {
    if col == Column::CreatedAt || col == Column::CompletedAt {
        match v {
            ValueV::Date(s) => date_bind(s),
            ValueV::Str(s) => date_bind(s),
            ValueV::Num(_) => Err(CompileErrorV::InvalidDate("(number)"@)),
        }
    } else if col == Column::ExitCode {
        bind_number(v)
    } else {
        Ok(BindV::Str(value_text(v)))
    }
}

pub open spec fn frag(sql: Seq<char>, binds: Seq<BindV>) -> FragV {
    FragV { sql, binds }
}

pub open spec fn jobs_prefix() -> Seq<char> {
    "EXISTS (SELECT 1 FROM jobs j_q WHERE j_q.job_group_id = job_groups.id AND j_q."@
}

pub open spec fn compile_repo_spec(op: CmpOp, v: ValueV) -> Result<FragV, CompileErrorV> {
    if op == CmpOp::Eq || op == CmpOp::Neq {
        let cmp_kw = if op == CmpOp::Neq {
            "NOT IN"@
        } else {
            "IN"@
        };
        Ok(
            frag(
                "repo_id "@ + cmp_kw + " (SELECT id FROM repos WHERE repo_name = ?)"@,
                seq![BindV::Str(value_text(v))],
            ),
        )
    } else {
        Err(CompileErrorV::OperatorNotSupported("repo"@, op))
    }
}

pub open spec fn compile_jobs_spec(col: Column, op: CmpOp, v: ValueV, field: Seq<char>) -> Result<
    FragV,
    CompileErrorV,
> {
    let sql = jobs_prefix() + column_ident(col) + " "@ + op_sql(op) + " ?)"@;
    if col == Column::StageName && (op == CmpOp::Eq || op == CmpOp::Neq) {
        Ok(frag(sql, seq![BindV::Str(value_text(v))]))
    } else if col == Column::ExitCode && is_relational(op) {
        match bind_number(v) {
            Ok(b) => Ok(frag(sql, seq![b])),
            Err(e) => Err(e),
        }
    } else {
        Err(CompileErrorV::OperatorNotSupported(field, op))
    }
}

pub open spec fn compile_cmp_spec(field: Seq<char>, op: CmpOp, v: ValueV) -> Result<
    FragV,
    CompileErrorV,
> {
    match column_of(field) {
        None => Err(CompileErrorV::UnknownField(field)),
        Some(col) => if col == Column::Repo {
            compile_repo_spec(op, v)
        } else if column_needs_jobs(col) {
            compile_jobs_spec(col, op, v, field)
        } else {
            let ident = column_ident(col);
            if is_relational(op) {
                match bind_for(col, v) {
                    Ok(b) => Ok(frag(ident + " "@ + op_sql(op) + " ?"@, seq![b])),
                    Err(e) => Err(e),
                }
            } else if op == CmpOp::IlikeContains {
                Ok(frag(ident + " ILIKE '%' || ? || '%'"@, seq![BindV::Str(value_text(v))]))
            } else if op == CmpOp::Regex {
                Ok(frag(ident + " ~ ?"@, seq![BindV::Str(value_text(v))]))
            } else {
                Ok(frag(ident + " ILIKE ?"@, seq![BindV::Str(star_to_percent(value_text(v)))]))
            }
        },
    }
}

pub open spec fn compile_range_spec(field: Seq<char>, lo: ValueV, hi: ValueV) -> Result<
    FragV,
    CompileErrorV,
> {
    match column_of(field) {
        None => Err(CompileErrorV::UnknownField(field)),
        Some(col) => if column_needs_jobs(col) {
            match bind_number(lo) {
                Err(e) => Err(e),
                Ok(lb) => match bind_number(hi) {
                    Err(e) => Err(e),
                    Ok(hb) => Ok(
                        frag(
                            "EXISTS (SELECT 1 FROM jobs j_q WHERE j_q.job_group_id = job_groups.id AND j_q.exit_code BETWEEN ? AND ?)"@,
                            seq![lb, hb],
                        ),
                    ),
                },
            }
        } else {
            match bind_for(col, lo) {
                Err(e) => Err(e),
                Ok(lb) => match bind_for(col, hi) {
                    Err(e) => Err(e),
                    Ok(hb) => Ok(frag(column_ident(col) + " BETWEEN ? AND ?"@, seq![lb, hb])),
                },
            }
        },
    }
}

/// What `compile` returns for an expression.
pub open spec fn spec_compile(a: AstV) -> Result<FragV, CompileErrorV>
    decreases a,
{
    match a {
        AstV::And(l, r) => match spec_compile(*l) {
            Err(e) => Err(e),
            Ok(lf) => match spec_compile(*r) {
                Err(e) => Err(e),
                Ok(rf) => Ok(frag("("@ + lf.sql + ") AND ("@ + rf.sql + ")"@, lf.binds + rf.binds)),
            },
        },
        AstV::Or(l, r) => match spec_compile(*l) {
            Err(e) => Err(e),
            Ok(lf) => match spec_compile(*r) {
                Err(e) => Err(e),
                Ok(rf) => Ok(frag("("@ + lf.sql + ") OR ("@ + rf.sql + ")"@, lf.binds + rf.binds)),
            },
        },
        AstV::Not(x) => match spec_compile(*x) {
            Err(e) => Err(e),
            Ok(xf) => Ok(frag("NOT ("@ + xf.sql + ")"@, xf.binds)),
        },
        AstV::Cmp(field, op, v) => compile_cmp_spec(field, op, v),
        AstV::InRange(field, lo, hi) => compile_range_spec(field, lo, hi),
    }
}

// ── Executable compiler ─────────────────────────────────────────────────────
fn lit(s: &str) -> (r: String)
    ensures
        r@ == s@,
{
    String::from_str(s)
}

/// The text of a value.
fn value_to_string(value: &Value) -> (s: String)
    ensures
        s@ == value_text(value@),
{
    match value {
        Value::Str { v } => v.clone(),
        Value::Date { v } => v.clone(),
        Value::Num { v } => {
            let mut s = String::new();
            let c = chars_of(v.as_str());
            push_canonical_numeral(&mut s, &c);
            s
        },
    }
}

fn value_to_bind_string(value: &Value) -> (b: SqlBind)
    ensures
        b@ == BindV::Str(value_text(value@)),
{
    SqlBind::Str(value_to_string(value))
}

fn value_to_bind_number(value: &Value) -> (r: Result<SqlBind, CompileError>)
    ensures
        match r {
            Ok(b) => bind_number(value@) == Ok::<_, CompileErrorV>(b@),
            Err(e) => bind_number(value@) == Err::<BindV, _>(e@),
        },
{
    match value {
        Value::Num { v } => Ok(SqlBind::Num(v.clone())),
        Value::Str { v } => {
            let c = chars_of(v.as_str());
            if float_text(&c) {
                Ok(SqlBind::Num(v.clone()))
            } else {
                Err(CompileError::InvalidDate(v.clone()))
            }
        },
        Value::Date { v } => Err(CompileError::InvalidDate(v.clone())),
    }
}

/// The bind for a date column given what the two date readers made of the
/// text: the RFC 3339 instant if any, else midnight UTC of the `YYYY-MM-DD`
/// day, else `InvalidDate`.
pub fn date_bind_from(text: &str, rfc3339: Option<(i64, u32)>, day: Option<i32>) -> (r: Result<
    SqlBind,
    CompileError,
>)
    requires
        day matches Some(d) ==> -95746129 <= d <= 95745399,
    ensures
        match r {
            Ok(b) => date_bind_of(text@, rfc3339, day) == Ok::<_, CompileErrorV>(b@),
            Err(e) => date_bind_of(text@, rfc3339, day) == Err::<BindV, _>(e@),
        },
{
    match rfc3339 {
        Some((s, n)) => Ok(SqlBind::Date(UtcTime { secs: s, nanos: n })),
        None => match day {
            Some(d) => Ok(SqlBind::Date(start_of_day(d))),
            None => Err(CompileError::InvalidDate(String::from_str(text))),
        },
    }
}

/// Reads `text` as an RFC 3339 instant or a `YYYY-MM-DD` date (midnight UTC).
fn parse_date_bind(text: &str) -> (r: Result<SqlBind, CompileError>)
    ensures
        match r {
            Ok(b) => date_bind(text@) == Ok::<_, CompileErrorV>(b@),
            Err(e) => date_bind(text@) == Err::<BindV, _>(e@),
        },
{
    let rfc = parse_rfc3339(text);
    match rfc {
        Some(_) => date_bind_from(text, rfc, None),
        None => {
            let day = parse_ymd(text);
            date_bind_from(text, None, day)
        },
    }
}

fn value_to_bind(col: Column, value: &Value) -> (r: Result<SqlBind, CompileError>)
    ensures
        match r {
            Ok(b) => bind_for(col, value@) == Ok::<_, CompileErrorV>(b@),
            Err(e) => bind_for(col, value@) == Err::<BindV, _>(e@),
        },
{
    match col {
        Column::CreatedAt | Column::CompletedAt => match value {
            Value::Date { v } => parse_date_bind(v.as_str()),
            Value::Str { v } => parse_date_bind(v.as_str()),
            Value::Num { .. } => Err(CompileError::InvalidDate(lit("(number)"))),
        },
        Column::ExitCode => value_to_bind_number(value),
        _ => Ok(value_to_bind_string(value)),
    }
}

fn one_bind(b: SqlBind) -> (v: Vec<SqlBind>)
    ensures
        binds_view(v@) == seq![b@],
{
    let mut v = Vec::new();
    v.push(b);
    assert(binds_view(v@) =~= seq![b@]);
    v
}

fn two_binds(a: SqlBind, b: SqlBind) -> (v: Vec<SqlBind>)
    ensures
        binds_view(v@) == seq![a@, b@],
{
    let mut v = Vec::new();
    v.push(a);
    v.push(b);
    assert(binds_view(v@) =~= seq![a@, b@]);
    v
}

fn op_sql_str(op: CmpOp) -> (s: &'static str)
    ensures
        s@ == op_sql(op),
{
    match op {
        CmpOp::Eq => "=",
        CmpOp::Neq => "<>",
        CmpOp::Gt => ">",
        CmpOp::Gte => ">=",
        CmpOp::Lt => "<",
        CmpOp::Lte => "<=",
        _ => "",
    }
}

fn compile_repo_name(op: CmpOp, value: &Value) -> (r: Result<SqlFragment, CompileError>)
    ensures
        match r {
            Ok(f) => compile_repo_spec(op, value@) == Ok::<_, CompileErrorV>(f@),
            Err(e) => compile_repo_spec(op, value@) == Err::<FragV, _>(e@),
        },
{
    if !(op == CmpOp::Eq || op == CmpOp::Neq) {
        return Err(CompileError::OperatorNotSupported { field: lit("repo"), op });
    }
    let bind = value_to_bind_string(value);
    let mut sql = String::new();
    push_str(&mut sql, "repo_id ");
    push_str(
        &mut sql,
        if op == CmpOp::Neq {
            "NOT IN"
        } else {
            "IN"
        },
    );
    push_str(&mut sql, " (SELECT id FROM repos WHERE repo_name = ?)");
    Ok(SqlFragment { sql, binds: one_bind(bind) })
}

fn compile_jobs_subquery(col: Column, op: CmpOp, value: &Value, field: &str) -> (r: Result<
    SqlFragment,
    CompileError,
>)
    ensures
        match r {
            Ok(f) => compile_jobs_spec(col, op, value@, field@) == Ok::<_, CompileErrorV>(f@),
            Err(e) => compile_jobs_spec(col, op, value@, field@) == Err::<FragV, _>(e@),
        },
{
    let stage_ok = col == Column::StageName && (op == CmpOp::Eq || op == CmpOp::Neq);
    let exit_ok = col == Column::ExitCode && (op == CmpOp::Eq || op == CmpOp::Neq || op
        == CmpOp::Gt || op == CmpOp::Gte || op == CmpOp::Lt || op == CmpOp::Lte);
    let bind = if stage_ok {
        value_to_bind_string(value)
    } else if exit_ok {
        match value_to_bind_number(value) {
            Ok(b) => b,
            Err(e) => {
                return Err(e);
            },
        }
    } else {
        return Err(CompileError::OperatorNotSupported { field: String::from_str(field), op });
    };
    let mut sql = String::new();
    push_str(&mut sql, "EXISTS (SELECT 1 FROM jobs j_q WHERE j_q.job_group_id = job_groups.id AND j_q.");
    push_str(&mut sql, col.sql_ident());
    push_str(&mut sql, " ");
    push_str(&mut sql, op_sql_str(op));
    push_str(&mut sql, " ?)");
    Ok(SqlFragment { sql, binds: one_bind(bind) })
}

fn replace_star(s: &String) -> (r: String)
    ensures
        r@ == star_to_percent(s@),
{
    let c = chars_of(s.as_str());
    let mut r = String::new();
    let mut i: usize = 0;
    while i < c.len()
        invariant
            i <= c.len(),
            c@ == s@,
            r@ == star_to_percent(c@.subrange(0, i as int)),
        decreases c.len() - i,
    {
        let ch = if c[i] == '*' {
            '%'
        } else {
            c[i]
        };
        push_char(&mut r, ch);
        i += 1;
        assert(star_to_percent(c@.subrange(0, i as int)) =~= star_to_percent(
            c@.subrange(0, i - 1),
        ).push(ch));
    }
    assert(c@.subrange(0, c.len() as int) == c@);
    r
}

fn compile_cmp(field: &str, op: CmpOp, value: &Value) -> (r: Result<SqlFragment, CompileError>)
    ensures
        match r {
            Ok(f) => compile_cmp_spec(field@, op, value@) == Ok::<_, CompileErrorV>(f@),
            Err(e) => compile_cmp_spec(field@, op, value@) == Err::<FragV, _>(e@),
        },
{
    let col = match resolve(field) {
        Ok(c) => c,
        Err(e) => {
            return Err(e);
        },
    };
    if col == Column::Repo {
        return compile_repo_name(op, value);
    }
    if col.needs_jobs_subquery() {
        return compile_jobs_subquery(col, op, value, field);
    }
    let ident = col.sql_ident();
    let mut sql = String::new();
    push_str(&mut sql, ident);
    match op {
        CmpOp::IlikeContains => {
            push_str(&mut sql, " ILIKE '%' || ? || '%'");
            Ok(SqlFragment { sql, binds: one_bind(value_to_bind_string(value)) })
        },
        CmpOp::Regex => {
            push_str(&mut sql, " ~ ?");
            Ok(SqlFragment { sql, binds: one_bind(value_to_bind_string(value)) })
        },
        CmpOp::Wildcard => {
            let s = value_to_string(value);
            let pat = replace_star(&s);
            push_str(&mut sql, " ILIKE ?");
            Ok(SqlFragment { sql, binds: one_bind(SqlBind::Str(pat)) })
        },
        _ => {
            let bind = match value_to_bind(col, value) {
                Ok(b) => b,
                Err(e) => {
                    return Err(e);
                },
            };
            push_str(&mut sql, " ");
            push_str(&mut sql, op_sql_str(op));
            push_str(&mut sql, " ?");
            Ok(SqlFragment { sql, binds: one_bind(bind) })
        },
    }
}

fn compile_range(field: &str, lo: &Value, hi: &Value) -> (r: Result<SqlFragment, CompileError>)
    ensures
        match r {
            Ok(f) => compile_range_spec(field@, lo@, hi@) == Ok::<_, CompileErrorV>(f@),
            Err(e) => compile_range_spec(field@, lo@, hi@) == Err::<FragV, _>(e@),
        },
{
    let col = match resolve(field) {
        Ok(c) => c,
        Err(e) => {
            return Err(e);
        },
    };
    if col.needs_jobs_subquery() {
        let lo_b = match value_to_bind_number(lo) {
            Ok(b) => b,
            Err(e) => {
                return Err(e);
            },
        };
        let hi_b = match value_to_bind_number(hi) {
            Ok(b) => b,
            Err(e) => {
                return Err(e);
            },
        };
        return Ok(
            SqlFragment {
                sql: lit(
                    "EXISTS (SELECT 1 FROM jobs j_q WHERE j_q.job_group_id = job_groups.id AND j_q.exit_code BETWEEN ? AND ?)",
                ),
                binds: two_binds(lo_b, hi_b),
            },
        );
    }
    let lo_b = match value_to_bind(col, lo) {
        Ok(b) => b,
        Err(e) => {
            return Err(e);
        },
    };
    let hi_b = match value_to_bind(col, hi) {
        Ok(b) => b,
        Err(e) => {
            return Err(e);
        },
    };
    let mut sql = String::new();
    push_str(&mut sql, col.sql_ident());
    push_str(&mut sql, " BETWEEN ? AND ?");
    Ok(SqlFragment { sql, binds: two_binds(lo_b, hi_b) })
}

fn append_binds(a: Vec<SqlBind>, b: Vec<SqlBind>) -> (r: Vec<SqlBind>)
    ensures
        binds_view(r@) == binds_view(a@) + binds_view(b@),
{
    let mut a = a;
    let mut b = b;
    let ghost a0 = a@;
    let ghost b0 = b@;
    a.append(&mut b);
    assert(a@ == a0 + b0);
    assert(binds_view(a@) =~= binds_view(a0) + binds_view(b0));
    a
}

/// Compile an [`Ast`] to a [`SqlFragment`].
pub fn compile(ast: &Ast) -> (r: Result<SqlFragment, CompileError>)
    ensures
        match r {
            Ok(f) => spec_compile(ast@) == Ok::<_, CompileErrorV>(f@),
            Err(e) => spec_compile(ast@) == Err::<FragV, _>(e@),
        },
    decreases ast,
{
    match ast {
        Ast::And { left, right } => {
            let l = match compile(left) {
                Ok(f) => f,
                Err(e) => {
                    return Err(e);
                },
            };
            let r = match compile(right) {
                Ok(f) => f,
                Err(e) => {
                    return Err(e);
                },
            };
            let mut sql = String::new();
            push_str(&mut sql, "(");
            push_str(&mut sql, l.sql.as_str());
            push_str(&mut sql, ") AND (");
            push_str(&mut sql, r.sql.as_str());
            push_str(&mut sql, ")");
            Ok(SqlFragment { sql, binds: append_binds(l.binds, r.binds) })
        },
        Ast::Or { left, right } => {
            let l = match compile(left) {
                Ok(f) => f,
                Err(e) => {
                    return Err(e);
                },
            };
            let r = match compile(right) {
                Ok(f) => f,
                Err(e) => {
                    return Err(e);
                },
            };
            let mut sql = String::new();
            push_str(&mut sql, "(");
            push_str(&mut sql, l.sql.as_str());
            push_str(&mut sql, ") OR (");
            push_str(&mut sql, r.sql.as_str());
            push_str(&mut sql, ")");
            Ok(SqlFragment { sql, binds: append_binds(l.binds, r.binds) })
        },
        Ast::Not { expr } => {
            let inner = match compile(expr) {
                Ok(f) => f,
                Err(e) => {
                    return Err(e);
                },
            };
            let mut sql = String::new();
            push_str(&mut sql, "NOT (");
            push_str(&mut sql, inner.sql.as_str());
            push_str(&mut sql, ")");
            Ok(SqlFragment { sql, binds: inner.binds })
        },
        Ast::Cmp { field, op, value } => compile_cmp(field.as_str(), *op, value),
        Ast::InRange { field, lo, hi } => compile_range(field.as_str(), lo, hi),
    }
}


// ── Laws ────────────────────────────────────────────────────────────────────
/// Two expressions of the same shape: the same operators over the same
/// fields and comparison operators, whatever the values compared with.
pub open spec fn same_shape(a: AstV, b: AstV) -> bool
    decreases a,
{
    match a {
        AstV::And(l1, r1) => match b {
            AstV::And(l2, r2) => same_shape(*l1, *l2) && same_shape(*r1, *r2),
            _ => false,
        },
        AstV::Or(l1, r1) => match b {
            AstV::Or(l2, r2) => same_shape(*l1, *l2) && same_shape(*r1, *r2),
            _ => false,
        },
        AstV::Not(x1) => match b {
            AstV::Not(x2) => same_shape(*x1, *x2),
            _ => false,
        },
        AstV::Cmp(f1, o1, _) => match b {
            AstV::Cmp(f2, o2, _) => f1 == f2 && o1 == o2,
            _ => false,
        },
        AstV::InRange(f1, _, _) => match b {
            AstV::InRange(f2, _, _) => f1 == f2,
            _ => false,
        },
    }
}

/// No value a user writes reaches the SQL text: two expressions that differ
/// only in their values compile (when both compile) to the same SQL; the
/// values travel in the binds.
pub proof fn law_sql_independent_of_values(a: AstV, b: AstV)
    requires
        same_shape(a, b),
    ensures
        match (spec_compile(a), spec_compile(b)) {
            (Ok(fa), Ok(fb)) => fa.sql == fb.sql,
            _ => true,
        },
    decreases a,
{
    match a {
        AstV::And(l1, r1) => match b {
            AstV::And(l2, r2) => {
                law_sql_independent_of_values(*l1, *l2);
                law_sql_independent_of_values(*r1, *r2);
            },
            _ => {},
        },
        AstV::Or(l1, r1) => match b {
            AstV::Or(l2, r2) => {
                law_sql_independent_of_values(*l1, *l2);
                law_sql_independent_of_values(*r1, *r2);
            },
            _ => {},
        },
        AstV::Not(x1) => match b {
            AstV::Not(x2) => {
                law_sql_independent_of_values(*x1, *x2);
            },
            _ => {},
        },
        _ => {},
    }
}



/// `count_q` adds up over concatenation.
proof fn lemma_count_concat(a: Seq<char>, b: Seq<char>)
    ensures
        count_q(a + b) == count_q(a) + count_q(b),
    decreases a.len(),
{
    if a.len() > 0 {
        assert((a + b).drop_first() =~= a.drop_first() + b);
        lemma_count_concat(a.drop_first(), b);
    } else {
        assert(a + b =~= b);
    }
}

/// `s` holds `?` exactly at the increasing positions `ps`.
proof fn lemma_count_exact(s: Seq<char>, ps: Seq<int>)
    requires
        forall|k: int| 0 <= k < ps.len() ==> 0 <= #[trigger] ps[k] < s.len() && s[ps[k]] == '?',
        forall|k: int, l: int| 0 <= k < l < ps.len() ==> #[trigger] ps[k] < #[trigger] ps[l],
        forall|i: int| 0 <= i < s.len() && s[i] == '?' ==> #[trigger] ps.contains(i),
    ensures
        count_q(s) == ps.len(),
    decreases s.len(),
{
    if s.len() == 0 {
        if ps.len() > 0 {
            assert(0 <= ps[0] < s.len());
        }
    } else {
        let t = s.drop_first();
        if s[0] == '?' {
            assert(ps.contains(0));
            let k0 = choose|k: int| 0 <= k < ps.len() && ps[k] == 0;
            if k0 > 0 {
                assert(ps[0] < ps[k0]);
                assert(0 <= ps[0]);
            }
            let qs = ps.drop_first().map_values(|p: int| p - 1);
            assert forall|i: int| 0 <= i < t.len() && t[i] == '?' implies #[trigger] qs.contains(i) by {
                assert(s[i + 1] == '?');
                assert(ps.contains(i + 1));
                let k = choose|k: int| 0 <= k < ps.len() && ps[k] == i + 1;
                assert(k != 0);
                assert(qs[k - 1] == i);
            }
            assert forall|k: int, l: int| 0 <= k < l < qs.len() implies #[trigger] qs[k] < #[trigger] qs[l] by {
                assert(ps[k + 1] < ps[l + 1]);
            }
            assert forall|k: int| 0 <= k < qs.len() implies 0 <= #[trigger] qs[k] < t.len() && t[qs[k]] == '?' by {
                assert(ps[0] < ps[k + 1]);
            }
            lemma_count_exact(t, qs);
        } else {
            let qs = ps.map_values(|p: int| p - 1);
            assert forall|i: int| 0 <= i < t.len() && t[i] == '?' implies #[trigger] qs.contains(i) by {
                assert(s[i + 1] == '?');
                assert(ps.contains(i + 1));
                let k = choose|k: int| 0 <= k < ps.len() && ps[k] == i + 1;
                assert(qs[k] == i);
            }
            assert forall|k: int, l: int| 0 <= k < l < qs.len() implies #[trigger] qs[k] < #[trigger] qs[l] by {
                assert(ps[k] < ps[l]);
            }
            assert forall|k: int| 0 <= k < qs.len() implies 0 <= #[trigger] qs[k] < t.len() && t[qs[k]] == '?' by {
                assert(ps[k] != 0);
                assert(0 <= ps[k]);
            }
            lemma_count_exact(t, qs);
        }
    }
}

proof fn lemma_no_q(s: Seq<char>)
    requires
        forall|i: int| 0 <= i < s.len() ==> s[i] != '?',
    ensures
        count_q(s) == 0,
{
    lemma_count_exact(s, seq![]);
}

proof fn lemma_one_q(s: Seq<char>, p: int)
    requires
        0 <= p < s.len(),
        s[p] == '?',
        forall|i: int| 0 <= i < s.len() && s[i] == '?' ==> i == p,
    ensures
        count_q(s) == 1,
{
    let ps = seq![p];
    assert forall|i: int| 0 <= i < s.len() && s[i] == '?' implies #[trigger] ps.contains(i) by {
        assert(ps[0] == i);
    }
    lemma_count_exact(s, ps);
}

proof fn lemma_two_q(s: Seq<char>, p: int, q: int)
    requires
        0 <= p < q < s.len(),
        s[p] == '?',
        s[q] == '?',
        forall|i: int| 0 <= i < s.len() && s[i] == '?' ==> i == p || i == q,
    ensures
        count_q(s) == 2,
{
    let ps = seq![p, q];
    assert forall|i: int| 0 <= i < s.len() && s[i] == '?' implies #[trigger] ps.contains(i) by {
        if i == p {
            assert(ps[0] == i);
        } else {
            assert(ps[1] == i);
        }
    }
    lemma_count_exact(s, ps);
}

proof fn lemma_column_ident_no_q(c: Column)
    ensures
        count_q(column_ident(c)) == 0,
{
    reveal_strlit("state");
    reveal_strlit("branch");
    reveal_strlit("repo_id");
    reveal_strlit("stage_name");
    reveal_strlit("exit_code");
    reveal_strlit("created_at");
    reveal_strlit("completed_at");
    lemma_no_q(column_ident(c));
}

proof fn lemma_op_sql_no_q(op: CmpOp)
    ensures
        count_q(op_sql(op)) == 0,
{
    reveal_strlit("=");
    reveal_strlit("<>");
    reveal_strlit(">");
    reveal_strlit(">=");
    reveal_strlit("<");
    reveal_strlit("<=");
    reveal_strlit("");
    lemma_no_q(op_sql(op));
}


/// The placeholders in the fixed text the compiler emits.
proof fn lemma_literal_counts()
    ensures
        count_q("repo_id "@) == 0,
        count_q("NOT IN"@) == 0,
        count_q("IN"@) == 0,
        count_q("EXISTS (SELECT 1 FROM jobs j_q WHERE j_q.job_group_id = job_groups.id AND j_q."@) == 0,
        count_q(" "@) == 0,
        count_q("("@) == 0,
        count_q(") AND ("@) == 0,
        count_q(")"@) == 0,
        count_q(") OR ("@) == 0,
        count_q("NOT ("@) == 0,
        count_q(" (SELECT id FROM repos WHERE repo_name = ?)"@) == 1,
        count_q(" ?)"@) == 1,
        count_q(" ?"@) == 1,
        count_q(" ILIKE '%' || ? || '%'"@) == 1,
        count_q(" ~ ?"@) == 1,
        count_q(" ILIKE ?"@) == 1,
        count_q("EXISTS (SELECT 1 FROM jobs j_q WHERE j_q.job_group_id = job_groups.id AND j_q.exit_code BETWEEN ? AND ?)"@) == 2,
        count_q(" BETWEEN ? AND ?"@) == 2,
{
    reveal_strlit("repo_id ");
    lemma_no_q("repo_id "@);
    reveal_strlit("NOT IN");
    lemma_no_q("NOT IN"@);
    reveal_strlit("IN");
    lemma_no_q("IN"@);
    reveal_strlit("EXISTS (SELECT 1 FROM jobs j_q WHERE j_q.job_group_id = job_groups.id AND j_q.");
    lemma_no_q("EXISTS (SELECT 1 FROM jobs j_q WHERE j_q.job_group_id = job_groups.id AND j_q."@);
    reveal_strlit(" ");
    lemma_no_q(" "@);
    reveal_strlit("(");
    lemma_no_q("("@);
    reveal_strlit(") AND (");
    lemma_no_q(") AND ("@);
    reveal_strlit(")");
    lemma_no_q(")"@);
    reveal_strlit(") OR (");
    lemma_no_q(") OR ("@);
    reveal_strlit("NOT (");
    lemma_no_q("NOT ("@);
    reveal_strlit(" (SELECT id FROM repos WHERE repo_name = ?)");
    lemma_one_q(" (SELECT id FROM repos WHERE repo_name = ?)"@, 41);
    reveal_strlit(" ?)");
    lemma_one_q(" ?)"@, 1);
    reveal_strlit(" ?");
    lemma_one_q(" ?"@, 1);
    reveal_strlit(" ILIKE '%' || ? || '%'");
    lemma_one_q(" ILIKE '%' || ? || '%'"@, 14);
    reveal_strlit(" ~ ?");
    lemma_one_q(" ~ ?"@, 3);
    reveal_strlit(" ILIKE ?");
    lemma_one_q(" ILIKE ?"@, 7);
    reveal_strlit("EXISTS (SELECT 1 FROM jobs j_q WHERE j_q.job_group_id = job_groups.id AND j_q.exit_code BETWEEN ? AND ?)");
    lemma_two_q("EXISTS (SELECT 1 FROM jobs j_q WHERE j_q.job_group_id = job_groups.id AND j_q.exit_code BETWEEN ? AND ?)"@, 96, 102);
    reveal_strlit(" BETWEEN ? AND ?");
    lemma_two_q(" BETWEEN ? AND ?"@, 9, 15);
}


proof fn lemma_count3(a: Seq<char>, b: Seq<char>, c: Seq<char>)
    ensures
        count_q(a + b + c) == count_q(a) + count_q(b) + count_q(c),
{
    lemma_count_concat(a, b);
    lemma_count_concat(a + b, c);
}

proof fn lemma_count5(a: Seq<char>, b: Seq<char>, c: Seq<char>, d: Seq<char>, e: Seq<char>)
    ensures
        count_q(a + b + c + d + e) == count_q(a) + count_q(b) + count_q(c) + count_q(d) + count_q(e),
{
    lemma_count3(a, b, c);
    lemma_count_concat(a + b + c, d);
    lemma_count_concat(a + b + c + d, e);
}

proof fn lemma_cmp_counts(field: Seq<char>, op: CmpOp, v: ValueV)
    ensures
        match compile_cmp_spec(field, op, v) {
            Ok(f) => count_q(f.sql) == f.binds.len(),
            Err(_) => true,
        },
{
    lemma_literal_counts();
    if let Some(col) = column_of(field) {
        let ident = column_ident(col);
        lemma_column_ident_no_q(col);
        lemma_op_sql_no_q(op);
        let kw = if op == CmpOp::Neq {
            "NOT IN"@
        } else {
            "IN"@
        };
        lemma_count3("repo_id "@, kw, " (SELECT id FROM repos WHERE repo_name = ?)"@);
        lemma_count5(jobs_prefix(), ident, " "@, op_sql(op), " ?)"@);
        lemma_count3(ident + " "@, op_sql(op), " ?"@);
        lemma_count_concat(ident, " "@);
        lemma_count_concat(ident, " ILIKE '%' || ? || '%'"@);
        lemma_count_concat(ident, " ~ ?"@);
        lemma_count_concat(ident, " ILIKE ?"@);
    }
}

proof fn lemma_range_counts(field: Seq<char>, lo: ValueV, hi: ValueV)
    ensures
        match compile_range_spec(field, lo, hi) {
            Ok(f) => count_q(f.sql) == f.binds.len(),
            Err(_) => true,
        },
{
    lemma_literal_counts();
    if let Some(col) = column_of(field) {
        lemma_column_ident_no_q(col);
        lemma_count_concat(column_ident(col), " BETWEEN ? AND ?"@);
    }
}

/// The compiled SQL has one `?` placeholder per bind, so renumbering with
/// [`SqlFragment::to_pg`] gives each bind its own `$N`.
pub proof fn law_one_placeholder_per_bind(a: AstV)
    ensures
        match spec_compile(a) {
            Ok(f) => count_q(f.sql) == f.binds.len(),
            Err(_) => true,
        },
    decreases a,
{
    lemma_literal_counts();
    match a {
        AstV::And(l, r) => {
            law_one_placeholder_per_bind(*l);
            law_one_placeholder_per_bind(*r);
            if let (Ok(lf), Ok(rf)) = (spec_compile(*l), spec_compile(*r)) {
                lemma_count5("("@, lf.sql, ") AND ("@, rf.sql, ")"@);
            }
        },
        AstV::Or(l, r) => {
            law_one_placeholder_per_bind(*l);
            law_one_placeholder_per_bind(*r);
            if let (Ok(lf), Ok(rf)) = (spec_compile(*l), spec_compile(*r)) {
                lemma_count5("("@, lf.sql, ") OR ("@, rf.sql, ")"@);
            }
        },
        AstV::Not(x) => {
            law_one_placeholder_per_bind(*x);
            if let Ok(xf) = spec_compile(*x) {
                lemma_count3("NOT ("@, xf.sql, ")"@);
            }
        },
        AstV::Cmp(field, op, v) => lemma_cmp_counts(field, op, v),
        AstV::InRange(field, lo, hi) => lemma_range_counts(field, lo, hi),
    }
}


/// The values a query compares with, in the order they are written.
pub open spec fn query_values(a: AstV) -> Seq<ValueV>
    decreases a,
{
    match a {
        AstV::And(l, r) => query_values(*l) + query_values(*r),
        AstV::Or(l, r) => query_values(*l) + query_values(*r),
        AstV::Not(x) => query_values(*x),
        AstV::Cmp(_, _, v) => seq![v],
        AstV::InRange(_, lo, hi) => seq![lo, hi],
    }
}

/// The bind `b` carries the value `v`: its text (with `*` read as `%` for a
/// wildcard), its numeral as written, or the instant its date text denotes.
pub open spec fn carries(b: BindV, v: ValueV) -> bool {
    match b {
        BindV::Str(s) => s == value_text(v) || s == star_to_percent(value_text(v)),
        BindV::Num(n) => v == ValueV::Num(n) || v == ValueV::Str(n),
        BindV::Date(t) => match v {
            ValueV::Date(s) => date_bind(s) == Ok::<BindV, CompileErrorV>(BindV::Date(t)),
            ValueV::Str(s) => date_bind(s) == Ok::<BindV, CompileErrorV>(BindV::Date(t)),
            ValueV::Num(_) => false,
        },
    }
}

proof fn lemma_bind_for_carries(col: Column, v: ValueV)
    ensures
        bind_for(col, v) matches Ok(b) ==> carries(b, v),
        bind_number(v) matches Ok(b) ==> carries(b, v),
{
}

/// Binds follow the query: a compiled query has one bind per value written
/// in it, and the k-th bind (the k-th `?` of the SQL, left to right) carries
/// the k-th value, whatever the operators joining the comparisons.
pub proof fn law_binds_follow_query_order(a: AstV)
    ensures
        match spec_compile(a) {
            Ok(f) => f.binds.len() == query_values(a).len() && forall|k: int|
                0 <= k < f.binds.len() ==> carries(#[trigger] f.binds[k], query_values(a)[k]),
            Err(_) => true,
        },
    decreases a,
{
    match a {
        AstV::And(l, r) => {
            law_binds_follow_query_order(*l);
            law_binds_follow_query_order(*r);
            if let (Ok(lf), Ok(rf)) = (spec_compile(*l), spec_compile(*r)) {
                let b = lf.binds + rf.binds;
                let q = query_values(*l) + query_values(*r);
                assert forall|k: int| 0 <= k < b.len() implies carries(#[trigger] b[k], q[k]) by {
                    if k < lf.binds.len() {
                        assert(carries(lf.binds[k], query_values(*l)[k]));
                    } else {
                        assert(carries(rf.binds[k - lf.binds.len()], query_values(*r)[k - lf.binds.len()]));
                    }
                }
            }
        },
        AstV::Or(l, r) => {
            law_binds_follow_query_order(*l);
            law_binds_follow_query_order(*r);
            if let (Ok(lf), Ok(rf)) = (spec_compile(*l), spec_compile(*r)) {
                let b = lf.binds + rf.binds;
                let q = query_values(*l) + query_values(*r);
                assert forall|k: int| 0 <= k < b.len() implies carries(#[trigger] b[k], q[k]) by {
                    if k < lf.binds.len() {
                        assert(carries(lf.binds[k], query_values(*l)[k]));
                    } else {
                        assert(carries(rf.binds[k - lf.binds.len()], query_values(*r)[k - lf.binds.len()]));
                    }
                }
            }
        },
        AstV::Not(x) => {
            law_binds_follow_query_order(*x);
        },
        AstV::Cmp(field, op, v) => {
            if let Some(col) = column_of(field) {
                lemma_bind_for_carries(col, v);
            }
        },
        AstV::InRange(field, lo, hi) => {
            if let Some(col) = column_of(field) {
                lemma_bind_for_carries(col, lo);
                lemma_bind_for_carries(col, hi);
            }
        },
    }
}

} // verus!
