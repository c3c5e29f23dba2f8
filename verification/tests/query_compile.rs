use chola_controller::query::ast::{Ast, CmpOp, Value};
use chola_controller::query::compile::{self, compile, CompileError, SqlBind};
use chola_controller::query::parser::parse;

fn nums(binds: &[SqlBind]) -> Vec<f64> {
    binds
        .iter()
        .map(|b| match b {
            SqlBind::Num(n) => n.parse::<f64>().expect("numeral"),
            other => panic!("not a number bind: {:?}", other),
        })
        .collect()
}

// ── Parser ───────────────────────────────────────────────────────────────────

#[test]
fn parse_empty_returns_none() {
    assert_eq!(parse("").unwrap(), None);
    assert_eq!(parse("   ").unwrap(), None);
}

#[test]
fn parse_simple_eq() {
    let ast = parse("state:failed").unwrap().unwrap();
    let expected = Ast::Cmp {
        field: "state".into(),
        op: CmpOp::Eq,
        value: Value::Str { v: "failed".into() },
    };
    assert_eq!(ast, expected);
}

#[test]
fn parse_unknown_field_errors() {
    let err = parse("foo:bar").unwrap_err();
    assert!(err.message.contains("Unknown field"));
    assert_eq!(err.position, Some(0));
}

#[test]
fn parse_trailing_and_errors() {
    let err = parse("state:failed AND").unwrap_err();
    assert!(err.message.contains("Expected expression after 'AND'"));
}

// ── Compiler ─────────────────────────────────────────────────────────────────

#[test]
fn compile_eq_produces_placeholder() {
    let ast = parse("state:failed").unwrap().unwrap();
    let frag = compile(&ast).unwrap();
    assert_eq!(frag.sql, "state = ?");
    assert_eq!(frag.binds, vec![SqlBind::Str("failed".into())]);
}

#[test]
fn compile_and_groups() {
    let ast = parse("state:failed AND branch:main").unwrap().unwrap();
    let frag = compile(&ast).unwrap();
    assert!(frag.sql.contains("AND"));
    assert_eq!(frag.binds.len(), 2);
}

#[test]
fn compile_wildcard_replaces_star_with_percent() {
    let ast = parse(r#"branch:"feat/*""#).unwrap().unwrap();
    let frag = compile(&ast).unwrap();
    assert_eq!(frag.sql, "branch ILIKE ?");
    assert_eq!(frag.binds, vec![SqlBind::Str("feat/%".into())]);
}

#[test]
fn compile_ilike_wraps_with_percent() {
    let ast = parse(r#"branch:i("foo")"#).unwrap().unwrap();
    let frag = compile(&ast).unwrap();
    assert!(frag.sql.contains("ILIKE '%' || ? || '%'"));
    assert_eq!(frag.binds, vec![SqlBind::Str("foo".into())]);
}

#[test]
fn compile_regex_uses_tilde() {
    let ast = parse(r#"branch:re("^feat/")"#).unwrap().unwrap();
    let frag = compile(&ast).unwrap();
    assert!(frag.sql.contains("~ ?"));
    assert_eq!(frag.binds, vec![SqlBind::Str("^feat/".into())]);
}

#[test]
fn compile_exit_code_range_uses_subquery() {
    let ast = parse("exit_code:[1, 5]").unwrap().unwrap();
    let frag = compile(&ast).unwrap();
    assert!(frag.sql.contains("EXISTS"));
    assert!(frag.sql.contains("BETWEEN"));
    assert_eq!(nums(&frag.binds), vec![1.0, 5.0]);
}

#[test]
fn compile_stage_uses_jobs_subquery() {
    let ast = parse("stage:lint").unwrap().unwrap();
    let frag = compile(&ast).unwrap();
    assert!(frag.sql.contains("EXISTS"));
    assert!(frag.sql.contains("j_q.stage_name"));
    assert_eq!(frag.binds, vec![SqlBind::Str("lint".into())]);
}

#[test]
fn compile_repo_friendly_name_uses_subselect() {
    let ast = parse(r#"repo:"chola""#).unwrap().unwrap();
    let frag = compile(&ast).unwrap();
    assert!(frag.sql.contains("repo_id IN (SELECT id FROM repos WHERE repo_name = ?)"));
    assert_eq!(frag.binds, vec![SqlBind::Str("chola".into())]);
}

#[test]
fn compile_created_at_date() {
    let ast = parse(r#"created_at:>="2026-04-01""#).unwrap().unwrap();
    let frag = compile(&ast).unwrap();
    assert_eq!(frag.sql, "created_at >= ?");
    assert_eq!(frag.binds.len(), 1);
    assert!(matches!(frag.binds[0], SqlBind::Date(_)));
}

#[test]
fn compile_to_pg_renumbers() {
    let frag = compile::SqlFragment {
        sql: "(a = ?) AND (b = ?)".into(),
        binds: vec![SqlBind::Str("x".into()), SqlBind::Str("y".into())],
    };
    let (pg, next) = frag.to_pg(7);
    assert_eq!(pg, "(a = $7) AND (b = $8)");
    assert_eq!(next, 9);
}

// ── SQL injection probes ─────────────────────────────────────────────────────

#[test]
fn injection_attempt_is_just_a_bind() {
    let ast = parse(r#"state:"'; DROP TABLE jobs; --""#).unwrap().unwrap();
    let frag = compile(&ast).unwrap();
    assert_eq!(frag.sql, "state = ?");
    match &frag.binds[0] {
        SqlBind::Str(s) => assert_eq!(s, "'; DROP TABLE jobs; --"),
        _ => panic!("expected string bind"),
    }
}

#[test]
fn injection_in_regex_is_just_a_bind() {
    let ast = parse(r#"branch:re("'; DROP TABLE; --")"#).unwrap().unwrap();
    let frag = compile(&ast).unwrap();
    assert!(frag.sql.contains("~ ?"));
    match &frag.binds[0] {
        SqlBind::Str(s) => assert_eq!(s, "'; DROP TABLE; --"),
        _ => panic!("expected string bind"),
    }
}

#[test]
fn no_sql_keywords_leak_from_user_field_value() {
    let ast = parse("branch:UNION").unwrap().unwrap();
    let frag = compile(&ast).unwrap();
    assert_eq!(frag.sql, "branch = ?");
    assert_eq!(frag.binds, vec![SqlBind::Str("UNION".into())]);
}

// ── Further cases ───────────────────────────────────────────────────────────

#[test]
fn compile_date_binds_are_exact_instants() {
    let ast = parse(r#"created_at:>="2026-04-01""#).unwrap().unwrap();
    let frag = compile(&ast).unwrap();
    let want = chrono::NaiveDate::from_ymd_opt(2026, 4, 1).unwrap().and_hms_opt(0, 0, 0).unwrap().and_utc();
    match frag.binds[0] {
        SqlBind::Date(t) => {
            assert_eq!(t.secs, want.timestamp());
            assert_eq!(t.nanos, 0);
        }
        _ => panic!("expected date"),
    }
    let ast = parse(r#"completed_at:<"2026-04-23T15:30:00+05:30""#).unwrap().unwrap();
    let frag = compile(&ast).unwrap();
    match frag.binds[0] {
        SqlBind::Date(t) => assert_eq!(t.secs, 1776938400),
        _ => panic!("expected date"),
    }
}

#[test]
fn compile_errors() {
    let ast = parse("repo:>5").unwrap().unwrap();
    let err = compile(&ast).unwrap_err();
    assert_eq!(err, CompileError::OperatorNotSupported { field: "repo".into(), op: CmpOp::Gt });
    assert_eq!(err.to_text(), "Operator Gt not supported on field 'repo'");
    let ast = parse("exit_code:abc").unwrap().unwrap();
    assert_eq!(compile(&ast).unwrap_err(), CompileError::InvalidDate("abc".into()));
    let ast = parse(r#"created_at:"yesterday""#).unwrap().unwrap();
    assert_eq!(compile(&ast).unwrap_err().to_text(), "Invalid date literal 'yesterday' (expected YYYY-MM-DD or RFC3339)");
    let ast = parse("created_at:5").unwrap().unwrap();
    assert_eq!(compile(&ast).unwrap_err(), CompileError::InvalidDate("(number)".into()));
    let unknown = Ast::Cmp { field: "colour".into(), op: CmpOp::Eq, value: Value::Str { v: "red".into() } };
    assert_eq!(compile(&unknown).unwrap_err().to_text(), "Unknown field 'colour'");
}

#[test]
fn compile_numbers_and_negation() {
    let ast = parse(r#"exit_code:"1e3""#).unwrap().unwrap();
    let frag = compile(&ast).unwrap();
    assert_eq!(nums(&frag.binds), vec![1000.0]);
    let ast = parse("state:1.50").unwrap().unwrap();
    assert_eq!(compile(&ast).unwrap().binds, vec![SqlBind::Str("1.5".into())]);
    let ast = parse("NOT repo:!x").unwrap().unwrap();
    let frag = compile(&ast).unwrap();
    assert_eq!(frag.sql, "NOT (repo_id NOT IN (SELECT id FROM repos WHERE repo_name = ?))");
    let ast = parse("exit_code:>=2 OR stage:!lint").unwrap().unwrap();
    let frag = compile(&ast).unwrap();
    assert_eq!(
        frag.sql,
        "(EXISTS (SELECT 1 FROM jobs j_q WHERE j_q.job_group_id = job_groups.id AND j_q.exit_code >= ?)) OR (EXISTS (SELECT 1 FROM jobs j_q WHERE j_q.job_group_id = job_groups.id AND j_q.stage_name <> ?))"
    );
}
