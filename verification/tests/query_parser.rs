use chola_controller::query::ast::{Ast, CmpOp, Value};
use chola_controller::query::parser::parse;

fn p(s: &str) -> Ast {
    parse(s).expect("parse ok").expect("non-empty")
}

#[test]
fn empty_input_none() {
    assert!(parse("").unwrap().is_none());
    assert!(parse("   ").unwrap().is_none());
}

#[test]
fn bare_eq() {
    let a = p("state:failed");
    match a {
        Ast::Cmp { field, op, value } => {
            assert_eq!(field, "state");
            assert_eq!(op, CmpOp::Eq);
            assert_eq!(value, Value::Str { v: "failed".into() });
        }
        _ => panic!("bad ast"),
    }
}

#[test]
fn parser_neq_bang() {
    let a = p("state:!failed");
    match a {
        Ast::Cmp { op, .. } => assert_eq!(op, CmpOp::Neq),
        _ => panic!(),
    }
}

#[test]
fn or_chain_left_assoc() {
    let a = p("state:failed OR state:cancelled OR state:expired");
    match a {
        Ast::Or { left, right: _ } => match *left {
            Ast::Or { .. } => {}
            _ => panic!("not left-assoc"),
        },
        _ => panic!("not or"),
    }
}

#[test]
fn implicit_and_adjacency() {
    let a = p("state:failed branch:main");
    match a {
        Ast::And { .. } => {}
        _ => panic!("not and"),
    }
}

#[test]
fn paren_grouping() {
    let a = p("( state:failed OR state:cancelled ) AND branch:main");
    match a {
        Ast::And { left, right: _ } => match *left {
            Ast::Or { .. } => {}
            _ => panic!("inner not or"),
        },
        _ => panic!(),
    }
}

#[test]
fn err_unknown_field_position() {
    let err = parse("unknownfield:value").unwrap_err();
    assert!(err.message.contains("Unknown field"));
    assert_eq!(err.position, Some(0));
}

#[test]
fn err_trailing_and() {
    let err = parse("state:failed AND").unwrap_err();
    assert!(err.message.contains("Expected expression after 'AND'"));
}

#[test]
fn err_leading_or_position_zero() {
    let err = parse("OR state:failed").unwrap_err();
    assert_eq!(err.position, Some(0));
}

#[test]
fn err_extra_close_paren() {
    let err = parse("state:failed )").unwrap_err();
    assert!(err.message.contains("Unexpected token ')'"));
}

// ── Further cases ───────────────────────────────────────────────────────────

#[test]
fn unknown_field_lists_valid_fields() {
    let err = parse("colour:red").unwrap_err();
    assert_eq!(
        err.message,
        "Unknown field 'colour'. Valid fields: state, branch, repo, repo_id, stage, exit_code, created_at, completed_at"
    );
}

#[test]
fn wildcard_and_date_values() {
    assert_eq!(
        p("branch:feat/*"),
        Ast::Cmp { field: "branch".into(), op: CmpOp::Wildcard, value: Value::Str { v: "feat/*".into() } }
    );
    assert_eq!(
        p(r#"created_at:"2026-04-01""#),
        Ast::Cmp { field: "created_at".into(), op: CmpOp::Eq, value: Value::Date { v: "2026-04-01".into() } }
    );
    assert_eq!(
        p(r#"created_at:>"2026-04-01""#),
        Ast::Cmp { field: "created_at".into(), op: CmpOp::Gt, value: Value::Date { v: "2026-04-01".into() } }
    );
}

#[test]
fn function_calls_and_ranges() {
    assert_eq!(
        p(r#"branch:i("Foo")"#),
        Ast::Cmp { field: "branch".into(), op: CmpOp::IlikeContains, value: Value::Str { v: "Foo".into() } }
    );
    assert_eq!(
        p("exit_code:[1, 5]"),
        Ast::InRange { field: "exit_code".into(), lo: Value::Num { v: "1".into() }, hi: Value::Num { v: "5".into() } }
    );
    let err = parse(r#"branch:re("x""#).unwrap_err();
    assert_eq!(err.message, "Unterminated function call: expected string literal then ')'");
    assert_eq!(err.position, Some(10));
    let err = parse("exit_code:[1 5]").unwrap_err();
    assert_eq!(err.message, "Unterminated range: expected number or string then ']'");
    assert_eq!(err.position, Some(12));
}

#[test]
fn not_and_errors_positions() {
    assert_eq!(
        p("NOT state:failed"),
        Ast::Not { expr: Box::new(Ast::Cmp { field: "state".into(), op: CmpOp::Eq, value: Value::Str { v: "failed".into() } }) }
    );
    let err = parse("state").unwrap_err();
    assert_eq!(err.message, "Expected ':' after field 'state'");
    assert_eq!(err.position, Some(5));
    let err = parse("state:").unwrap_err();
    assert_eq!(err.message, "Expected value after ':'");
    assert_eq!(err.position, Some(6));
    let err = parse("(state:failed").unwrap_err();
    assert_eq!(err.message, "Unclosed parenthesis: expected ')'");
    assert_eq!(err.position, Some(0));
    let err = parse(r#"state:"open"#).unwrap_err();
    assert_eq!(err.message, "Unterminated string literal");
    assert_eq!(err.position, Some(6));
    let err = parse("exit_code:>,").unwrap_err();
    assert_eq!(err.message, "Expected number or string after comparison operator, got ','");
    let err = parse("state:failed 1.50").unwrap_err();
    assert_eq!(err.message, "Unexpected token 1.5");
    assert_eq!(err.position, Some(13));
}
