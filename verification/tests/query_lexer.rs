use chola_controller::query::lexer::{tokenize, Token};

fn num(t: &Token) -> Option<f64> {
    match t {
        Token::Number(n) => n.parse::<f64>().ok(),
        _ => None,
    }
}

#[test]
fn simple_field_term() {
    let toks = tokenize("state:failed").expect("lex");
    assert_eq!(toks.len(), 3);
    assert!(matches!(toks[0].0, Token::Ident(ref s) if s == "state"));
    assert!(matches!(toks[1].0, Token::Colon));
    assert!(matches!(toks[2].0, Token::Ident(ref s) if s == "failed"));
}

#[test]
fn neq_legacy_alias() {
    let toks = tokenize("exit_code:!=0").expect("lex");
    assert!(matches!(toks[2].0, Token::BangEq));
    assert!(matches!(num(&toks[3].0), Some(n) if (n - 0.0).abs() < f64::EPSILON));
}

#[test]
fn lexer_neq_bang() {
    let toks = tokenize("exit_code:!0").expect("lex");
    assert!(matches!(toks[2].0, Token::Bang));
    assert!(matches!(toks[3].0, Token::Number(_)));
}

#[test]
fn gte_before_gt() {
    let toks = tokenize("exit_code:>=1").expect("lex");
    assert!(matches!(toks[2].0, Token::Gte));
}

#[test]
fn quoted_string_with_escape() {
    let toks = tokenize(r#"branch:"a\"b""#).expect("lex");
    match &toks[2].0 {
        Token::String(s) => {
            assert_eq!(s.value, "a\"b");
            assert!(s.terminated);
        }
        other => panic!("expected string, got {:?}", other),
    }
}

#[test]
fn unterminated_string_marker() {
    let toks = tokenize(r#"branch:"foo"#).expect("lex");
    match &toks[2].0 {
        Token::String(s) => {
            assert_eq!(s.value, "foo");
            assert!(!s.terminated);
        }
        other => panic!("expected string, got {:?}", other),
    }
}

#[test]
fn keywords_case_insensitive() {
    let toks = tokenize("a AND b or NOT c").expect("lex");
    let kinds: Vec<_> = toks.iter().map(|(t, _)| t).collect();
    assert!(matches!(kinds[1], Token::And));
    assert!(matches!(kinds[3], Token::Or));
    assert!(matches!(kinds[4], Token::Not));
}

#[test]
fn bare_ident_with_dots_slashes() {
    let toks = tokenize("branch:feat/foo-1.2").expect("lex");
    assert!(matches!(&toks[2].0, Token::Ident(s) if s == "feat/foo-1.2"));
}

#[test]
fn range_brackets() {
    let toks = tokenize("exit_code:[1,5]").expect("lex");
    assert!(matches!(toks[2].0, Token::LBracket));
    assert!(matches!(toks[3].0, Token::Number(_)));
    assert!(matches!(toks[4].0, Token::Comma));
    assert!(matches!(toks[5].0, Token::Number(_)));
    assert!(matches!(toks[6].0, Token::RBracket));
}

// ── Further cases ───────────────────────────────────────────────────────────

#[test]
fn spans_are_byte_offsets() {
    let toks = tokenize("  state : failed").expect("lex");
    assert_eq!((toks[0].1.start, toks[0].1.end), (2, 7));
    assert_eq!((toks[1].1.start, toks[1].1.end), (8, 9));
    assert_eq!((toks[2].1.start, toks[2].1.end), (10, 16));
}

#[test]
fn unexpected_character_is_reported_at_its_byte() {
    let err = tokenize("state=x").unwrap_err();
    assert_eq!(err.message, "Unexpected character '='");
    assert_eq!(err.position, Some(5));
    let err = tokenize("ü:x #").unwrap_err();
    assert_eq!(err.position, Some(0));
    let err = tokenize("ab #").unwrap_err();
    assert_eq!(err.position, Some(3));
}

#[test]
fn number_beats_identifier_only_at_equal_length() {
    let toks = tokenize("-5 1.2.3 1e5 007 2026-04-01").expect("lex");
    assert!(matches!(&toks[0].0, Token::Number(n) if n == "-5"));
    assert!(matches!(&toks[1].0, Token::Ident(s) if s == "1.2.3"));
    assert!(matches!(&toks[2].0, Token::Ident(s) if s == "1e5"));
    assert!(matches!(&toks[3].0, Token::Number(n) if n == "007"));
    assert!(matches!(&toks[4].0, Token::Ident(s) if s == "2026-04-01"));
}

#[test]
fn keyword_prefix_is_an_identifier() {
    let toks = tokenize("android ORx Not").expect("lex");
    assert!(matches!(&toks[0].0, Token::Ident(s) if s == "android"));
    assert!(matches!(&toks[1].0, Token::Ident(s) if s == "ORx"));
    assert!(matches!(toks[2].0, Token::Not));
}

#[test]
fn escapes_in_strings() {
    let toks = tokenize(r#""a\nb\tc\\d\qe""#).expect("lex");
    match &toks[0].0 {
        Token::String(s) => {
            assert_eq!(s.value, "a\nb\tc\\dqe");
            assert!(s.terminated);
        }
        other => panic!("expected string, got {:?}", other),
    }
}
