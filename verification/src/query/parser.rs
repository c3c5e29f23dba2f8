//! ChQL parser: hand-written recursive descent over the token stream.
//!
//! ```text
//! expr       → or_expr
//! or_expr    → and_expr ( 'or' and_expr )*
//! and_expr   → not_expr ( ('and' | adjacency) not_expr )*
//! not_expr   → 'not'? atom
//! atom       → '(' expr ')' | field_term
//! field_term → ident ':' value
//! ```
//! Empty input parses to `Ok(None)`. Every error carries the byte offset of
//! the offending token.
use vstd::prelude::*;

use super::ast::{Ast, AstV, CmpOp, Value, ValueV};
use super::error::{err_at, ChqlError, ChqlErrorV};
use super::lexer::{spec_tokenize, tokenize, toks_view, Span, Token, TokenV};
use super::numeral::{canonical_numeral, push_canonical_numeral};
use crate::text::{
    chars_eq_str, chars_of, contains_char, is_one_of, push_str, trim, trim_bounds,
};

verus! {

pub type Toks = Seq<(TokenV, Span)>;

pub type PRes = Result<(AstV, int), ChqlErrorV>;

// ── Specification ───────────────────────────────────────────────────────────

/// The field names a query may filter on.
pub open spec fn valid_fields() -> Seq<Seq<char>> {
    seq![
        "state"@,
        "branch"@,
        "repo"@,
        "repo_id"@,
        "stage"@,
        "exit_code"@,
        "created_at"@,
        "completed_at"@,
    ]
}

pub open spec fn is_valid_field(name: Seq<char>) -> bool {
    valid_fields().contains(name)
}

pub open spec fn valid_fields_text() -> Seq<char> {
    "state, branch, repo, repo_id, stage, exit_code, created_at, completed_at"@
}

pub open spec fn is_date_field(name: Seq<char>) -> bool {
    name == "created_at"@ || name == "completed_at"@
}

/// Tokens that can begin an atom; one of them right after an atom is an
/// implicit AND.
pub open spec fn can_start_atom(t: TokenV) -> bool {
    t is Ident || t is LParen || t is Not || t is String
}

/// How a token is shown in error messages.
pub open spec fn tok_display(t: TokenV) -> Seq<char> {
    match t {
        TokenV::BangEq => "'!='"@,
        TokenV::Gte => "'>='"@,
        TokenV::Lte => "'<='"@,
        TokenV::Bang => "'!'"@,
        TokenV::Gt => "'>'"@,
        TokenV::Lt => "'<'"@,
        TokenV::Colon => "':'"@,
        TokenV::Comma => "','"@,
        TokenV::LBracket => "'['"@,
        TokenV::RBracket => "']'"@,
        TokenV::LParen => "'('"@,
        TokenV::RParen => "')'"@,
        TokenV::And => "'AND'"@,
        TokenV::Or => "'OR'"@,
        TokenV::Not => "'NOT'"@,
        TokenV::Ident(s) => "'"@ + s + "'"@,
        TokenV::String(v, _) => "\""@ + v + "\""@,
        TokenV::Number(n) => canonical_numeral(n),
    }
}

pub open spec fn unterminated_call() -> Seq<char> {
    "Unterminated function call: expected string literal then ')'"@
}

pub open spec fn unterminated_range() -> Seq<char> {
    "Unterminated range: expected number or string then ']'"@
}

pub open spec fn unterminated_string() -> Seq<char> {
    "Unterminated string literal"@
}

/// Number of tokens left from `p`.
pub open spec fn rem(t: Toks, p: int) -> nat {
    if 0 <= p <= t.len() {
        (t.len() - p) as nat
    } else {
        0
    }
}

/// Result of a guard that the parser never takes: every successful step
/// consumes at least one token.
pub open spec fn no_progress() -> ChqlErrorV {
    ChqlErrorV { message: Seq::empty(), position: None, hint: None }
}

pub open spec fn check_leading(t: Toks, p: int) -> Option<ChqlErrorV> {
    if 0 <= p < t.len() {
        match t[p].0 {
            TokenV::Or => Some(
                err_at("Unexpected 'OR': expected expression"@, t[p].1.start as int),
            ),
            TokenV::And => Some(
                err_at("Unexpected 'AND': expected expression"@, t[p].1.start as int),
            ),
            TokenV::RParen => Some(err_at("Unexpected token ')'"@, t[p].1.start as int)),
            _ => None,
        }
    } else {
        None
    }
}

/// `or_expr` at `p`.
pub open spec fn sp_or(t: Toks, p: int) -> PRes
    decreases rem(t, p), 4nat,
{
    match check_leading(t, p) {
        Some(e) => Err(e),
        None => match sp_and(t, p) {
            Err(e) => Err(e),
            Ok((left, q)) => if 0 <= p < q <= t.len() {
                sp_or_tail(t, left, q)
            } else {
                Err(no_progress())
            },
        },
    }
}

/// The `( 'or' and_expr )*` continuation after `left`, at `p`.
pub open spec fn sp_or_tail(t: Toks, left: AstV, p: int) -> PRes
    decreases rem(t, p), 5nat,
{
    if 0 <= p < t.len() && t[p].0 is Or {
        if p + 1 >= t.len() {
            Err(err_at("Expected expression after 'OR'"@, t[p].1.end as int))
        } else {
            match sp_and(t, p + 1) {
                Err(e) => Err(e),
                Ok((right, q)) => if p + 1 < q <= t.len() {
                    sp_or_tail(t, AstV::Or(Box::new(left), Box::new(right)), q)
                } else {
                    Err(no_progress())
                },
            }
        }
    } else {
        Ok((left, p))
    }
}

/// `and_expr` at `p`.
pub open spec fn sp_and(t: Toks, p: int) -> PRes
    decreases rem(t, p), 3nat,
{
    match sp_not(t, p) {
        Err(e) => Err(e),
        Ok((left, q)) => if 0 <= p < q <= t.len() {
            sp_and_tail(t, left, q)
        } else {
            Err(no_progress())
        },
    }
}

/// The `( ('and' | adjacency) not_expr )*` continuation after `left`, at `p`.
pub open spec fn sp_and_tail(t: Toks, left: AstV, p: int) -> PRes
    decreases rem(t, p), 6nat,
{
    if 0 <= p < t.len() && t[p].0 is And {
        if p + 1 >= t.len() {
            Err(err_at("Expected expression after 'AND'"@, t[p].1.end as int))
        } else {
            match sp_not(t, p + 1) {
                Err(e) => Err(e),
                Ok((right, q)) => if p + 1 < q <= t.len() {
                    sp_and_tail(t, AstV::And(Box::new(left), Box::new(right)), q)
                } else {
                    Err(no_progress())
                },
            }
        }
    } else if 0 <= p < t.len() && can_start_atom(t[p].0) {
        match sp_not(t, p) {
            Err(e) => Err(e),
            Ok((right, q)) => if p < q <= t.len() {
                sp_and_tail(t, AstV::And(Box::new(left), Box::new(right)), q)
            } else {
                Err(no_progress())
            },
        }
    } else {
        Ok((left, p))
    }
}

/// `not_expr` at `p`.
pub open spec fn sp_not(t: Toks, p: int) -> PRes
    decreases rem(t, p), 2nat,
{
    if 0 <= p < t.len() && t[p].0 is Not {
        match sp_atom(t, p + 1) {
            Err(e) => Err(e),
            Ok((a, q)) => Ok((AstV::Not(Box::new(a)), q)),
        }
    } else {
        sp_atom(t, p)
    }
}

/// `atom` at `p`.
pub open spec fn sp_atom(t: Toks, p: int) -> PRes
    decreases rem(t, p), 1nat,
{
    if 0 <= p < t.len() {
        match t[p].0 {
            TokenV::LParen => match sp_or(t, p + 1) {
                Err(e) => Err(e),
                Ok((inner, q)) => if 0 <= q < t.len() && t[q].0 is RParen {
                    Ok((inner, q + 1))
                } else {
                    Err(err_at("Unclosed parenthesis: expected ')'"@, t[p].1.start as int))
                },
            },
            TokenV::Ident(name) => sp_field_term(t, name, t[p].1, p + 1),
            other => Err(err_at("Unexpected token "@ + tok_display(other), t[p].1.start as int)),
        }
    } else {
        Err(err_at("Expected expression"@, 0))
    }
}

/// `':' value` after the field name `name` (whose token has span `nspan`).
pub open spec fn sp_field_term(t: Toks, name: Seq<char>, nspan: Span, p: int) -> PRes {
    if !is_valid_field(name) {
        Err(
            err_at(
                "Unknown field '"@ + name + "'. Valid fields: "@ + valid_fields_text(),
                nspan.start as int,
            ),
        )
    } else if !(0 <= p < t.len()) {
        Err(err_at("Expected ':' after field '"@ + name + "'"@, nspan.end as int))
    } else if !(t[p].0 is Colon) {
        Err(
            err_at(
                "Expected ':' after field '"@ + name + "', got "@ + tok_display(t[p].0),
                t[p].1.start as int,
            ),
        )
    } else {
        sp_value(t, name, nspan, p + 1)
    }
}

pub open spec fn relational_op(t: TokenV) -> CmpOp {
    match t {
        TokenV::Gte => CmpOp::Gte,
        TokenV::Gt => CmpOp::Gt,
        TokenV::Lte => CmpOp::Lte,
        _ => CmpOp::Lt,
    }
}

pub open spec fn eq_or_wildcard(v: Seq<char>) -> CmpOp {
    if v.contains('*') {
        CmpOp::Wildcard
    } else {
        CmpOp::Eq
    }
}

/// The value part of a field term, at `p`.
pub open spec fn sp_value(t: Toks, field: Seq<char>, fspan: Span, p: int) -> PRes {
    if !(0 <= p < t.len()) {
        Err(err_at("Expected value after ':'"@, fspan.end + 1))
    } else {
        let tok = t[p].0;
        let span = t[p].1;
        match tok {
            TokenV::Bang | TokenV::BangEq => {
                if !(p + 1 < t.len()) {
                    Err(err_at("Expected value after '!'"@, span.end as int))
                } else {
                    let nt = t[p + 1].0;
                    let ns = t[p + 1].1;
                    match nt {
                        TokenV::String(v, term) => if !term {
                            Err(err_at(unterminated_string(), ns.start as int))
                        } else {
                            Ok((AstV::Cmp(field, CmpOp::Neq, ValueV::Str(v)), p + 2))
                        },
                        TokenV::Ident(id) => Ok((AstV::Cmp(field, CmpOp::Neq, ValueV::Str(id)), p + 2)),
                        TokenV::Number(n) => Ok((AstV::Cmp(field, CmpOp::Neq, ValueV::Num(n)), p + 2)),
                        other => Err(
                            err_at(
                                "Expected value after '!', got "@ + tok_display(other),
                                ns.start as int,
                            ),
                        ),
                    }
                }
            },
            TokenV::LBracket => sp_range(t, field, span, p + 1),
            TokenV::Gte | TokenV::Gt | TokenV::Lte | TokenV::Lt => {
                let op = relational_op(tok);
                if !(p + 1 < t.len()) {
                    Err(
                        err_at(
                            "Expected number or string after comparison operator"@,
                            span.end as int,
                        ),
                    )
                } else {
                    let nt = t[p + 1].0;
                    let ns = t[p + 1].1;
                    match nt {
                        TokenV::Number(n) => Ok((AstV::Cmp(field, op, ValueV::Num(n)), p + 2)),
                        TokenV::String(v, term) => if !term {
                            Err(err_at(unterminated_string(), ns.start as int))
                        } else if is_date_field(field) {
                            Ok((AstV::Cmp(field, op, ValueV::Date(v)), p + 2))
                        } else {
                            Ok((AstV::Cmp(field, op, ValueV::Str(v)), p + 2))
                        },
                        other => Err(
                            err_at(
                                "Expected number or string after comparison operator, got "@
                                    + tok_display(other),
                                ns.start as int,
                            ),
                        ),
                    }
                }
            },
            TokenV::Ident(id) => if (id == "i"@ || id == "re"@) && p + 1 < t.len() && t[p
                + 1].0 is LParen {
                sp_call(t, field, id, span, p + 2)
            } else {
                Ok((AstV::Cmp(field, eq_or_wildcard(id), ValueV::Str(id)), p + 1))
            },
            TokenV::String(v, term) => if !term {
                Err(err_at(unterminated_string(), span.start as int))
            } else {
                let op = eq_or_wildcard(v);
                if is_date_field(field) && op == CmpOp::Eq {
                    Ok((AstV::Cmp(field, op, ValueV::Date(v)), p + 1))
                } else {
                    Ok((AstV::Cmp(field, op, ValueV::Str(v)), p + 1))
                }
            },
            TokenV::Number(n) => Ok((AstV::Cmp(field, CmpOp::Eq, ValueV::Num(n)), p + 1)),
            other => Err(err_at("Unexpected token "@ + tok_display(other), span.start as int)),
        }
    }
}

/// The body of `i("…")` / `re("…")` after the `(`, at `p`; `cspan` is the span
/// of the function name.
pub open spec fn sp_call(t: Toks, field: Seq<char>, fname: Seq<char>, cspan: Span, p: int) -> PRes {
    if !(0 <= p < t.len()) {
        Err(err_at(unterminated_call(), cspan.end + 1))
    } else {
        match t[p].0 {
            TokenV::String(v, term) => if !term {
                Err(err_at(unterminated_string(), t[p].1.start as int))
            } else if p + 1 < t.len() && t[p + 1].0 is RParen {
                let op = if fname == "i"@ {
                    CmpOp::IlikeContains
                } else {
                    CmpOp::Regex
                };
                Ok((AstV::Cmp(field, op, ValueV::Str(v)), p + 2))
            } else {
                Err(err_at(unterminated_call(), cspan.end + 1))
            },
            _ => Err(err_at(unterminated_call(), t[p].1.start as int)),
        }
    }
}

/// One endpoint of a range, at `p`.
pub open spec fn sp_endpoint(t: Toks, field: Seq<char>, fallback: int, p: int) -> Result<
    (ValueV, int),
    ChqlErrorV,
> {
    if !(0 <= p < t.len()) {
        Err(err_at(unterminated_range(), fallback))
    } else {
        match t[p].0 {
            TokenV::Number(n) => Ok((ValueV::Num(n), p + 1)),
            TokenV::String(v, term) => if !term {
                Err(err_at(unterminated_string(), t[p].1.start as int))
            } else if is_date_field(field) {
                Ok((ValueV::Date(v), p + 1))
            } else {
                Ok((ValueV::Str(v), p + 1))
            },
            _ => Err(err_at(unterminated_range(), t[p].1.start as int)),
        }
    }
}

/// `lo, hi]` after the `[` (whose span is `ospan`), at `p`.
pub open spec fn sp_range(t: Toks, field: Seq<char>, ospan: Span, p: int) -> PRes {
    match sp_endpoint(t, field, ospan.end as int, p) {
        Err(e) => Err(e),
        Ok((lo, p1)) => if !(0 <= p1 < t.len() && t[p1].0 is Comma) {
            Err(err_at(unterminated_range(), ospan.end + 1))
        } else if !(p1 + 1 < t.len()) {
            Err(err_at(unterminated_range(), ospan.end + 4))
        } else if !(t[p1 + 1].0 is Number || t[p1 + 1].0 is String) {
            Err(err_at(unterminated_range(), t[p1 + 1].1.start as int))
        } else {
            match sp_endpoint(t, field, t[p1 + 1].1.start as int, p1 + 1) {
                Err(e) => Err(e),
                Ok((hi, p3)) => if 0 <= p3 < t.len() && t[p3].0 is RBracket {
                    Ok((AstV::InRange(field, lo, hi), p3 + 1))
                } else {
                    Err(err_at(unterminated_range(), ospan.end as int))
                },
            }
        },
    }
}

/// Each comparison operator written after a field's `:` keeps its own
/// meaning, whatever tokens stand around it: `<=` compares with at most,
/// `<` with less than, `>=` with at least and `>` with more than.
pub proof fn law_comparison_operators(t: Toks, field: Seq<char>, fspan: Span, p: int, n: Seq<char>)
    requires
        0 <= p,
        p + 1 < t.len(),
        t[p + 1].0 == TokenV::Number(n),
    ensures
        t[p].0 == TokenV::Lte ==> sp_value(t, field, fspan, p) == Ok::<(AstV, int), ChqlErrorV>(
            (AstV::Cmp(field, CmpOp::Lte, ValueV::Num(n)), p + 2),
        ),
        t[p].0 == TokenV::Lt ==> sp_value(t, field, fspan, p) == Ok::<(AstV, int), ChqlErrorV>(
            (AstV::Cmp(field, CmpOp::Lt, ValueV::Num(n)), p + 2),
        ),
        t[p].0 == TokenV::Gte ==> sp_value(t, field, fspan, p) == Ok::<(AstV, int), ChqlErrorV>(
            (AstV::Cmp(field, CmpOp::Gte, ValueV::Num(n)), p + 2),
        ),
        t[p].0 == TokenV::Gt ==> sp_value(t, field, fspan, p) == Ok::<(AstV, int), ChqlErrorV>(
            (AstV::Cmp(field, CmpOp::Gt, ValueV::Num(n)), p + 2),
        ),
{
}

/// Distinct comparison tokens give distinct operators.
pub proof fn law_comparison_operators_distinct(a: TokenV, b: TokenV)
    requires
        a is Lte || a is Lt || a is Gte || a is Gt,
        b is Lte || b is Lt || b is Gte || b is Gt,
        a != b,
    ensures
        relational_op(a) != relational_op(b),
{
}

/// What `parse` returns for the text `s`.
pub open spec fn spec_parse(s: Seq<char>) -> Result<Option<AstV>, ChqlErrorV> {
    if trim(s).len() == 0 {
        Ok(None)
    } else {
        match spec_tokenize(s) {
            Err(e) => Err(e),
            Ok(t) => if t.len() == 0 {
                Ok(None)
            } else {
                match sp_or(t, 0) {
                    Err(e) => Err(e),
                    Ok((a, q)) => if 0 <= q < t.len() {
                        Err(err_at("Unexpected token "@ + tok_display(t[q].0), t[q].1.start as int))
                    } else {
                        Ok(Some(a))
                    },
                }
            },
        }
    }
}

/// Every span ends well below `usize::MAX`, so positions one to four bytes past
/// an end can be represented.
pub open spec fn spans_bounded(t: Toks) -> bool {
    forall|i: int| 0 <= i < t.len() ==> (#[trigger] t[i]).1.end + 8 <= usize::MAX
}

// ── Executable parser ───────────────────────────────────────────────────────

struct Parser {
    tokens: Vec<(Token, Span)>,
    pos: usize,
}

impl Parser {
    spec fn t(&self) -> Toks {
        toks_view(self.tokens@)
    }

    spec fn wf(&self) -> bool {
        self.pos <= self.tokens.len() && spans_bounded(self.t())
    }

    /// `r` is what the specification `spec_r` gives from `pre`'s position, the
    /// tokens are unchanged, and success moves the position forward.
    spec fn outcome(pre: Parser, post: Parser, r: Result<Ast, ChqlError>, spec_r: PRes) -> bool {
        &&& post.tokens@ == pre.tokens@
        &&& post.wf()
        &&& match r {
            Ok(a) => spec_r == Ok::<_, ChqlErrorV>((a@, post.pos as int)) && pre.pos < post.pos,
            Err(e) => spec_r == Err::<(AstV, int), _>(e@),
        }
    }

    fn tok(&self, p: usize) -> (r: &Token)
        requires
            p < self.tokens.len(),
        ensures
            r@ == self.t()[p as int].0,
    {
        assert(self.t()[p as int] == (self.tokens@[p as int].0@, self.tokens@[p as int].1));
        &self.tokens[p].0
    }

    fn span(&self, p: usize) -> (r: Span)
        requires
            p < self.tokens.len(),
        ensures
            r == self.t()[p as int].1,
            self.wf() ==> r.end + 8 <= usize::MAX,
    {
        assert(self.t()[p as int] == (self.tokens@[p as int].0@, self.tokens@[p as int].1));
        self.tokens[p].1
    }

    fn tok_is_or(&self) -> (b: bool)
        requires
            self.wf(),
        ensures
            b == (self.pos < self.tokens.len() && self.t()[self.pos as int].0 is Or),
    {
        if self.pos < self.tokens.len() {
            match self.tok(self.pos) {
                Token::Or => true,
                _ => false,
            }
        } else {
            false
        }
    }

    fn check_leading(&self) -> (r: Option<ChqlError>)
        requires
            self.wf(),
        ensures
            match r {
                Some(e) => check_leading(self.t(), self.pos as int) == Some(e@),
                None => check_leading(self.t(), self.pos as int) is None,
            },
    {
        if self.pos < self.tokens.len() {
            let start = self.span(self.pos).start;
            match self.tok(self.pos) {
                Token::Or => Some(error_at("Unexpected 'OR': expected expression", start)),
                Token::And => Some(error_at("Unexpected 'AND': expected expression", start)),
                Token::RParen => Some(error_at("Unexpected token ')'", start)),
                _ => None,
            }
        } else {
            None
        }
    }

    fn parse_or(&mut self) -> (r: Result<Ast, ChqlError>)
        requires
            old(self).wf(),
        ensures
            Parser::outcome(*old(self), *final(self), r, sp_or(old(self).t(), old(self).pos as int)),
        decreases rem(old(self).t(), old(self).pos as int), 4nat,
    {
        if let Some(e) = self.check_leading() {
            return Err(e);
        }
        let left = match self.parse_and() {
            Ok(a) => a,
            Err(e) => {
                return Err(e);
            },
        };
        self.parse_or_tail(left)
    }

    fn parse_or_tail(&mut self, left: Ast) -> (r: Result<Ast, ChqlError>)
        requires
            old(self).wf(),
        ensures
            final(self).tokens@ == old(self).tokens@,
            final(self).wf(),
            match r {
                Ok(a) => sp_or_tail(old(self).t(), left@, old(self).pos as int) == Ok::<
                    _,
                    ChqlErrorV,
                >((a@, final(self).pos as int)) && old(self).pos <= final(self).pos,
                Err(e) => sp_or_tail(old(self).t(), left@, old(self).pos as int) == Err::<
                    (AstV, int),
                    _,
                >(e@),
            },
        decreases rem(old(self).t(), old(self).pos as int), 5nat,
    {
        if !self.tok_is_or() {
            return Ok(left);
        }
        let end = self.span(self.pos).end;
        self.pos = self.pos + 1;
        if self.pos >= self.tokens.len() {
            return Err(error_at("Expected expression after 'OR'", end));
        }
        let right = match self.parse_and() {
            Ok(a) => a,
            Err(e) => {
                return Err(e);
            },
        };
        self.parse_or_tail(Ast::Or { left: Box::new(left), right: Box::new(right) })
    }

    fn parse_and(&mut self) -> (r: Result<Ast, ChqlError>)
        requires
            old(self).wf(),
        ensures
            Parser::outcome(*old(self), *final(self), r, sp_and(old(self).t(), old(self).pos as int)),
        decreases rem(old(self).t(), old(self).pos as int), 3nat,
    {
        let left = match self.parse_not() {
            Ok(a) => a,
            Err(e) => {
                return Err(e);
            },
        };
        self.parse_and_tail(left)
    }

    fn parse_and_tail(&mut self, left: Ast) -> (r: Result<Ast, ChqlError>)
        requires
            old(self).wf(),
        ensures
            final(self).tokens@ == old(self).tokens@,
            final(self).wf(),
            match r {
                Ok(a) => sp_and_tail(old(self).t(), left@, old(self).pos as int) == Ok::<
                    _,
                    ChqlErrorV,
                >((a@, final(self).pos as int)) && old(self).pos <= final(self).pos,
                Err(e) => sp_and_tail(old(self).t(), left@, old(self).pos as int) == Err::<
                    (AstV, int),
                    _,
                >(e@),
            },
        decreases rem(old(self).t(), old(self).pos as int), 6nat,
    {
        if self.pos >= self.tokens.len() {
            return Ok(left);
        }
        let end = self.span(self.pos).end;
        let is_and = match self.tok(self.pos) {
            Token::And => true,
            _ => false,
        };
        let starts_atom = match self.tok(self.pos) {
            Token::Ident(_) | Token::LParen | Token::Not | Token::String(_) => true,
            _ => false,
        };
        if is_and {
            self.pos = self.pos + 1;
            if self.pos >= self.tokens.len() {
                return Err(error_at("Expected expression after 'AND'", end));
            }
        } else if !starts_atom {
            return Ok(left);
        }
        let right = match self.parse_not() {
            Ok(a) => a,
            Err(e) => {
                return Err(e);
            },
        };
        self.parse_and_tail(Ast::And { left: Box::new(left), right: Box::new(right) })
    }

    fn parse_not(&mut self) -> (r: Result<Ast, ChqlError>)
        requires
            old(self).wf(),
        ensures
            Parser::outcome(*old(self), *final(self), r, sp_not(old(self).t(), old(self).pos as int)),
        decreases rem(old(self).t(), old(self).pos as int), 2nat,
    {
        if self.pos < self.tokens.len() {
            let is_not = match self.tok(self.pos) {
                Token::Not => true,
                _ => false,
            };
            if is_not {
                self.pos = self.pos + 1;
                return match self.parse_atom() {
                    Ok(inner) => Ok(Ast::Not { expr: Box::new(inner) }),
                    Err(e) => Err(e),
                };
            }
        }
        self.parse_atom()
    }

    fn parse_atom(&mut self) -> (r: Result<Ast, ChqlError>)
        requires
            old(self).wf(),
        ensures
            Parser::outcome(
                *old(self),
                *final(self),
                r,
                sp_atom(old(self).t(), old(self).pos as int),
            ),
        decreases rem(old(self).t(), old(self).pos as int), 1nat,
    {
        let ghost t = self.t();
        if self.pos >= self.tokens.len() {
            return Err(error_at("Expected expression", 0));
        }
        let span = self.span(self.pos);
        let tok = self.tok(self.pos).duplicate();
        match tok {
            Token::LParen => {
                self.pos = self.pos + 1;
                let inner = match self.parse_or() {
                    Ok(a) => a,
                    Err(e) => {
                        return Err(e);
                    },
                };
                let closed = self.pos < self.tokens.len() && match self.tok(self.pos) {
                    Token::RParen => true,
                    _ => false,
                };
                if closed {
                    self.pos = self.pos + 1;
                    Ok(inner)
                } else {
                    Err(error_at("Unclosed parenthesis: expected ')'", span.start))
                }
            },
            Token::Ident(name) => {
                self.pos = self.pos + 1;
                self.expect_field_term(&name, span)
            },
            other => {
                let mut m = String::new();
                push_str(&mut m, "Unexpected token ");
                push_display(&mut m, &other);
                Err(ChqlError::at(m, span.start))
            },
        }
    }

    fn expect_field_term(&mut self, field_name: &String, field_span: Span) -> (r: Result<
        Ast,
        ChqlError,
    >)
        requires
            old(self).wf(),
            field_span.end + 8 <= usize::MAX,
        ensures
            final(self).tokens@ == old(self).tokens@,
            final(self).wf(),
            match r {
                Ok(a) => sp_field_term(
                    old(self).t(),
                    field_name@,
                    field_span,
                    old(self).pos as int,
                ) == Ok::<_, ChqlErrorV>((a@, final(self).pos as int)) && old(self).pos
                    < final(self).pos,
                Err(e) => sp_field_term(old(self).t(), field_name@, field_span, old(self).pos as int)
                    == Err::<(AstV, int), _>(e@),
            },
    {
        let name = chars_of(field_name.as_str());
        if !valid_field(&name) {
            let mut m = String::new();
            push_str(&mut m, "Unknown field '");
            push_str(&mut m, field_name.as_str());
            push_str(&mut m, "'. Valid fields: ");
            push_str(
                &mut m,
                "state, branch, repo, repo_id, stage, exit_code, created_at, completed_at",
            );
            return Err(ChqlError::at(m, field_span.start));
        }
        if self.pos >= self.tokens.len() {
            let mut m = String::new();
            push_str(&mut m, "Expected ':' after field '");
            push_str(&mut m, field_name.as_str());
            push_str(&mut m, "'");
            return Err(ChqlError::at(m, field_span.end));
        }
        let is_colon = match self.tok(self.pos) {
            Token::Colon => true,
            _ => false,
        };
        if !is_colon {
            let mut m = String::new();
            push_str(&mut m, "Expected ':' after field '");
            push_str(&mut m, field_name.as_str());
            push_str(&mut m, "', got ");
            push_display(&mut m, self.tok(self.pos));
            return Err(ChqlError::at(m, self.span(self.pos).start));
        }
        self.pos = self.pos + 1;
        self.parse_value(field_name, field_span)
    }

    fn parse_value(&mut self, field_name: &String, field_span: Span) -> (r: Result<Ast, ChqlError>)
        requires
            old(self).wf(),
            field_span.end + 8 <= usize::MAX,
        ensures
            final(self).tokens@ == old(self).tokens@,
            final(self).wf(),
            match r {
                Ok(a) => sp_value(old(self).t(), field_name@, field_span, old(self).pos as int)
                    == Ok::<_, ChqlErrorV>((a@, final(self).pos as int)) && old(self).pos
                    < final(self).pos,
                Err(e) => sp_value(old(self).t(), field_name@, field_span, old(self).pos as int)
                    == Err::<(AstV, int), _>(e@),
            },
    {
        let ghost t = self.t();
        if self.pos >= self.tokens.len() {
            return Err(error_at("Expected value after ':'", field_span.end + 1));
        }
        let span = self.span(self.pos);
        let tok = self.tok(self.pos).duplicate();
        let name = chars_of(field_name.as_str());
        let date_field = is_date_name(&name);
        match tok {
            Token::Bang | Token::BangEq => {
                self.pos = self.pos + 1;
                if self.pos >= self.tokens.len() {
                    return Err(error_at("Expected value after '!'", span.end));
                }
                let next_span = self.span(self.pos);
                let next = self.tok(self.pos).duplicate();
                let value = match next {
                    Token::String(s) => {
                        if !s.terminated {
                            return Err(error_at("Unterminated string literal", next_span.start));
                        }
                        Value::Str { v: s.value }
                    },
                    Token::Ident(id) => Value::Str { v: id },
                    Token::Number(n) => Value::Num { v: n },
                    other => {
                        let mut m = String::new();
                        push_str(&mut m, "Expected value after '!', got ");
                        push_display(&mut m, &other);
                        return Err(ChqlError::at(m, next_span.start));
                    },
                };
                self.pos = self.pos + 1;
                Ok(Ast::Cmp { field: field_name.clone(), op: CmpOp::Neq, value })
            },
            Token::LBracket => {
                self.pos = self.pos + 1;
                self.parse_range(field_name, span)
            },
            Token::Gte | Token::Gt | Token::Lte | Token::Lt => {
                let op = match tok {
                    Token::Gte => CmpOp::Gte,
                    Token::Gt => CmpOp::Gt,
                    Token::Lte => CmpOp::Lte,
                    _ => CmpOp::Lt,
                };
                self.pos = self.pos + 1;
                if self.pos >= self.tokens.len() {
                    return Err(
                        error_at("Expected number or string after comparison operator", span.end),
                    );
                }
                let n_span = self.span(self.pos);
                let n_tok = self.tok(self.pos).duplicate();
                let value = match n_tok {
                    Token::Number(n) => Value::Num { v: n },
                    Token::String(s) => {
                        if !s.terminated {
                            return Err(error_at("Unterminated string literal", n_span.start));
                        }
                        if date_field {
                            Value::Date { v: s.value }
                        } else {
                            Value::Str { v: s.value }
                        }
                    },
                    other => {
                        let mut m = String::new();
                        push_str(&mut m, "Expected number or string after comparison operator, got ");
                        push_display(&mut m, &other);
                        return Err(ChqlError::at(m, n_span.start));
                    },
                };
                self.pos = self.pos + 1;
                Ok(Ast::Cmp { field: field_name.clone(), op, value })
            },
            Token::Ident(id) => {
                let idc = chars_of(id.as_str());
                let is_fn = chars_eq_str(&idc, "i") || chars_eq_str(&idc, "re");
                let lparen_next = self.pos + 1 < self.tokens.len() && match &self.tokens[self.pos
                    + 1].0 {
                    Token::LParen => true,
                    _ => false,
                };
                if is_fn && lparen_next {
                    self.pos = self.pos + 2;
                    return self.parse_call(field_name, &idc, span);
                }
                self.pos = self.pos + 1;
                let op = if contains_char(&idc, '*') {
                    CmpOp::Wildcard
                } else {
                    CmpOp::Eq
                };
                Ok(Ast::Cmp { field: field_name.clone(), op, value: Value::Str { v: id } })
            },
            Token::String(s) => {
                if !s.terminated {
                    return Err(error_at("Unterminated string literal", span.start));
                }
                self.pos = self.pos + 1;
                let vc = chars_of(s.value.as_str());
                let op = if contains_char(&vc, '*') {
                    CmpOp::Wildcard
                } else {
                    CmpOp::Eq
                };
                let value = if date_field && op == CmpOp::Eq {
                    Value::Date { v: s.value }
                } else {
                    Value::Str { v: s.value }
                };
                Ok(Ast::Cmp { field: field_name.clone(), op, value })
            },
            Token::Number(n) => {
                self.pos = self.pos + 1;
                Ok(Ast::Cmp { field: field_name.clone(), op: CmpOp::Eq, value: Value::Num { v: n } })
            },
            other => {
                let mut m = String::new();
                push_str(&mut m, "Unexpected token ");
                push_display(&mut m, &other);
                Err(ChqlError::at(m, span.start))
            },
        }
    }

    fn parse_call(&mut self, field_name: &String, fn_name: &Vec<char>, call_open_span: Span) -> (r:
        Result<Ast, ChqlError>)
        requires
            old(self).wf(),
            call_open_span.end + 8 <= usize::MAX,
            fn_name@ == "i"@ || fn_name@ == "re"@,
        ensures
            final(self).tokens@ == old(self).tokens@,
            final(self).wf(),
            match r {
                Ok(a) => sp_call(
                    old(self).t(),
                    field_name@,
                    fn_name@,
                    call_open_span,
                    old(self).pos as int,
                ) == Ok::<_, ChqlErrorV>((a@, final(self).pos as int)) && old(self).pos
                    < final(self).pos,
                Err(e) => sp_call(
                    old(self).t(),
                    field_name@,
                    fn_name@,
                    call_open_span,
                    old(self).pos as int,
                ) == Err::<(AstV, int), _>(e@),
            },
    {
        if self.pos >= self.tokens.len() {
            return Err(
                error_at(
                    "Unterminated function call: expected string literal then ')'",
                    call_open_span.end + 1,
                ),
            );
        }
        let span = self.span(self.pos);
        let tok = self.tok(self.pos).duplicate();
        let value = match tok {
            Token::String(s) => {
                if !s.terminated {
                    return Err(error_at("Unterminated string literal", span.start));
                }
                s.value
            },
            _ => {
                return Err(
                    error_at(
                        "Unterminated function call: expected string literal then ')'",
                        span.start,
                    ),
                );
            },
        };
        let closed = self.pos + 1 < self.tokens.len() && match self.tok(self.pos + 1) {
            Token::RParen => true,
            _ => false,
        };
        if !closed {
            return Err(
                error_at(
                    "Unterminated function call: expected string literal then ')'",
                    call_open_span.end + 1,
                ),
            );
        }
        self.pos = self.pos + 2;
        let op = if chars_eq_str(fn_name, "i") {
            CmpOp::IlikeContains
        } else {
            CmpOp::Regex
        };
        Ok(Ast::Cmp { field: field_name.clone(), op, value: Value::Str { v: value } })
    }

    fn parse_range(&mut self, field_name: &String, open_span: Span) -> (r: Result<Ast, ChqlError>)
        requires
            old(self).wf(),
            open_span.end + 8 <= usize::MAX,
        ensures
            final(self).tokens@ == old(self).tokens@,
            final(self).wf(),
            match r {
                Ok(a) => sp_range(old(self).t(), field_name@, open_span, old(self).pos as int)
                    == Ok::<_, ChqlErrorV>((a@, final(self).pos as int)) && old(self).pos
                    < final(self).pos,
                Err(e) => sp_range(old(self).t(), field_name@, open_span, old(self).pos as int)
                    == Err::<(AstV, int), _>(e@),
            },
    {
        let lo = match self.parse_range_endpoint(field_name, open_span.end) {
            Ok(v) => v,
            Err(e) => {
                return Err(e);
            },
        };
        let comma = self.pos < self.tokens.len() && match self.tok(self.pos) {
            Token::Comma => true,
            _ => false,
        };
        if !comma {
            return Err(
                error_at(
                    "Unterminated range: expected number or string then ']'",
                    open_span.end + 1,
                ),
            );
        }
        self.pos = self.pos + 1;
        if self.pos >= self.tokens.len() {
            return Err(
                error_at(
                    "Unterminated range: expected number or string then ']'",
                    open_span.end + 4,
                ),
            );
        }
        let next_start = self.span(self.pos).start;
        let is_value = match self.tok(self.pos) {
            Token::Number(_) | Token::String(_) => true,
            _ => false,
        };
        if !is_value {
            return Err(
                error_at("Unterminated range: expected number or string then ']'", next_start),
            );
        }
        let hi = match self.parse_range_endpoint(field_name, next_start) {
            Ok(v) => v,
            Err(e) => {
                return Err(e);
            },
        };
        let closed = self.pos < self.tokens.len() && match self.tok(self.pos) {
            Token::RBracket => true,
            _ => false,
        };
        if !closed {
            return Err(
                error_at("Unterminated range: expected number or string then ']'", open_span.end),
            );
        }
        self.pos = self.pos + 1;
        Ok(Ast::InRange { field: field_name.clone(), lo, hi })
    }

    fn parse_range_endpoint(&mut self, field_name: &String, fallback_pos: usize) -> (r: Result<
        Value,
        ChqlError,
    >)
        requires
            old(self).wf(),
        ensures
            final(self).tokens@ == old(self).tokens@,
            final(self).wf(),
            match r {
                Ok(v) => sp_endpoint(
                    old(self).t(),
                    field_name@,
                    fallback_pos as int,
                    old(self).pos as int,
                ) == Ok::<_, ChqlErrorV>((v@, final(self).pos as int)) && old(self).pos
                    < final(self).pos,
                Err(e) => sp_endpoint(
                    old(self).t(),
                    field_name@,
                    fallback_pos as int,
                    old(self).pos as int,
                ) == Err::<(ValueV, int), _>(e@),
            },
    {
        if self.pos >= self.tokens.len() {
            return Err(
                error_at("Unterminated range: expected number or string then ']'", fallback_pos),
            );
        }
        let span = self.span(self.pos);
        let tok = self.tok(self.pos).duplicate();
        match tok {
            Token::Number(n) => {
                self.pos = self.pos + 1;
                Ok(Value::Num { v: n })
            },
            Token::String(s) => {
                if !s.terminated {
                    return Err(error_at("Unterminated string literal", span.start));
                }
                self.pos = self.pos + 1;
                let name = chars_of(field_name.as_str());
                if is_date_name(&name) {
                    Ok(Value::Date { v: s.value })
                } else {
                    Ok(Value::Str { v: s.value })
                }
            },
            _ => Err(
                error_at("Unterminated range: expected number or string then ']'", span.start),
            ),
        }
    }
}

fn error_at(message: &str, position: usize) -> (e: ChqlError)
    ensures
        e@ == err_at(message@, position as int),
{
    ChqlError::at(String::from_str(message), position)
}

fn valid_field(name: &Vec<char>) -> (b: bool)
    ensures
        b == is_valid_field(name@),
{
    let options = [
        "state",
        "branch",
        "repo",
        "repo_id",
        "stage",
        "exit_code",
        "created_at",
        "completed_at",
    ];
    let b = is_one_of(name, &options);
    proof {
        assert(options@ =~= seq![
            "state",
            "branch",
            "repo",
            "repo_id",
            "stage",
            "exit_code",
            "created_at",
            "completed_at",
        ]);
        if b {
            let i = choose|i: int| 0 <= i < options@.len() && name@ == (#[trigger] options@[i])@;
            assert(valid_fields()[i] == name@);
        }
        if is_valid_field(name@) {
            let i = choose|i: int| 0 <= i < valid_fields().len() && valid_fields()[i] == name@;
            assert(name@ == options@[i]@);
        }
    }
    b
}

fn is_date_name(name: &Vec<char>) -> (b: bool)
    ensures
        b == is_date_field(name@),
{
    chars_eq_str(name, "created_at") || chars_eq_str(name, "completed_at")
}

/// Appends how `t` is shown in error messages.
fn push_display(out: &mut String, t: &Token)
    ensures
        final(out)@ == old(out)@ + tok_display(t@),
{
    match t {
        Token::BangEq => push_str(out, "'!='"),
        Token::Gte => push_str(out, "'>='"),
        Token::Lte => push_str(out, "'<='"),
        Token::Bang => push_str(out, "'!'"),
        Token::Gt => push_str(out, "'>'"),
        Token::Lt => push_str(out, "'<'"),
        Token::Colon => push_str(out, "':'"),
        Token::Comma => push_str(out, "','"),
        Token::LBracket => push_str(out, "'['"),
        Token::RBracket => push_str(out, "']'"),
        Token::LParen => push_str(out, "'('"),
        Token::RParen => push_str(out, "')'"),
        Token::And => push_str(out, "'AND'"),
        Token::Or => push_str(out, "'OR'"),
        Token::Not => push_str(out, "'NOT'"),
        Token::Ident(s) => {
            push_str(out, "'");
            push_str(out, s.as_str());
            push_str(out, "'");
        },
        Token::String(s) => {
            push_str(out, "\"");
            push_str(out, s.value.as_str());
            push_str(out, "\"");
        },
        Token::Number(n) => {
            let c = chars_of(n.as_str());
            push_canonical_numeral(out, &c);
        },
    }
}

proof fn lemma_spans_bounded(s: Seq<char>, t: Toks)
    requires
        s.len() <= usize::MAX / 8,
        spec_tokenize(s) == Ok::<_, ChqlErrorV>(t),
    ensures
        spans_bounded(t),
{
    super::lexer::lemma_tokens_within(s, t);
}

/// Parse `input` into an [`Ast`]. Empty (or all-white-space) input gives
/// `Ok(None)`.
pub fn parse(input: &str) -> (r: Result<Option<Ast>, ChqlError>)
    requires
        input@.len() <= usize::MAX / 8,
    ensures
        match r {
            Ok(Some(a)) => spec_parse(input@) == Ok::<_, ChqlErrorV>(Some(a@)),
            Ok(None) => spec_parse(input@) == Ok::<Option<AstV>, ChqlErrorV>(None),
            Err(e) => spec_parse(input@) == Err::<Option<AstV>, _>(e@),
        },
{
    let chars = chars_of(input);
    let (lo, hi) = trim_bounds(&chars);
    if lo == hi {
        return Ok(None);
    }
    let tokens = match tokenize(input) {
        Ok(t) => t,
        Err(e) => {
            return Err(e);
        },
    };
    if tokens.len() == 0 {
        return Ok(None);
    }
    proof {
        lemma_spans_bounded(input@, toks_view(tokens@));
    }
    let mut p = Parser { tokens, pos: 0 };
    let ast = match p.parse_or() {
        Ok(a) => a,
        Err(e) => {
            return Err(e);
        },
    };
    if p.pos < p.tokens.len() {
        let mut m = String::new();
        push_str(&mut m, "Unexpected token ");
        push_display(&mut m, &p.tokens[p.pos].0);
        return Err(ChqlError::at(m, p.tokens[p.pos].1.start));
    }
    Ok(Some(ast))
}

} // verus!
