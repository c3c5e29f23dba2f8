//! ChQL syntax tree and its mathematical view.
use vstd::prelude::*;

verus! {

/// Comparison operators.
#[derive(Debug, Clone, Copy, PartialEq, Eq, Structural)]
pub enum CmpOp {
    Eq,
    Neq,
    Gt,
    Gte,
    Lt,
    Lte,
    IlikeContains,
    Regex,
    Wildcard,
}

/// A literal value. Numbers keep the numeral exactly as written
/// (`-?[0-9]+(\.[0-9]+)?`); callers that need a float read it from that text.
#[derive(Debug, Clone, PartialEq)]
pub enum Value {
    Str { v: String },
    Num { v: String },
    Date { v: String },
}

/// The view of a `Value`.
pub enum ValueV {
    Str(Seq<char>),
    Num(Seq<char>),
    Date(Seq<char>),
}

impl View for Value {
    type V = ValueV;

    open spec fn view(&self) -> ValueV {
        match self {
            Value::Str { v } => ValueV::Str(v@),
            Value::Num { v } => ValueV::Num(v@),
            Value::Date { v } => ValueV::Date(v@),
        }
    }
}

/// A ChQL expression.
#[derive(Debug, PartialEq)]
pub enum Ast {
    And { left: Box<Ast>, right: Box<Ast> },
    Or { left: Box<Ast>, right: Box<Ast> },
    Not { expr: Box<Ast> },
    Cmp { field: String, op: CmpOp, value: Value },
    InRange { field: String, lo: Value, hi: Value },
}

/// The view of an `Ast`.
pub enum AstV {
    And(Box<AstV>, Box<AstV>),
    Or(Box<AstV>, Box<AstV>),
    Not(Box<AstV>),
    Cmp(Seq<char>, CmpOp, ValueV),
    InRange(Seq<char>, ValueV, ValueV),
}

pub open spec fn ast_view(a: Ast) -> AstV
    decreases a,
{
    match a {
        Ast::And { left, right } => AstV::And(Box::new(ast_view(*left)), Box::new(ast_view(*right))),
        Ast::Or { left, right } => AstV::Or(Box::new(ast_view(*left)), Box::new(ast_view(*right))),
        Ast::Not { expr } => AstV::Not(Box::new(ast_view(*expr))),
        Ast::Cmp { field, op, value } => AstV::Cmp(field@, op, value@),
        Ast::InRange { field, lo, hi } => AstV::InRange(field@, lo@, hi@),
    }
}

impl View for Ast {
    type V = AstV;

    open spec fn view(&self) -> AstV {
        ast_view(*self)
    }
}

} // verus!
