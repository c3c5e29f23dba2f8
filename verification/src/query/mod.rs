//! ChQL — Chola Query Language, a typed search language for CI builds.
//!
//! Pipeline: `lexer` → `parser` → `compile`. The intermediate representation
//! is `ast::Ast`; compiled output is a SQL fragment with `?` placeholders and
//! an ordered list of binds, so no user text ever becomes SQL.
pub mod ast;
pub mod compile;
pub mod error;
pub mod lexer;
pub mod numeral;
pub mod parser;
