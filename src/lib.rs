//! A front end and evaluator for a small Pascal-like language: text is split
//! into tokens, parsed by recursive descent into a tree, checked against its
//! nested scopes, and evaluated to a value and a table of variables.
//!
//! Each stage is stated by spec functions (`lex_at`, `p_program`, `visit`,
//! `eval`) that its executable code is proved to follow exactly. Reals are
//! exact fractions of two `i64` kept in lowest terms.
pub mod tokens;
pub mod lexer;
pub mod ast;
pub mod error;
pub mod parser;
pub mod symbols;
pub mod value;
pub mod interpreter;
