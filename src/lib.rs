//! A small expression language: a scanner, a recursive-descent parser that
//! builds a syntax tree, and a tree-walking evaluator.

pub mod eval;
pub mod laws;
pub mod lexer;
pub mod literal;
pub mod parser;
pub mod symbol;
pub mod syntax;
pub mod types;
pub mod value;
