//! A tree-walking interpreter for a small dynamically typed scripting
//! language: a scanner, a recursive-descent parser with panic-mode
//! recovery, a chain of lexical environments, and an evaluator with
//! first-class functions and closures.
pub mod diag;
pub mod environment;
pub mod interpreter;
pub mod expression;
pub mod lox_callable;
pub mod model;
pub mod numeric;
pub mod parser;
pub mod scanner;
pub mod statement;
pub mod token;
