//! A small dynamically typed scripting language: scanner, recursive-descent
//! parser and tree-walking evaluator, each verified against a mathematical
//! model of what it computes.
//!
//! - [`tokens`]: the tokens that the scanner hands to the parser.
//! - [`lexemes`] says what the tokens of a text are; [`scanner`] finds them.
//! - [`grammar`] says what the tokens parse to; [`parser`] parses them.
//! - [`expr`] and [`stmt`]: the trees, what they evaluate to, and their
//!   evaluation in an [`environment`] of nested scopes.
//! - [`arithmetic`]: the value that precedence gives an arithmetic
//!   expression, and the law that parsing and evaluating gives it.
//! - [`interpreter`]: all of it in one call, from a text to what it shows.
//! - [`error`]: what can go wrong before and during evaluation.
//! - [`number`]: comparison and negation of numbers.
//!
//! Numbers are IEEE 754 binary64 values, carried as their bit patterns.
//! Comparison, equality and negation are decided here on the bit pattern.
//! Rounding arithmetic, the reading of a numeral and the printing of a
//! number are supplied by the caller, as functions on bit patterns. A
//! contract then speaks of every mathematical function that the caller's
//! function computes, and where a program needs none, as one without
//! numerals or without `+`, `-`, `*` and `/`, of every function at all.

pub mod arithmetic;
pub mod environment;
pub mod error;
pub mod expr;
pub mod grammar;
pub mod interpreter;
pub mod lexemes;
pub mod number;
pub mod parser;
pub mod scanner;
pub mod stmt;
pub mod tokens;
