//! Scanner, parser and evaluator for a small dynamically typed expression language.
//!
//! The pipeline is `Scanner` (text to tokens), `Parser` (tokens to an `Expr` tree)
//! and `Interpreter` (tree to one value or one runtime error). Each stage is
//! proved against a specification function of its input: `scan_tokens` and
//! `scan_errors`, `parse_tokens`, and `eval`. Numbers are exact decimals of any
//! size; a quotient keeps sixteen fractional digits.
pub mod natural;
pub mod number;
pub mod scanner;
pub mod parser;
pub mod evaluator;
pub mod driver;
