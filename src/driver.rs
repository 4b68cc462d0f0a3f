//! The whole pipeline on one source text: scan, parse, then print a tree or a value.
use vstd::prelude::*;
use crate::evaluator::{Interpreter, RunTimeError, eval, value_text};
use crate::parser::{Expr, Parser, ParseError, parse_tokens, tree_text};
use crate::scanner::{ScanError, Scanner, scan_errors, scan_tokens};

verus! {

/// How a run of the pipeline ended.
#[derive(Debug)]
pub enum Outcome {
    /// The line to print.
    Success(String),
    /// Lexical errors, in source order.
    Lexical(Vec<ScanError>),
    Parse(ParseError),
    Runtime(RunTimeError),
}

impl Outcome {
    /// `0` on success, `65` after a lexical or parse error, `70` after a runtime error.
    pub fn exit_code(&self) -> (r: i32)
        ensures
            r == match self {
                Outcome::Success(_) => 0i32,
                Outcome::Lexical(_) | Outcome::Parse(_) => 65i32,
                Outcome::Runtime(_) => 70i32,
            },
    {
        match self {
            Outcome::Success(_) => 0,
            Outcome::Lexical(_) | Outcome::Parse(_) => 65,
            Outcome::Runtime(_) => 70,
        }
    }
}

/// Scans `source` and parses its tokens; `Err` holds the outcome of a failure.
fn scan_and_parse(source: &str) -> (r: Result<Expr, Outcome>)
    requires
        source@.len() < usize::MAX,
    ensures
        scan_errors(source@).len() > 0 ==> (r matches Err(Outcome::Lexical(v)) && v@ == scan_errors(source@)),
        scan_errors(source@).len() == 0 ==> match parse_tokens(scan_tokens(source@)) {
            Ok(t) => r matches Ok(e) && e.tree() == t && e.wf(),
            Err(err) => r matches Err(Outcome::Parse(x)) && x == err,
        },
{
    let mut scanner = Scanner::new();
    scanner.scan_and_tokenize(source);
    if scanner.errors.len() > 0 {
        return Err(Outcome::Lexical(scanner.errors));
    }
    let mut parser = Parser::new(scanner.tokens);
    match parser.parse() {
        Ok(e) => Ok(e),
        Err(err) => Err(Outcome::Parse(err)),
    }
}

/// Parses `source` and gives the prefix form of its tree.
pub fn parse_source(source: &str) -> (r: Outcome)
    requires
        source@.len() < usize::MAX,
    ensures
        scan_errors(source@).len() > 0 ==> (r matches Outcome::Lexical(v) && v@ == scan_errors(source@)),
        scan_errors(source@).len() == 0 ==> match parse_tokens(scan_tokens(source@)) {
            Ok(t) => r matches Outcome::Success(s) && s@ == tree_text(t),
            Err(err) => r matches Outcome::Parse(x) && x == err,
        },
{
    match scan_and_parse(source) {
        Ok(e) => Outcome::Success(e.to_text()),
        Err(o) => o,
    }
}

/// Evaluates `source` and gives the display text of its value.
pub fn evaluate_source(source: &str) -> (r: Outcome)
    requires
        source@.len() < usize::MAX,
    ensures
        scan_errors(source@).len() > 0 ==> (r matches Outcome::Lexical(v) && v@ == scan_errors(source@)),
        scan_errors(source@).len() == 0 ==> match parse_tokens(scan_tokens(source@)) {
            Ok(t) => match eval(t) {
                Ok(v) => r matches Outcome::Success(s) && s@ == value_text(v),
                Err((tok, msg)) => r matches Outcome::Runtime(e) && e.token@ == tok && e.message@ == msg,
            },
            Err(err) => r matches Outcome::Parse(x) && x == err,
        },
{
    match scan_and_parse(source) {
        Ok(e) => {
            let interpreter = Interpreter::new();
            match interpreter.interpret(&e) {
                Ok(s) => Outcome::Success(s),
                Err(err) => Outcome::Runtime(err),
            }
        },
        Err(o) => o,
    }
}

} // verus!
