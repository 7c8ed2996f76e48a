//! The whole pipeline, text to value, and the diagnostics of its errors.
use vstd::prelude::*;
use crate::interpreter::{Interpreter, RuntimeError, Value, ValueView, eval};
use crate::parser::{ParserErr, ParserErrView, p_expression, parse_tokens};
use crate::scanner::{ScanErr, Scanner, lemma_scan_shape, scan};

verus! {

/// The error of the stage that stopped.
pub enum LoxError {
    Scan(ScanErr),
    Parse(ParserErr),
    Runtime(RuntimeError),
}

/// The outcome of running the source text `s`, stage by stage.
pub open spec fn run_spec(s: Seq<char>) -> Result<ValueView, StageError> {
    match scan(s) {
        Err(e) => Err(StageError::Scan(e)),
        Ok(ts) => match p_expression(ts, 0) {
            Err(e) => Err(StageError::Parse(e)),
            Ok((tree, _)) => match eval(tree) {
                Ok(v) => Ok(v),
                Err(e) => Err(StageError::Runtime(e)),
            },
        },
    }
}

/// The view of a `LoxError`.
pub enum StageError {
    Scan(ScanErr),
    Parse(ParserErrView),
    Runtime(RuntimeError),
}

pub open spec fn run_result_view(r: Result<Value, LoxError>) -> Result<ValueView, StageError> {
    match r {
        Ok(v) => Ok(v@),
        Err(LoxError::Scan(e)) => Err(StageError::Scan(e)),
        Err(LoxError::Parse(e)) => Err(StageError::Parse(e@)),
        Err(LoxError::Runtime(e)) => Err(StageError::Runtime(e)),
    }
}

/// Scans, parses and evaluates `source`.
pub fn run(source: &String) -> (r: Result<Value, LoxError>)
    requires
        source@.len() + 1 < usize::MAX,
    ensures
        run_result_view(r) == run_spec(source@),
{
    let scanner = Scanner { source: source.clone() };
    proof {
        lemma_scan_shape(source@, 0, 1);
    }
    let tokens = match scanner.scan_tokens() {
        Ok(t) => t,
        Err(e) => return Err(LoxError::Scan(e)),
    };
    let tree = match parse_tokens(&tokens) {
        Ok(t) => t,
        Err(e) => return Err(LoxError::Parse(e)),
    };
    match Interpreter.process(&tree) {
        Ok(v) => Ok(v),
        Err(e) => Err(LoxError::Runtime(e)),
    }
}

/// A one-line diagnostic: `[line <line>] Error<location>: <message>`.
pub struct Report {
    pub line: usize,
    pub location: Vec<char>,
    pub message: Vec<char>,
}

/// The diagnostic of an error that has no location.
pub fn error(line: usize, message: Vec<char>) -> (r: Report)
    ensures
        r.line == line,
        r.location@ == Seq::<char>::empty(),
        r.message@ == message@,
{
    report(line, Vec::new(), message)
}

pub fn report(line: usize, location: Vec<char>, message: Vec<char>) -> (r: Report)
    ensures
        r.line == line,
        r.location@ == location@,
        r.message@ == message@,
{
    Report { line, location, message }
}

} // verus!
