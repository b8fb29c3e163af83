//! A front end for a small prefix-notation arithmetic language: text is
//! parsed into an expression tree, which is then evaluated to an unsigned
//! integer.
use vstd::prelude::*;

pub mod ast;
pub mod eval;
pub mod parser;

use crate::eval::{EvalError, value};
use crate::parser::{ParseError, parse, program};
use vstd::string::StringSliceAdditionalSpecFns;

verus! {

/// Why a line of input has no value.
#[derive(Debug, Clone, Copy, PartialEq, Eq, Structural)]
pub enum Error {
    Parse(ParseError),
    Eval(EvalError),
}

/// The value of the program spelled by `s`, or the first fault met in
/// parsing it or else in evaluating it.
pub open spec fn outcome(s: Seq<u8>) -> Result<usize, Error> {
    match program(s) {
        Err(x) => Err(Error::Parse(x)),
        Ok(t) => match value(t) {
            Err(x) => Err(Error::Eval(x)),
            Ok(v) => Ok(v),
        },
    }
}

/// Parses `input` as a program and evaluates it.
pub fn run(input: &str) -> (r: Result<usize, Error>)
    ensures
        r == outcome(input.spec_bytes()),
{
    match parse(input) {
        Err(x) => Err(Error::Parse(x)),
        Ok(tree) => match tree.eval() {
            Err(x) => Err(Error::Eval(x)),
            Ok(v) => Ok(v),
        },
    }
}

} // verus!
