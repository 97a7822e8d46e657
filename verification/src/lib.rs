//! A small Lisp: S-expression reader, expression model, scoped environment and
//! evaluator, each with a mathematical model that its contract is stated over.

pub mod builtin;
pub mod currying;
pub mod depth;
pub mod environment;
pub mod error;
pub mod evaluator;
pub mod expression;
pub mod keyword;
pub mod laws;
pub mod parser;
pub mod semantics;

use crate::environment::{root_model, Environment, ROOT};
use crate::error::{Error, Failure};
use crate::evaluator::eval;
use crate::expression::{Expr, Value};
use crate::parser::{parse, parse_model};
use crate::semantics::eval_model;
use std::rc::Rc;
use vstd::prelude::*;
use vstd::string::StringSliceAdditionalSpecFns;

verus! {

/// How deep [`parse_and_eval`] lets evaluation nest.
pub const DEPTH_LIMIT: usize = 512;

/// What a program text evaluates to in a fresh environment: the value of its
/// last top-level form, or the first failure of reading or evaluating it.
pub open spec fn run_model(text: Seq<u8>, depth: nat) -> Result<Value, Failure> {
    match parse_model(text) {
        Ok(program) => match eval_model(program, ROOT as nat, root_model(), depth).result {
            Ok(v) => Ok(v),
            Err(fault) => Err(Failure::Eval(fault)),
        },
        Err(e) => Err(Failure::Parse(e)),
    }
}

/// The mathematical reading of what running a program returned.
pub open spec fn run_result(r: Result<Rc<Expr>, Error>) -> Result<Value, Failure> {
    match r {
        Ok(e) => Ok(e@),
        Err(err) => Err(err@),
    }
}

/// Reads a program text and evaluates it in a fresh environment, nesting at
/// most `depth` levels deep.
pub fn run(text: &[u8], depth: usize) -> (r: Result<Rc<Expr>, Error>)
    ensures
        run_result(r) == run_model(text@, depth as nat),
{
    match parse(text) {
        Ok(program) => {
            let mut env = Environment::new();
            match eval(&program, ROOT, &mut env, depth) {
                Ok(v) => Ok(v),
                Err(e) => Err(Error::Eval(e)),
            }
        },
        Err(e) => Err(Error::Parse(e)),
    }
}

/// Reads a program text and evaluates it in a fresh environment.
pub fn parse_and_eval(input: &str) -> (r: Result<Rc<Expr>, Error>)
    ensures
        run_result(r) == run_model(input.spec_bytes(), DEPTH_LIMIT as nat),
{
    run(input.as_bytes(), DEPTH_LIMIT)
}

} // verus!
