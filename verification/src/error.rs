//! What can go wrong while reading or evaluating a program.

use crate::expression::{Builtin, Expr, Value};
use crate::keyword::Form;
use std::rc::Rc;
use vstd::prelude::*;

verus! {

/// Why a text is not a sequence of well-formed expressions.
#[derive(Clone, Copy, Debug, PartialEq, Eq, Structural)]
pub enum ParseError {
    /// The text ends inside a list, or right after a quote mark.
    UnexpectedEnd,
    /// A closing parenthesis without an open list.
    UnexpectedClose,
    /// A numeric literal that does not fit the number type.
    NumberOutOfRange,
}

/// Why an evaluation stopped without a value.
#[derive(Debug, PartialEq, Eq)]
pub enum EvalError {
    /// No scope on the chain binds the symbol, or the binding is still reserved.
    UnboundSymbol(Vec<u8>),
    /// A form to evaluate is a chain of pairs that does not end in `Nil`.
    ImproperList,
    /// A special form with the wrong number or kind of parts.
    Malformed(Form),
    /// The head of an application is neither a closure nor a primitive.
    NotAProcedure,
    /// A closure was given more arguments than it still awaits.
    TooManyArguments,
    /// A primitive was given the wrong number of arguments.
    Arity(Builtin),
    /// A primitive was given an argument of the wrong variant.
    Type(Builtin),
    /// Division or remainder by zero.
    DivisionByZero,
    /// The result of an arithmetic primitive does not fit the number type.
    Overflow(Builtin),
    /// No clause of a `cond` had a true test.
    NoMatchingClause,
    /// The program signalled an error; the payload is the evaluated argument.
    Raised(Rc<Expr>),
    /// A closure names a scope that the environment does not hold.
    UnknownScope,
    /// Evaluation nested deeper than the given limit.
    DepthExceeded,
}

/// The mathematical counterpart of [`EvalError`].
pub ghost enum Fault {
    UnboundSymbol(Seq<u8>),
    ImproperList,
    Malformed(Form),
    NotAProcedure,
    TooManyArguments,
    Arity(Builtin),
    Type(Builtin),
    DivisionByZero,
    Overflow(Builtin),
    NoMatchingClause,
    Raised(Value),
    UnknownScope,
    DepthExceeded,
}

impl View for EvalError {
    type V = Fault;

    open spec fn view(&self) -> Fault {
        match *self {
            EvalError::UnboundSymbol(name) => Fault::UnboundSymbol(name@),
            EvalError::ImproperList => Fault::ImproperList,
            EvalError::Malformed(form) => Fault::Malformed(form),
            EvalError::NotAProcedure => Fault::NotAProcedure,
            EvalError::TooManyArguments => Fault::TooManyArguments,
            EvalError::Arity(b) => Fault::Arity(b),
            EvalError::Type(b) => Fault::Type(b),
            EvalError::DivisionByZero => Fault::DivisionByZero,
            EvalError::Overflow(b) => Fault::Overflow(b),
            EvalError::NoMatchingClause => Fault::NoMatchingClause,
            EvalError::Raised(payload) => Fault::Raised(payload@),
            EvalError::UnknownScope => Fault::UnknownScope,
            EvalError::DepthExceeded => Fault::DepthExceeded,
        }
    }
}

/// The mathematical reading of what an evaluation returned.
pub open spec fn result_model(r: Result<Rc<Expr>, EvalError>) -> Result<Value, Fault> {
    match r {
        Ok(e) => Ok(e@),
        Err(err) => Err(err@),
    }
}

/// Failure of either stage of running a program text.
#[derive(Debug, PartialEq, Eq)]
pub enum Error {
    Parse(ParseError),
    Eval(EvalError),
}

/// The mathematical counterpart of [`Error`].
pub ghost enum Failure {
    Parse(ParseError),
    Eval(Fault),
}

impl View for Error {
    type V = Failure;

    open spec fn view(&self) -> Failure {
        match *self {
            Error::Parse(e) => Failure::Parse(e),
            Error::Eval(e) => Failure::Eval(e@),
        }
    }
}

} // verus!
