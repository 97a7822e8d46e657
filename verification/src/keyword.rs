//! The words that the reader and the evaluator know by name.

use crate::expression::same_bytes;
use vstd::prelude::*;

verus! {

/// The constructs that are recognised by their keyword and handled by shape.
#[derive(Clone, Copy, Debug, PartialEq, Eq, Structural)]
pub enum Form {
    Quote,
    Define,
    Lambda,
    If,
    Cond,
    Let,
    Eval,
    Error,
    Begin,
}

/// The keyword of a special form.
pub open spec fn form_name(form: Form) -> Seq<u8> {
    match form {
        Form::Quote => seq!['q' as u8, 'u' as u8, 'o' as u8, 't' as u8, 'e' as u8],
        Form::Define => seq!['d' as u8, 'e' as u8, 'f' as u8, 'i' as u8, 'n' as u8, 'e' as u8],
        Form::Lambda => seq!['l' as u8, 'a' as u8, 'm' as u8, 'b' as u8, 'd' as u8, 'a' as u8],
        Form::If => seq!['i' as u8, 'f' as u8],
        Form::Cond => seq!['c' as u8, 'o' as u8, 'n' as u8, 'd' as u8],
        Form::Let => seq!['l' as u8, 'e' as u8, 't' as u8],
        Form::Eval => seq!['e' as u8, 'v' as u8, 'a' as u8, 'l' as u8],
        Form::Error => seq!['e' as u8, 'r' as u8, 'r' as u8, 'o' as u8, 'r' as u8],
        Form::Begin => seq!['b' as u8, 'e' as u8, 'g' as u8, 'i' as u8, 'n' as u8],
    }
}

/// The special form whose keyword is `name`, if it is one.
pub open spec fn form_of(name: Seq<u8>) -> Option<Form> {
    if name == form_name(Form::Quote) {
        Some(Form::Quote)
    } else if name == form_name(Form::Define) {
        Some(Form::Define)
    } else if name == form_name(Form::Lambda) {
        Some(Form::Lambda)
    } else if name == form_name(Form::If) {
        Some(Form::If)
    } else if name == form_name(Form::Cond) {
        Some(Form::Cond)
    } else if name == form_name(Form::Let) {
        Some(Form::Let)
    } else if name == form_name(Form::Eval) {
        Some(Form::Eval)
    } else if name == form_name(Form::Error) {
        Some(Form::Error)
    } else if name == form_name(Form::Begin) {
        Some(Form::Begin)
    } else {
        None
    }
}

/// The literal for the true boolean.
pub open spec fn word_true() -> Seq<u8> {
    seq!['#' as u8, 't' as u8, 'r' as u8, 'u' as u8, 'e' as u8]
}

/// The literal for the false boolean.
pub open spec fn word_false() -> Seq<u8> {
    seq!['#' as u8, 'f' as u8, 'a' as u8, 'l' as u8, 's' as u8, 'e' as u8]
}

/// The literal for the empty list.
pub open spec fn word_nil() -> Seq<u8> {
    seq!['#' as u8, 'n' as u8, 'i' as u8, 'l' as u8]
}

/// The keyword of a special form, as bytes.
pub fn form_symbol(form: Form) -> (name: Vec<u8>)
    ensures
        name@ == form_name(form),
{
    let name = match form {
        Form::Quote => vec!['q' as u8, 'u' as u8, 'o' as u8, 't' as u8, 'e' as u8],
        Form::Define => vec!['d' as u8, 'e' as u8, 'f' as u8, 'i' as u8, 'n' as u8, 'e' as u8],
        Form::Lambda => vec!['l' as u8, 'a' as u8, 'm' as u8, 'b' as u8, 'd' as u8, 'a' as u8],
        Form::If => vec!['i' as u8, 'f' as u8],
        Form::Cond => vec!['c' as u8, 'o' as u8, 'n' as u8, 'd' as u8],
        Form::Let => vec!['l' as u8, 'e' as u8, 't' as u8],
        Form::Eval => vec!['e' as u8, 'v' as u8, 'a' as u8, 'l' as u8],
        Form::Error => vec!['e' as u8, 'r' as u8, 'r' as u8, 'o' as u8, 'r' as u8],
        Form::Begin => vec!['b' as u8, 'e' as u8, 'g' as u8, 'i' as u8, 'n' as u8],
    };
    name
}

/// The special form whose keyword is `name`, if it is one.
pub fn special_form(name: &[u8]) -> (r: Option<Form>)
    ensures
        r == form_of(name@),
{
    let quote = ['q' as u8, 'u' as u8, 'o' as u8, 't' as u8, 'e' as u8];
    let define = ['d' as u8, 'e' as u8, 'f' as u8, 'i' as u8, 'n' as u8, 'e' as u8];
    let lambda = ['l' as u8, 'a' as u8, 'm' as u8, 'b' as u8, 'd' as u8, 'a' as u8];
    let if_word = ['i' as u8, 'f' as u8];
    let cond = ['c' as u8, 'o' as u8, 'n' as u8, 'd' as u8];
    let let_word = ['l' as u8, 'e' as u8, 't' as u8];
    let eval = ['e' as u8, 'v' as u8, 'a' as u8, 'l' as u8];
    let error = ['e' as u8, 'r' as u8, 'r' as u8, 'o' as u8, 'r' as u8];
    let begin = ['b' as u8, 'e' as u8, 'g' as u8, 'i' as u8, 'n' as u8];
    if same_bytes(name, quote.as_slice()) {
        Some(Form::Quote)
    } else if same_bytes(name, define.as_slice()) {
        Some(Form::Define)
    } else if same_bytes(name, lambda.as_slice()) {
        Some(Form::Lambda)
    } else if same_bytes(name, if_word.as_slice()) {
        Some(Form::If)
    } else if same_bytes(name, cond.as_slice()) {
        Some(Form::Cond)
    } else if same_bytes(name, let_word.as_slice()) {
        Some(Form::Let)
    } else if same_bytes(name, eval.as_slice()) {
        Some(Form::Eval)
    } else if same_bytes(name, error.as_slice()) {
        Some(Form::Error)
    } else if same_bytes(name, begin.as_slice()) {
        Some(Form::Begin)
    } else {
        None
    }
}

} // verus!
