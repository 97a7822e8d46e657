//! What evaluation means: a function from an expression, a scope, a heap of
//! scopes and a nesting limit to a result and the heap afterwards.
//!
//! Evaluating a pair uses up one level of nesting for everything inside it;
//! where none is left, the result is the depth error. Every other failure is
//! returned as soon as it occurs, with the heap as it then stands.

use crate::builtin::builtin_model;
use crate::environment::{child_model, define_model, lookup_model, ScopeModel};
use crate::error::Fault;
use crate::expression::{list_items, Value};
use crate::keyword::{form_of, Form};
use vstd::prelude::*;

verus! {

/// How an evaluation ended, and the heap it left.
pub ghost struct Outcome {
    pub result: Result<Value, Fault>,
    pub heap: Seq<ScopeModel>,
}

/// How the evaluation of a run of expressions ended, and the heap it left.
pub ghost struct Gathered {
    pub result: Result<Seq<Value>, Fault>,
    pub heap: Seq<ScopeModel>,
}

/// An evaluation that ended with the value `v`.
pub open spec fn value(v: Value, heap: Seq<ScopeModel>) -> Outcome {
    Outcome { result: Ok(v), heap }
}

/// An evaluation that ended without a value.
pub open spec fn failure(fault: Fault, heap: Seq<ScopeModel>) -> Outcome {
    Outcome { result: Err(fault), heap }
}

/// Every value counts as true in a test except the false boolean and `Nil`.
pub open spec fn truthy(v: Value) -> bool {
    !(v == Value::Boolean(false) || v is Nil)
}

/// The special form that a list with the head `head` is, if any.
pub open spec fn head_form(head: Value) -> Option<Form> {
    match head {
        Value::Symbol(name) => form_of(name),
        _ => None,
    }
}

/// The names of `items` if each of them is a symbol.
pub open spec fn symbol_names(items: Seq<Value>) -> Option<Seq<Seq<u8>>> {
    if forall|i: int| 0 <= i < items.len() ==> #[trigger] items[i] is Symbol {
        Some(Seq::new(items.len(), |i: int| items[i]->Symbol_0))
    } else {
        None
    }
}

/// The name and the value expression of a binding `(name value)`.
pub open spec fn binding_of(v: Value) -> Option<(Seq<u8>, Value)> {
    match list_items(v) {
        Some(parts) => if parts.len() == 2 && parts[0] is Symbol {
            Some((parts[0]->Symbol_0, parts[1]))
        } else {
            None
        },
        None => None,
    }
}

/// The bindings that `items` are, if each of them is one.
pub open spec fn bindings_of(items: Seq<Value>) -> Option<Seq<(Seq<u8>, Value)>> {
    if forall|i: int| 0 <= i < items.len() ==> (#[trigger] binding_of(items[i])) is Some {
        Some(Seq::new(items.len(), |i: int| binding_of(items[i]).unwrap()))
    } else {
        None
    }
}

/// The heap after each of `names` got a reserved cell in `scope`.
pub open spec fn reserve_all(heap: Seq<ScopeModel>, scope: nat, names: Seq<Seq<u8>>) -> Seq<
    ScopeModel,
>
    decreases names.len(),
{
    if names.len() == 0 {
        heap
    } else {
        define_model(reserve_all(heap, scope, names.drop_last()), scope as int, names.last(), None)
    }
}

/// The heap after the first `count` of `names` were bound in `scope`, in order,
/// each to the value at its position.
pub open spec fn bind_all(
    heap: Seq<ScopeModel>,
    scope: nat,
    names: Seq<Seq<u8>>,
    values: Seq<Value>,
    count: nat,
) -> Seq<ScopeModel>
    decreases count,
{
    if count == 0 {
        heap
    } else {
        define_model(
            bind_all(heap, scope, names, values, (count - 1) as nat),
            scope as int,
            names[count - 1],
            Some(values[count - 1]),
        )
    }
}

/// The value of `e` in `scope`.
///
/// A symbol is looked up along the chain of scopes. A pair is a special form
/// if its head is a keyword, and else an application. Every other expression
/// is its own value, whatever the scope and the limit.
pub open spec fn eval_model(e: Value, scope: nat, heap: Seq<ScopeModel>, depth: nat) -> Outcome
    decreases depth, 0nat, 0nat,
{
    match e {
        Value::Symbol(name) => match lookup_model(heap, scope as int, name) {
            Some(v) => value(v, heap),
            None => failure(Fault::UnboundSymbol(name), heap),
        },
        Value::Pair(_, _) => if depth == 0 {
            failure(Fault::DepthExceeded, heap)
        } else {
            match list_items(e) {
                Some(items) => match head_form(items[0]) {
                    Some(form) => eval_form(form, items, scope, heap, (depth - 1) as nat),
                    None => eval_call(items, scope, heap, (depth - 1) as nat),
                },
                None => failure(Fault::ImproperList, heap),
            }
        },
        _ => value(e, heap),
    }
}

/// The value of the special form `form` whose parts, keyword first, are `items`.
pub open spec fn eval_form(
    form: Form,
    items: Seq<Value>,
    scope: nat,
    heap: Seq<ScopeModel>,
    depth: nat,
) -> Outcome
    decreases depth, 4nat, 0nat,
{
    match form {
        Form::Quote => if items.len() == 2 {
            value(items[1], heap)
        } else {
            failure(Fault::Malformed(form), heap)
        },
        Form::Define => eval_define(items, scope, heap, depth),
        // The body is not evaluated and the heap does not change.
        Form::Lambda => Outcome { result: lambda_model(items, scope), heap },
        Form::If => eval_if(items, scope, heap, depth),
        Form::Cond => eval_cond_from(items, 1, scope, heap, depth),
        Form::Let => eval_let(items, scope, heap, depth),
        Form::Eval => eval_eval(items, scope, heap, depth),
        Form::Error => eval_error(items, scope, heap, depth),
        Form::Begin => eval_begin_from(items, 1, scope, heap, depth, Value::Nil),
    }
}

/// `(define name expr)`: the value of `expr`, which `name` is then bound to in
/// the current scope.
pub open spec fn eval_define(items: Seq<Value>, scope: nat, heap: Seq<ScopeModel>, depth: nat) -> Outcome
    decreases depth, 3nat, 0nat,
{
    if items.len() == 3 && items[1] is Symbol {
        let bound = eval_model(items[2], scope, heap, depth);
        match bound.result {
            Ok(v) => value(v, define_model(bound.heap, scope as int, items[1]->Symbol_0, Some(v))),
            Err(_) => bound,
        }
    } else {
        failure(Fault::Malformed(Form::Define), heap)
    }
}

/// What `(lambda (name ...) body)` evaluates to in `scope`: a closure over that
/// scope that has been given no argument yet.
pub open spec fn lambda_model(items: Seq<Value>, scope: nat) -> Result<Value, Fault> {
    if items.len() == 3 {
        match list_items(items[1]) {
            Some(params) => match symbol_names(params) {
                Some(names) => Ok(
                    Value::Closure {
                        params: names,
                        bound: Seq::empty(),
                        body: Box::new(items[2]),
                        scope,
                    },
                ),
                None => Err(Fault::Malformed(Form::Lambda)),
            },
            None => Err(Fault::Malformed(Form::Lambda)),
        }
    } else {
        Err(Fault::Malformed(Form::Lambda))
    }
}

/// `(if test then else)`: the value of `then` where the test is true, of `else`
/// where it is not.
pub open spec fn eval_if(items: Seq<Value>, scope: nat, heap: Seq<ScopeModel>, depth: nat) -> Outcome
    decreases depth, 3nat, 0nat,
{
    if items.len() == 4 {
        let test = eval_model(items[1], scope, heap, depth);
        match test.result {
            Ok(v) => if truthy(v) {
                eval_model(items[2], scope, test.heap, depth)
            } else {
                eval_model(items[3], scope, test.heap, depth)
            },
            Err(_) => test,
        }
    } else {
        failure(Fault::Malformed(Form::If), heap)
    }
}

/// The clauses `(test result)` of a `cond` from the one at `at` on: the value of
/// the result of the first whose test is true.
pub open spec fn eval_cond_from(
    items: Seq<Value>,
    at: int,
    scope: nat,
    heap: Seq<ScopeModel>,
    depth: nat,
) -> Outcome
    decreases depth, 2nat, items.len() - at,
{
    if !(0 <= at < items.len()) {
        failure(Fault::NoMatchingClause, heap)
    } else {
        match list_items(items[at]) {
            Some(clause) => if clause.len() == 2 {
                let test = eval_model(clause[0], scope, heap, depth);
                match test.result {
                    Ok(v) => if truthy(v) {
                        eval_model(clause[1], scope, test.heap, depth)
                    } else {
                        eval_cond_from(items, at + 1, scope, test.heap, depth)
                    },
                    Err(_) => test,
                }
            } else {
                failure(Fault::Malformed(Form::Cond), heap)
            },
            None => failure(Fault::Malformed(Form::Cond), heap),
        }
    }
}

/// `(let ((name expr) ...) body)`: the value of `body` in a new scope under the
/// current one. All names are reserved there first; then each value expression
/// is evaluated in the new scope and bound, in order.
pub open spec fn eval_let(items: Seq<Value>, scope: nat, heap: Seq<ScopeModel>, depth: nat) -> Outcome
    decreases depth, 3nat, 0nat,
{
    if items.len() == 3 {
        match list_items(items[1]) {
            Some(list) => match bindings_of(list) {
                Some(bindings) => {
                    let inner = heap.len();
                    let names = Seq::new(bindings.len(), |i: int| bindings[i].0);
                    let reserved = reserve_all(child_model(heap, scope), inner, names);
                    let filled = eval_let_from(bindings, 0, inner, reserved, depth);
                    match filled.result {
                        Ok(_) => eval_model(items[2], inner, filled.heap, depth),
                        Err(_) => filled,
                    }
                },
                None => failure(Fault::Malformed(Form::Let), heap),
            },
            None => failure(Fault::Malformed(Form::Let), heap),
        }
    } else {
        failure(Fault::Malformed(Form::Let), heap)
    }
}

/// The bindings of a `let` from the one at `at` on: each value expression is
/// evaluated in `scope`, and its name bound there, before the next.
pub open spec fn eval_let_from(
    bindings: Seq<(Seq<u8>, Value)>,
    at: int,
    scope: nat,
    heap: Seq<ScopeModel>,
    depth: nat,
) -> Outcome
    decreases depth, 2nat, bindings.len() - at,
{
    if !(0 <= at < bindings.len()) {
        value(Value::Nil, heap)
    } else {
        let bound = eval_model(bindings[at].1, scope, heap, depth);
        match bound.result {
            Ok(v) => eval_let_from(
                bindings,
                at + 1,
                scope,
                define_model(bound.heap, scope as int, bindings[at].0, Some(v)),
                depth,
            ),
            Err(_) => bound,
        }
    }
}

/// `(eval expr)`: the value of the value of `expr`.
pub open spec fn eval_eval(items: Seq<Value>, scope: nat, heap: Seq<ScopeModel>, depth: nat) -> Outcome
    decreases depth, 3nat, 0nat,
{
    if items.len() == 2 {
        let first = eval_model(items[1], scope, heap, depth);
        match first.result {
            Ok(v) => eval_model(v, scope, first.heap, depth),
            Err(_) => first,
        }
    } else {
        failure(Fault::Malformed(Form::Eval), heap)
    }
}

/// `(error expr)`: never a value; the failure that carries the value of `expr`.
pub open spec fn eval_error(items: Seq<Value>, scope: nat, heap: Seq<ScopeModel>, depth: nat) -> Outcome
    decreases depth, 3nat, 0nat,
{
    if items.len() == 2 {
        let payload = eval_model(items[1], scope, heap, depth);
        match payload.result {
            Ok(v) => failure(Fault::Raised(v), payload.heap),
            Err(_) => payload,
        }
    } else {
        failure(Fault::Malformed(Form::Error), heap)
    }
}

/// The forms of a sequence from the one at `at` on, evaluated in order in the
/// current scope: the value of the last, or `last` if none is left.
pub open spec fn eval_begin_from(
    items: Seq<Value>,
    at: int,
    scope: nat,
    heap: Seq<ScopeModel>,
    depth: nat,
    last: Value,
) -> Outcome
    decreases depth, 2nat, items.len() - at,
{
    if !(0 <= at < items.len()) {
        value(last, heap)
    } else {
        let step = eval_model(items[at], scope, heap, depth);
        match step.result {
            Ok(v) => eval_begin_from(items, at + 1, scope, step.heap, depth, v),
            Err(_) => step,
        }
    }
}

/// The values of the expressions from the one at `at` on, evaluated from left
/// to right in the current scope and added to `values`.
pub open spec fn eval_args_from(
    items: Seq<Value>,
    at: int,
    scope: nat,
    heap: Seq<ScopeModel>,
    depth: nat,
    values: Seq<Value>,
) -> Gathered
    decreases depth, 2nat, items.len() - at,
{
    if !(0 <= at < items.len()) {
        Gathered { result: Ok(values), heap }
    } else {
        let step = eval_model(items[at], scope, heap, depth);
        match step.result {
            Ok(v) => eval_args_from(items, at + 1, scope, step.heap, depth, values.push(v)),
            Err(fault) => Gathered { result: Err(fault), heap: step.heap },
        }
    }
}

/// An application: the head is evaluated and must be a procedure; then the
/// arguments are evaluated from left to right; then the procedure is applied.
pub open spec fn eval_call(items: Seq<Value>, scope: nat, heap: Seq<ScopeModel>, depth: nat) -> Outcome
    decreases depth, 3nat, 0nat,
{
    let head = eval_model(items[0], scope, heap, depth);
    match head.result {
        Ok(f) => if f is Closure || f is Builtin {
            let args = eval_args_from(items, 1, scope, head.heap, depth, Seq::empty());
            match args.result {
                Ok(values) => apply_model(f, values, args.heap, depth),
                Err(fault) => failure(fault, args.heap),
            }
        } else {
            failure(Fault::NotAProcedure, head.heap)
        },
        Err(_) => head,
    }
}

/// The result of applying the procedure `f` to evaluated arguments.
///
/// A primitive computes its result from the arguments. A closure that with
/// these arguments has fewer than it declares becomes a closure that holds
/// them too. One that has all it declares gets a new scope under the scope it
/// was made in, with each parameter bound to its argument, and its body is
/// evaluated there. More arguments than declared are an error.
pub open spec fn apply_model(f: Value, args: Seq<Value>, heap: Seq<ScopeModel>, depth: nat) -> Outcome
    decreases depth, 1nat, 0nat,
{
    match f {
        Value::Builtin(b) => Outcome { result: builtin_model(b, args), heap },
        Value::Closure { params, bound, body, scope } => {
            let given = bound + args;
            if given.len() > params.len() {
                failure(Fault::TooManyArguments, heap)
            } else if given.len() < params.len() {
                value(Value::Closure { params, bound: given, body, scope }, heap)
            } else if scope >= heap.len() {
                failure(Fault::UnknownScope, heap)
            } else {
                let inner = heap.len();
                let entered = bind_all(child_model(heap, scope), inner, params, given, given.len());
                eval_model(*body, inner, entered, depth)
            }
        },
        _ => failure(Fault::NotAProcedure, heap),
    }
}

} // verus!
