//! The evaluator: walks an expression against an environment.
//!
//! Each function here computes what the function of the same name in the
//! semantics defines, on the same arguments, and leaves the environment as
//! that function says.

use crate::builtin::apply_builtin;
use crate::environment::{child_model, Environment, ScopeId, ScopeModel};
use crate::error::{result_model, EvalError};
use crate::expression::{
    lemma_closure_view,
    names_of,
    share,
    values_of,
    Expr,
    Value,
};
use crate::keyword::{special_form, Form};
use crate::semantics::{
    apply_model,
    bind_all,
    binding_of,
    bindings_of,
    eval_args_from,
    eval_begin_from,
    eval_call,
    eval_cond_from,
    eval_define,
    eval_error,
    eval_eval,
    eval_form,
    eval_if,
    eval_let,
    eval_let_from,
    eval_model,
    lambda_model,
    reserve_all,
    symbol_names,
    truthy,
    Gathered,
    Outcome,
};
use std::rc::Rc;
use vstd::prelude::*;
use vstd::slice::slice_to_vec;

verus! {

/// The mathematical reading of how a call ended and of the heap it left.
pub open spec fn ended(r: Result<Rc<Expr>, EvalError>, heap: Seq<ScopeModel>) -> Outcome {
    Outcome { result: result_model(r), heap }
}

/// The mathematical reading of how the evaluation of arguments ended.
pub open spec fn gathered(r: Result<Vec<Rc<Expr>>, EvalError>, heap: Seq<ScopeModel>) -> Gathered {
    Gathered {
        result: match r {
            Ok(values) => Ok(values_of(values@)),
            Err(e) => Err(e@),
        },
        heap,
    }
}

/// Whether a value counts as true in a test.
pub fn is_truthy(v: &Rc<Expr>) -> (r: bool)
    ensures
        r == truthy(v@),
{
    match &**v {
        Expr::Boolean(b) => *b,
        Expr::Nil => false,
        _ => true,
    }
}

fn copy_names(names: &Vec<Vec<u8>>) -> (r: Vec<Vec<u8>>)
    ensures
        names_of(r@) == names_of(names@),
{
    let mut out: Vec<Vec<u8>> = Vec::new();
    let mut i: usize = 0;
    while i < names.len()
        invariant
            i <= names.len(),
            out.len() == i,
            forall|j: int| 0 <= j < i ==> out@[j]@ == names@[j]@,
        decreases names.len() - i,
    {
        out.push(slice_to_vec(names[i].as_slice()));
        i += 1;
    }
    out
}

/// The items of `first` followed by those of `second`.
fn joined(first: &Vec<Rc<Expr>>, second: &Vec<Rc<Expr>>) -> (r: Vec<Rc<Expr>>)
    ensures
        values_of(r@) == values_of(first@) + values_of(second@),
{
    let mut out: Vec<Rc<Expr>> = Vec::new();
    let mut i: usize = 0;
    while i < first.len()
        invariant
            i <= first.len(),
            out.len() == i,
            forall|j: int| 0 <= j < i ==> out@[j]@ == first@[j]@,
        decreases first.len() - i,
    {
        out.push(share(&first[i]));
        i += 1;
    }
    let mut k: usize = 0;
    while k < second.len()
        invariant
            k <= second.len(),
            out.len() == first.len() + k,
            forall|j: int| 0 <= j < first.len() ==> out@[j]@ == first@[j]@,
            forall|j: int| 0 <= j < k ==> out@[first.len() + j]@ == second@[j]@,
        decreases second.len() - k,
    {
        out.push(share(&second[k]));
        k += 1;
    }
    out
}

/// The names of `items` if each of them is a symbol.
fn names_of_symbols(items: &Vec<Rc<Expr>>) -> (r: Option<Vec<Vec<u8>>>)
    ensures
        match symbol_names(values_of(items@)) {
            Some(names) => r is Some && names_of(r.unwrap()@) == names,
            None => r is None,
        },
{
    let ghost all = values_of(items@);
    let mut out: Vec<Vec<u8>> = Vec::new();
    let mut i: usize = 0;
    while i < items.len()
        invariant
            i <= items.len(),
            all == values_of(items@),
            out.len() == i,
            forall|j: int| 0 <= j < i ==> (#[trigger] all[j]) is Symbol && out@[j]@ == all[j]->Symbol_0,
        decreases items.len() - i,
    {
        match &*items[i] {
            Expr::Symbol(name) => {
                out.push(slice_to_vec(name.as_slice()));
            },
            _ => {
                proof {
                    assert(!(all[i as int] is Symbol));
                }
                return None;
            },
        }
        i += 1;
    }
    Some(out)
}

/// The names and the value expressions of `items` if each of them is a binding.
fn read_bindings(items: &Vec<Rc<Expr>>) -> (r: Option<(Vec<Vec<u8>>, Vec<Rc<Expr>>)>)
    ensures
        match bindings_of(values_of(items@)) {
            Some(bindings) => r matches Some((names, exprs)) && names.len() == bindings.len()
                && exprs.len() == bindings.len() && forall|i: int|
                0 <= i < bindings.len() ==> (#[trigger] bindings[i]) == (names@[i]@, exprs@[i]@),
            None => r is None,
        },
{
    let ghost all = values_of(items@);
    let mut names: Vec<Vec<u8>> = Vec::new();
    let mut exprs: Vec<Rc<Expr>> = Vec::new();
    let mut i: usize = 0;
    while i < items.len()
        invariant
            i <= items.len(),
            all == values_of(items@),
            names.len() == i,
            exprs.len() == i,
            forall|j: int|
                0 <= j < i ==> (#[trigger] binding_of(all[j])) == Some((names@[j]@, exprs@[j]@)),
        decreases items.len() - i,
    {
        let ghost item = all[i as int];
        match Expr::list_to_vec(&items[i]) {
            Some(parts) => {
                if parts.len() != 2 {
                    proof {
                        assert(binding_of(item) is None);
                    }
                    return None;
                }
                match &*parts[0] {
                    Expr::Symbol(name) => {
                        names.push(slice_to_vec(name.as_slice()));
                        exprs.push(share(&parts[1]));
                    },
                    _ => {
                        return None;
                    },
                }
            },
            None => {
                return None;
            },
        }
        i += 1;
    }
    Some((names, exprs))
}

/// Evaluates `expr` in `scope`, nesting at most `depth` levels deep.
///
/// Returns the value, or the first failure; either way the environment is left
/// as the evaluation up to there made it. No scope that existed before is
/// removed.
pub fn eval(expr: &Rc<Expr>, scope: ScopeId, env: &mut Environment, depth: usize) -> (r: Result<
    Rc<Expr>,
    EvalError,
>)
    requires
        old(env).wf(),
        old(env).has(scope),
    ensures
        final(env).wf(),
        final(env)@.len() >= old(env)@.len(),
        ended(r, final(env)@) == eval_model(expr@, scope as nat, old(env)@, depth as nat),
    decreases depth, 0nat, 0nat,
{
    match &**expr {
        Expr::Symbol(name) => env.lookup(scope, name.as_slice()),
        Expr::Pair(_, _) => {
            if depth == 0 {
                return Err(EvalError::DepthExceeded);
            }
            match Expr::list_to_vec(expr) {
                Some(items) => {
                    let form = match &*items[0] {
                        Expr::Symbol(name) => special_form(name.as_slice()),
                        _ => None,
                    };
                    match form {
                        Some(form) => eval_special(form, &items, scope, env, depth - 1),
                        None => eval_application(&items, scope, env, depth - 1),
                    }
                },
                None => Err(EvalError::ImproperList),
            }
        },
        _ => Ok(share(expr)),
    }
}

/// Evaluates the special form `form` whose parts, keyword first, are `items`.
fn eval_special(
    form: Form,
    items: &Vec<Rc<Expr>>,
    scope: ScopeId,
    env: &mut Environment,
    depth: usize,
) -> (r: Result<Rc<Expr>, EvalError>)
    requires
        old(env).wf(),
        old(env).has(scope),
    ensures
        final(env).wf(),
        final(env)@.len() >= old(env)@.len(),
        ended(r, final(env)@) == eval_form(form, values_of(items@), scope as nat, old(env)@, depth as nat),
    decreases depth, 4nat, 0nat,
{
    match form {
        Form::Quote => {
            if items.len() == 2 {
                Ok(share(&items[1]))
            } else {
                Err(EvalError::Malformed(form))
            }
        },
        Form::Define => define_form(items, scope, env, depth),
        Form::Lambda => lambda_form(items, scope),
        Form::If => if_form(items, scope, env, depth),
        Form::Cond => cond_form(items, scope, env, depth),
        Form::Let => let_form(items, scope, env, depth),
        Form::Eval => eval_form_twice(items, scope, env, depth),
        Form::Error => error_form(items, scope, env, depth),
        Form::Begin => begin_form(items, scope, env, depth),
    }
}

fn define_form(items: &Vec<Rc<Expr>>, scope: ScopeId, env: &mut Environment, depth: usize) -> (r:
    Result<Rc<Expr>, EvalError>)
    requires
        old(env).wf(),
        old(env).has(scope),
    ensures
        final(env).wf(),
        final(env)@.len() >= old(env)@.len(),
        ended(r, final(env)@) == eval_define(values_of(items@), scope as nat, old(env)@, depth as nat),
    decreases depth, 3nat, 0nat,
{
    if items.len() != 3 {
        return Err(EvalError::Malformed(Form::Define));
    }
    match &*items[1] {
        Expr::Symbol(name) => {
            match eval(&items[2], scope, env, depth) {
                Ok(v) => {
                    env.define(scope, slice_to_vec(name.as_slice()), share(&v));
                    Ok(v)
                },
                Err(e) => Err(e),
            }
        },
        _ => Err(EvalError::Malformed(Form::Define)),
    }
}

fn lambda_form(items: &Vec<Rc<Expr>>, scope: ScopeId) -> (r: Result<Rc<Expr>, EvalError>)
    ensures
        result_model(r) == lambda_model(values_of(items@), scope as nat),
{
    if items.len() != 3 {
        return Err(EvalError::Malformed(Form::Lambda));
    }
    match Expr::list_to_vec(&items[1]) {
        Some(params) => match names_of_symbols(&params) {
            Some(names) => {
                let closure = Expr::Closure {
                    params: names,
                    bound: Vec::new(),
                    body: share(&items[2]),
                    scope,
                };
                proof {
                    lemma_closure_view(&closure);
                    assert(values_of(closure->bound@) =~= Seq::empty());
                }
                Ok(Rc::new(closure))
            },
            None => Err(EvalError::Malformed(Form::Lambda)),
        },
        None => Err(EvalError::Malformed(Form::Lambda)),
    }
}

fn if_form(items: &Vec<Rc<Expr>>, scope: ScopeId, env: &mut Environment, depth: usize) -> (r:
    Result<Rc<Expr>, EvalError>)
    requires
        old(env).wf(),
        old(env).has(scope),
    ensures
        final(env).wf(),
        final(env)@.len() >= old(env)@.len(),
        ended(r, final(env)@) == eval_if(values_of(items@), scope as nat, old(env)@, depth as nat),
    decreases depth, 3nat, 0nat,
{
    if items.len() != 4 {
        return Err(EvalError::Malformed(Form::If));
    }
    match eval(&items[1], scope, env, depth) {
        Ok(test) => if is_truthy(&test) {
            eval(&items[2], scope, env, depth)
        } else {
            eval(&items[3], scope, env, depth)
        },
        Err(e) => Err(e),
    }
}

#[verifier::loop_isolation(false)]
fn cond_form(items: &Vec<Rc<Expr>>, scope: ScopeId, env: &mut Environment, depth: usize) -> (r:
    Result<Rc<Expr>, EvalError>)
    requires
        old(env).wf(),
        old(env).has(scope),
    ensures
        final(env).wf(),
        final(env)@.len() >= old(env)@.len(),
        ended(r, final(env)@) == eval_cond_from(
            values_of(items@),
            1,
            scope as nat,
            old(env)@,
            depth as nat,
        ),
    decreases depth, 3nat, 0nat,
{
    let ghost all = values_of(items@);
    let ghost start = env@;
    let mut i: usize = 1;
    while i < items.len()
        invariant
            1 <= i,
            all == values_of(items@),
            env.wf(),
            env.has(scope),
            env@.len() >= start.len(),
            eval_cond_from(all, 1, scope as nat, start, depth as nat) == eval_cond_from(
                all,
                i as int,
                scope as nat,
                env@,
                depth as nat,
            ),
        decreases items.len() - i,
    {
        match Expr::list_to_vec(&items[i]) {
            Some(clause) => {
                if clause.len() != 2 {
                    return Err(EvalError::Malformed(Form::Cond));
                }
                match eval(&clause[0], scope, env, depth) {
                    Ok(test) => {
                        if is_truthy(&test) {
                            return eval(&clause[1], scope, env, depth);
                        }
                    },
                    Err(e) => {
                        return Err(e);
                    },
                }
            },
            None => {
                return Err(EvalError::Malformed(Form::Cond));
            },
        }
        i += 1;
    }
    Err(EvalError::NoMatchingClause)
}

#[verifier::loop_isolation(false)]
fn let_form(items: &Vec<Rc<Expr>>, scope: ScopeId, env: &mut Environment, depth: usize) -> (r:
    Result<Rc<Expr>, EvalError>)
    requires
        old(env).wf(),
        old(env).has(scope),
    ensures
        final(env).wf(),
        final(env)@.len() >= old(env)@.len(),
        ended(r, final(env)@) == eval_let(values_of(items@), scope as nat, old(env)@, depth as nat),
    decreases depth, 3nat, 0nat,
{
    if items.len() != 3 {
        return Err(EvalError::Malformed(Form::Let));
    }
    let list = match Expr::list_to_vec(&items[1]) {
        Some(list) => list,
        None => {
            return Err(EvalError::Malformed(Form::Let));
        },
    };
    let (names, exprs) = match read_bindings(&list) {
        Some(pair) => pair,
        None => {
            return Err(EvalError::Malformed(Form::Let));
        },
    };
    let ghost bindings = bindings_of(values_of(list@)).unwrap();
    let ghost name_seq = Seq::new(bindings.len(), |i: int| bindings[i].0);
    let inner = env.child_of(scope);
    let ghost opened = env@;
    let mut i: usize = 0;
    while i < names.len()
        invariant
            i <= names.len(),
            names.len() == bindings.len(),
            name_seq.len() == bindings.len(),
            forall|j: int| 0 <= j < bindings.len() ==> name_seq[j] == names@[j]@,
            env.wf(),
            env.has(inner),
            env@.len() == opened.len(),
            env@ == reserve_all(opened, inner as nat, name_seq.take(i as int)),
        decreases names.len() - i,
    {
        proof {
            assert(name_seq.take(i + 1).drop_last() =~= name_seq.take(i as int));
        }
        env.reserve(inner, slice_to_vec(names[i].as_slice()));
        i += 1;
    }
    proof {
        assert(name_seq.take(names.len() as int) =~= name_seq);
    }
    let ghost reserved = env@;
    let mut k: usize = 0;
    while k < exprs.len()
        invariant
            k <= exprs.len(),
            names.len() == bindings.len(),
            exprs.len() == bindings.len(),
            forall|j: int|
                0 <= j < bindings.len() ==> (#[trigger] bindings[j]) == (names@[j]@, exprs@[j]@),
            env.wf(),
            env.has(inner),
            env@.len() >= opened.len(),
            eval_let_from(bindings, 0, inner as nat, reserved, depth as nat) == eval_let_from(
                bindings,
                k as int,
                inner as nat,
                env@,
                depth as nat,
            ),
        decreases exprs.len() - k,
    {
        match eval(&exprs[k], inner, env, depth) {
            Ok(v) => {
                env.define(inner, slice_to_vec(names[k].as_slice()), v);
            },
            Err(e) => {
                return Err(e);
            },
        }
        k += 1;
    }
    eval(&items[2], inner, env, depth)
}

fn eval_form_twice(items: &Vec<Rc<Expr>>, scope: ScopeId, env: &mut Environment, depth: usize) -> (r:
    Result<Rc<Expr>, EvalError>)
    requires
        old(env).wf(),
        old(env).has(scope),
    ensures
        final(env).wf(),
        final(env)@.len() >= old(env)@.len(),
        ended(r, final(env)@) == eval_eval(values_of(items@), scope as nat, old(env)@, depth as nat),
    decreases depth, 3nat, 0nat,
{
    if items.len() != 2 {
        return Err(EvalError::Malformed(Form::Eval));
    }
    match eval(&items[1], scope, env, depth) {
        Ok(v) => eval(&v, scope, env, depth),
        Err(e) => Err(e),
    }
}

fn error_form(items: &Vec<Rc<Expr>>, scope: ScopeId, env: &mut Environment, depth: usize) -> (r:
    Result<Rc<Expr>, EvalError>)
    requires
        old(env).wf(),
        old(env).has(scope),
    ensures
        final(env).wf(),
        final(env)@.len() >= old(env)@.len(),
        ended(r, final(env)@) == eval_error(values_of(items@), scope as nat, old(env)@, depth as nat),
    decreases depth, 3nat, 0nat,
{
    if items.len() != 2 {
        return Err(EvalError::Malformed(Form::Error));
    }
    match eval(&items[1], scope, env, depth) {
        Ok(v) => Err(EvalError::Raised(v)),
        Err(e) => Err(e),
    }
}

#[verifier::loop_isolation(false)]
fn begin_form(items: &Vec<Rc<Expr>>, scope: ScopeId, env: &mut Environment, depth: usize) -> (r:
    Result<Rc<Expr>, EvalError>)
    requires
        old(env).wf(),
        old(env).has(scope),
    ensures
        final(env).wf(),
        final(env)@.len() >= old(env)@.len(),
        ended(r, final(env)@) == eval_begin_from(
            values_of(items@),
            1,
            scope as nat,
            old(env)@,
            depth as nat,
            Value::Nil,
        ),
    decreases depth, 3nat, 0nat,
{
    let ghost all = values_of(items@);
    let ghost start = env@;
    let mut last: Rc<Expr> = Rc::new(Expr::Nil);
    let mut i: usize = 1;
    while i < items.len()
        invariant
            1 <= i,
            all == values_of(items@),
            env.wf(),
            env.has(scope),
            env@.len() >= start.len(),
            eval_begin_from(all, 1, scope as nat, start, depth as nat, Value::Nil) == eval_begin_from(
                all,
                i as int,
                scope as nat,
                env@,
                depth as nat,
                last@,
            ),
        decreases items.len() - i,
    {
        match eval(&items[i], scope, env, depth) {
            Ok(v) => {
                last = v;
            },
            Err(e) => {
                return Err(e);
            },
        }
        i += 1;
    }
    Ok(last)
}

/// Evaluates the expressions after the head of an application, from left to
/// right.
#[verifier::loop_isolation(false)]
fn eval_arguments(items: &Vec<Rc<Expr>>, scope: ScopeId, env: &mut Environment, depth: usize) -> (r:
    Result<Vec<Rc<Expr>>, EvalError>)
    requires
        old(env).wf(),
        old(env).has(scope),
    ensures
        final(env).wf(),
        final(env)@.len() >= old(env)@.len(),
        gathered(r, final(env)@) == eval_args_from(
            values_of(items@),
            1,
            scope as nat,
            old(env)@,
            depth as nat,
            Seq::empty(),
        ),
    decreases depth, 2nat, 0nat,
{
    let ghost all = values_of(items@);
    let ghost start = env@;
    let mut values: Vec<Rc<Expr>> = Vec::new();
    let mut i: usize = 1;
    proof {
        assert(values_of(values@) =~= Seq::empty());
    }
    while i < items.len()
        invariant
            1 <= i,
            all == values_of(items@),
            env.wf(),
            env.has(scope),
            env@.len() >= start.len(),
            eval_args_from(all, 1, scope as nat, start, depth as nat, Seq::empty()) == eval_args_from(
                all,
                i as int,
                scope as nat,
                env@,
                depth as nat,
                values_of(values@),
            ),
        decreases items.len() - i,
    {
        match eval(&items[i], scope, env, depth) {
            Ok(v) => {
                proof {
                    assert(values_of(values@.push(v)) =~= values_of(values@).push(v@));
                }
                values.push(v);
            },
            Err(e) => {
                return Err(e);
            },
        }
        i += 1;
    }
    Ok(values)
}

/// Evaluates an application whose parts, head first, are `items`.
fn eval_application(
    items: &Vec<Rc<Expr>>,
    scope: ScopeId,
    env: &mut Environment,
    depth: usize,
) -> (r: Result<Rc<Expr>, EvalError>)
    requires
        old(env).wf(),
        old(env).has(scope),
        items.len() >= 1,
    ensures
        final(env).wf(),
        final(env)@.len() >= old(env)@.len(),
        ended(r, final(env)@) == eval_call(values_of(items@), scope as nat, old(env)@, depth as nat),
    decreases depth, 3nat, 0nat,
{
    let f = match eval(&items[0], scope, env, depth) {
        Ok(f) => f,
        Err(e) => {
            return Err(e);
        },
    };
    match &*f {
        Expr::Closure { .. } => {},
        Expr::Builtin(_) => {},
        _ => {
            return Err(EvalError::NotAProcedure);
        },
    }
    let args = match eval_arguments(items, scope, env, depth) {
        Ok(args) => args,
        Err(e) => {
            return Err(e);
        },
    };
    apply(&f, &args, env, depth)
}

/// Applies the procedure `f` to evaluated arguments.
#[verifier::loop_isolation(false)]
pub fn apply(f: &Rc<Expr>, args: &Vec<Rc<Expr>>, env: &mut Environment, depth: usize) -> (r: Result<
    Rc<Expr>,
    EvalError,
>)
    requires
        old(env).wf(),
    ensures
        final(env).wf(),
        final(env)@.len() >= old(env)@.len(),
        ended(r, final(env)@) == apply_model(f@, values_of(args@), old(env)@, depth as nat),
    decreases depth, 1nat, 0nat,
{
    match &**f {
        Expr::Builtin(b) => apply_builtin(*b, args),
        Expr::Closure { params, bound, body, scope } => {
            proof {
                lemma_closure_view(&**f);
            }
            if bound.len() > params.len() || args.len() > params.len() - bound.len() {
                return Err(EvalError::TooManyArguments);
            }
            let given = joined(bound, args);
            if given.len() < params.len() {
                let closure = Expr::Closure {
                    params: copy_names(params),
                    bound: given,
                    body: share(body),
                    scope: *scope,
                };
                proof {
                    lemma_closure_view(&closure);
                }
                return Ok(Rc::new(closure));
            }
            if *scope >= env.len() {
                return Err(EvalError::UnknownScope);
            }
            let ghost start = env@;
            let ghost param_seq = names_of(params@);
            let ghost given_seq = values_of(given@);
            let inner = env.child_of(*scope);
            let mut i: usize = 0;
            while i < params.len()
                invariant
                    i <= params.len(),
                    given.len() == params.len(),
                    param_seq == names_of(params@),
                    given_seq == values_of(given@),
                    env.wf(),
                    env.has(inner),
                    env@.len() == start.len() + 1,
                    env@ == bind_all(
                        child_model(start, *scope as nat),
                        inner as nat,
                        param_seq,
                        given_seq,
                        i as nat,
                    ),
                decreases params.len() - i,
            {
                env.define(inner, slice_to_vec(params[i].as_slice()), share(&given[i]));
                i += 1;
            }
            eval(body, inner, env, depth)
        },
        _ => Err(EvalError::NotAProcedure),
    }
}

} // verus!
