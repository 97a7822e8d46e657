//! The nesting limit only ever cuts an evaluation short: one that ends within
//! a limit ends in the same way within every larger one.

use crate::environment::{child_model, define_model, ScopeModel};
use crate::error::Fault;
use crate::expression::{list_items, Value};
use crate::keyword::Form;
use crate::semantics::{
    apply_model,
    bind_all,
    bindings_of,
    eval_args_from,
    eval_begin_from,
    eval_call,
    eval_cond_from,
    eval_form,
    eval_let,
    eval_let_from,
    eval_model,
    head_form,
    reserve_all,
    truthy,
    Gathered,
    Outcome,
};
use vstd::prelude::*;

verus! {

/// The evaluation ran into the nesting limit.
pub open spec fn cut_short(o: Outcome) -> bool {
    o.result == Err::<Value, Fault>(Fault::DepthExceeded)
}

/// The evaluation of a run of expressions ran into the nesting limit.
pub open spec fn args_cut_short(g: Gathered) -> bool {
    g.result == Err::<Seq<Value>, Fault>(Fault::DepthExceeded)
}

proof fn lemma_eval_step(e: Value, scope: nat, heap: Seq<ScopeModel>, depth: nat)
    ensures
        !cut_short(eval_model(e, scope, heap, depth)) ==> eval_model(e, scope, heap, depth + 1)
            == eval_model(e, scope, heap, depth),
    decreases depth, 0nat, 0nat,
{
    match e {
        Value::Pair(_, _) => {
            if depth > 0 {
                match list_items(e) {
                    Some(items) => match head_form(items[0]) {
                        Some(form) => lemma_form_step(form, items, scope, heap, (depth - 1) as nat),
                        None => lemma_call_step(items, scope, heap, (depth - 1) as nat),
                    },
                    None => {},
                }
            }
        },
        _ => {},
    }
}

proof fn lemma_form_step(form: Form, items: Seq<Value>, scope: nat, heap: Seq<ScopeModel>, depth: nat)
    ensures
        !cut_short(eval_form(form, items, scope, heap, depth)) ==> eval_form(
            form,
            items,
            scope,
            heap,
            depth + 1,
        ) == eval_form(form, items, scope, heap, depth),
    decreases depth, 4nat, 0nat,
{
    match form {
        Form::Quote => {},
        Form::Define => {
            if items.len() == 3 && items[1] is Symbol {
                lemma_eval_step(items[2], scope, heap, depth);
            }
        },
        Form::Lambda => {},
        Form::If => {
            if items.len() == 4 {
                let test = eval_model(items[1], scope, heap, depth);
                lemma_eval_step(items[1], scope, heap, depth);
                match test.result {
                    Ok(v) => {
                        if truthy(v) {
                            lemma_eval_step(items[2], scope, test.heap, depth);
                        } else {
                            lemma_eval_step(items[3], scope, test.heap, depth);
                        }
                    },
                    Err(_) => {},
                }
            }
        },
        Form::Cond => lemma_cond_step(items, 1, scope, heap, depth),
        Form::Let => lemma_let_step(items, scope, heap, depth),
        Form::Eval => {
            if items.len() == 2 {
                let first = eval_model(items[1], scope, heap, depth);
                lemma_eval_step(items[1], scope, heap, depth);
                match first.result {
                    Ok(v) => lemma_eval_step(v, scope, first.heap, depth),
                    Err(_) => {},
                }
            }
        },
        Form::Error => {
            if items.len() == 2 {
                lemma_eval_step(items[1], scope, heap, depth);
            }
        },
        Form::Begin => lemma_begin_step(items, 1, scope, heap, depth, Value::Nil),
    }
}

proof fn lemma_cond_step(items: Seq<Value>, at: int, scope: nat, heap: Seq<ScopeModel>, depth: nat)
    ensures
        !cut_short(eval_cond_from(items, at, scope, heap, depth)) ==> eval_cond_from(
            items,
            at,
            scope,
            heap,
            depth + 1,
        ) == eval_cond_from(items, at, scope, heap, depth),
    decreases depth, 2nat, items.len() - at,
{
    if 0 <= at < items.len() {
        match list_items(items[at]) {
            Some(clause) => {
                if clause.len() == 2 {
                    let test = eval_model(clause[0], scope, heap, depth);
                    lemma_eval_step(clause[0], scope, heap, depth);
                    match test.result {
                        Ok(v) => {
                            if truthy(v) {
                                lemma_eval_step(clause[1], scope, test.heap, depth);
                            } else {
                                lemma_cond_step(items, at + 1, scope, test.heap, depth);
                            }
                        },
                        Err(_) => {},
                    }
                }
            },
            None => {},
        }
    }
}

proof fn lemma_let_step(items: Seq<Value>, scope: nat, heap: Seq<ScopeModel>, depth: nat)
    ensures
        !cut_short(eval_let(items, scope, heap, depth)) ==> eval_let(
            items,
            scope,
            heap,
            depth + 1,
        ) == eval_let(items, scope, heap, depth),
    decreases depth, 3nat, 0nat,
{
    if items.len() == 3 {
        match list_items(items[1]) {
            Some(list) => match bindings_of(list) {
                Some(bindings) => {
                    let inner = heap.len();
                    let names = Seq::new(bindings.len(), |i: int| bindings[i].0);
                    let reserved = reserve_all(child_model(heap, scope), inner, names);
                    let filled = eval_let_from(bindings, 0, inner, reserved, depth);
                    lemma_let_from_step(bindings, 0, inner, reserved, depth);
                    match filled.result {
                        Ok(_) => lemma_eval_step(items[2], inner, filled.heap, depth),
                        Err(_) => {},
                    }
                },
                None => {},
            },
            None => {},
        }
    }
}

proof fn lemma_let_from_step(
    bindings: Seq<(Seq<u8>, Value)>,
    at: int,
    scope: nat,
    heap: Seq<ScopeModel>,
    depth: nat,
)
    ensures
        !cut_short(eval_let_from(bindings, at, scope, heap, depth)) ==> eval_let_from(
            bindings,
            at,
            scope,
            heap,
            depth + 1,
        ) == eval_let_from(bindings, at, scope, heap, depth),
    decreases depth, 2nat, bindings.len() - at,
{
    if 0 <= at < bindings.len() {
        let bound = eval_model(bindings[at].1, scope, heap, depth);
        lemma_eval_step(bindings[at].1, scope, heap, depth);
        match bound.result {
            Ok(v) => lemma_let_from_step(
                bindings,
                at + 1,
                scope,
                define_model(bound.heap, scope as int, bindings[at].0, Some(v)),
                depth,
            ),
            Err(_) => {},
        }
    }
}

proof fn lemma_begin_step(
    items: Seq<Value>,
    at: int,
    scope: nat,
    heap: Seq<ScopeModel>,
    depth: nat,
    last: Value,
)
    ensures
        !cut_short(eval_begin_from(items, at, scope, heap, depth, last)) ==> eval_begin_from(
            items,
            at,
            scope,
            heap,
            depth + 1,
            last,
        ) == eval_begin_from(items, at, scope, heap, depth, last),
    decreases depth, 2nat, items.len() - at,
{
    if 0 <= at < items.len() {
        let step = eval_model(items[at], scope, heap, depth);
        lemma_eval_step(items[at], scope, heap, depth);
        match step.result {
            Ok(v) => lemma_begin_step(items, at + 1, scope, step.heap, depth, v),
            Err(_) => {},
        }
    }
}

proof fn lemma_args_step(
    items: Seq<Value>,
    at: int,
    scope: nat,
    heap: Seq<ScopeModel>,
    depth: nat,
    values: Seq<Value>,
)
    ensures
        !args_cut_short(eval_args_from(items, at, scope, heap, depth, values)) ==> eval_args_from(
            items,
            at,
            scope,
            heap,
            depth + 1,
            values,
        ) == eval_args_from(items, at, scope, heap, depth, values),
    decreases depth, 2nat, items.len() - at,
{
    if 0 <= at < items.len() {
        let step = eval_model(items[at], scope, heap, depth);
        lemma_eval_step(items[at], scope, heap, depth);
        match step.result {
            Ok(v) => lemma_args_step(items, at + 1, scope, step.heap, depth, values.push(v)),
            Err(_) => {},
        }
    }
}

proof fn lemma_call_step(items: Seq<Value>, scope: nat, heap: Seq<ScopeModel>, depth: nat)
    ensures
        !cut_short(eval_call(items, scope, heap, depth)) ==> eval_call(
            items,
            scope,
            heap,
            depth + 1,
        ) == eval_call(items, scope, heap, depth),
    decreases depth, 3nat, 0nat,
{
    let head = eval_model(items[0], scope, heap, depth);
    lemma_eval_step(items[0], scope, heap, depth);
    match head.result {
        Ok(f) => {
            if f is Closure || f is Builtin {
                let args = eval_args_from(items, 1, scope, head.heap, depth, Seq::empty());
                lemma_args_step(items, 1, scope, head.heap, depth, Seq::empty());
                match args.result {
                    Ok(values) => lemma_apply_step(f, values, args.heap, depth),
                    Err(_) => {},
                }
            }
        },
        Err(_) => {},
    }
}

proof fn lemma_apply_step(f: Value, args: Seq<Value>, heap: Seq<ScopeModel>, depth: nat)
    ensures
        !cut_short(apply_model(f, args, heap, depth)) ==> apply_model(f, args, heap, depth + 1)
            == apply_model(f, args, heap, depth),
    decreases depth, 1nat, 0nat,
{
    match f {
        Value::Closure { params, bound, body, scope } => {
            let given = bound + args;
            if given.len() == params.len() && scope < heap.len() {
                let inner = heap.len();
                let entered = bind_all(child_model(heap, scope), inner, params, given, given.len());
                lemma_eval_step(*body, inner, entered, depth);
            }
        },
        _ => {},
    }
}

/// An evaluation that ends within the limit `depth` ends in the same way, with
/// the same heap, within every larger limit.
pub proof fn lemma_eval_deeper(
    e: Value,
    scope: nat,
    heap: Seq<ScopeModel>,
    depth: nat,
    deeper: nat,
)
    requires
        depth <= deeper,
        !cut_short(eval_model(e, scope, heap, depth)),
    ensures
        eval_model(e, scope, heap, deeper) == eval_model(e, scope, heap, depth),
    decreases deeper - depth,
{
    if depth < deeper {
        lemma_eval_step(e, scope, heap, depth);
        lemma_eval_deeper(e, scope, heap, depth + 1, deeper);
    }
}

/// An application that ends within the limit `depth` ends in the same way,
/// with the same heap, within every larger limit.
pub proof fn lemma_apply_deeper(
    f: Value,
    args: Seq<Value>,
    heap: Seq<ScopeModel>,
    depth: nat,
    deeper: nat,
)
    requires
        depth <= deeper,
        !cut_short(apply_model(f, args, heap, depth)),
    ensures
        apply_model(f, args, heap, deeper) == apply_model(f, args, heap, depth),
    decreases deeper - depth,
{
    if depth < deeper {
        lemma_apply_step(f, args, heap, depth);
        lemma_apply_deeper(f, args, heap, depth + 1, deeper);
    }
}

/// Two evaluations of one expression on one heap that both end within their
/// limits end in the same way.
pub proof fn lemma_eval_limit_free(
    e: Value,
    scope: nat,
    heap: Seq<ScopeModel>,
    first: nat,
    second: nat,
)
    requires
        !cut_short(eval_model(e, scope, heap, first)),
        !cut_short(eval_model(e, scope, heap, second)),
    ensures
        eval_model(e, scope, heap, first) == eval_model(e, scope, heap, second),
{
    if first <= second {
        lemma_eval_deeper(e, scope, heap, first, second);
    } else {
        lemma_eval_deeper(e, scope, heap, second, first);
    }
}

} // verus!
