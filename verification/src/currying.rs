//! Currying, stated of expressions: a closure applied to its arguments one
//! application at a time evaluates to what one application to all of them
//! evaluates to.

use crate::depth::{
    args_cut_short,
    cut_short,
    lemma_apply_deeper,
    lemma_eval_deeper,
    lemma_eval_limit_free,
};
use crate::environment::ScopeModel;
use crate::error::Fault;
use crate::expression::{lemma_list_items_of_list, list_of, Value};
use crate::semantics::{
    apply_model,
    eval_args_from,
    eval_call,
    eval_model,
    failure,
    head_form,
    value,
    Gathered,
    Outcome,
};
use vstd::prelude::*;

verus! {

/// The application `(head arg ...)`.
pub open spec fn application(head: Value, args: Seq<Value>) -> Value {
    list_of(seq![head] + args)
}

/// The nested applications `(((head arg) arg) ...)`, one argument each.
pub open spec fn curried(head: Value, args: Seq<Value>) -> Value
    decreases args.len(),
{
    if args.len() == 0 {
        head
    } else {
        application(curried(head, args.drop_last()), seq![args.last()])
    }
}

/// The closure `f` holding `more` besides what it holds already.
pub open spec fn holding(f: Value, more: Seq<Value>) -> Value {
    Value::Closure {
        params: f->params,
        bound: f->bound + more,
        body: Box::new(*f->body),
        scope: f->scope,
    }
}

/// What a closure that is given fewer arguments than it awaits turns their
/// evaluation into: itself holding them, or the failure of their evaluation.
pub open spec fn partial(f: Value, args: Gathered) -> Outcome {
    match args.result {
        Ok(values) => value(holding(f, values), args.heap),
        Err(fault) => failure(fault, args.heap),
    }
}

/// What `(head arg)` evaluates to within `depth + 1`, written out.
pub open spec fn call_with_one(
    head: Value,
    arg: Value,
    scope: nat,
    heap: Seq<ScopeModel>,
    depth: nat,
) -> Outcome {
    let first = eval_model(head, scope, heap, depth);
    match first.result {
        Ok(f) => if f is Closure || f is Builtin {
            let second = eval_model(arg, scope, first.heap, depth);
            match second.result {
                Ok(v) => apply_model(f, seq![v], second.heap, depth),
                Err(fault) => failure(fault, second.heap),
            }
        } else {
            failure(Fault::NotAProcedure, first.heap)
        },
        Err(_) => first,
    }
}

proof fn lemma_application(head: Value, args: Seq<Value>, scope: nat, heap: Seq<ScopeModel>, depth: nat)
    requires
        head_form(head) is None,
    ensures
        application(head, args) is Pair,
        head_form(application(head, args)) is None,
        eval_model(application(head, args), scope, heap, depth + 1) == eval_call(
            seq![head] + args,
            scope,
            heap,
            depth,
        ),
{
    lemma_list_items_of_list(seq![head] + args);
}

proof fn lemma_call_with_one(head: Value, arg: Value, scope: nat, heap: Seq<ScopeModel>, depth: nat)
    requires
        head_form(head) is None,
    ensures
        eval_model(application(head, seq![arg]), scope, heap, depth + 1) == call_with_one(
            head,
            arg,
            scope,
            heap,
            depth,
        ),
{
    let items = seq![head] + seq![arg];
    lemma_application(head, seq![arg], scope, heap, depth);
    let first = eval_model(head, scope, heap, depth);
    match first.result {
        Ok(f) => {
            if f is Closure || f is Builtin {
                let second = eval_model(arg, scope, first.heap, depth);
                match second.result {
                    Ok(v) => {
                        assert(eval_args_from(items, 2, scope, second.heap, depth, seq![v])
                            == Gathered { result: Ok(seq![v]), heap: second.heap });
                    },
                    Err(_) => {},
                }
            }
        },
        Err(_) => {},
    }
}

/// The evaluation of the first `n` items after the head, one more at a time.
proof fn lemma_args_one_more(
    items: Seq<Value>,
    n: int,
    at: int,
    scope: nat,
    heap: Seq<ScopeModel>,
    depth: nat,
    values: Seq<Value>,
)
    requires
        0 <= at <= n < items.len(),
    ensures
        ({
            let before = eval_args_from(items.take(n), at, scope, heap, depth, values);
            let after = eval_args_from(items.take(n + 1), at, scope, heap, depth, values);
            match before.result {
                Ok(found) => {
                    let step = eval_model(items[n], scope, before.heap, depth);
                    &&& found.len() == values.len() + n - at
                    &&& after == match step.result {
                        Ok(v) => Gathered { result: Ok(found.push(v)), heap: step.heap },
                        Err(fault) => Gathered { result: Err(fault), heap: step.heap },
                    }
                },
                Err(_) => after == before,
            }
        }),
    decreases n - at,
{
    let long = items.take(n + 1);
    if at == n {
        let step = eval_model(items[n], scope, heap, depth);
        match step.result {
            Ok(v) => {
                assert(eval_args_from(long, n + 1, scope, step.heap, depth, values.push(v))
                    == Gathered { result: Ok(values.push(v)), heap: step.heap });
            },
            Err(_) => {},
        }
    } else {
        let step = eval_model(items[at], scope, heap, depth);
        match step.result {
            Ok(v) => {
                lemma_args_one_more(items, n, at + 1, scope, step.heap, depth, values.push(v));
            },
            Err(_) => {},
        }
    }
}

/// The first `count` arguments of `(f arg ...)`, evaluated after `f` on the heap
/// that its evaluation left.
pub open spec fn first_args(
    f: Value,
    args: Seq<Value>,
    count: int,
    scope: nat,
    heap: Seq<ScopeModel>,
    depth: nat,
) -> Gathered {
    eval_args_from(
        (seq![f] + args).take(count + 1),
        1,
        scope,
        eval_model(f, scope, heap, depth).heap,
        depth,
        Seq::empty(),
    )
}

/// Whether `f` evaluates within `depth` to a closure that awaits `count` more
/// arguments.
pub open spec fn awaits(f: Value, count: nat, scope: nat, heap: Seq<ScopeModel>, depth: nat) -> bool {
    eval_model(f, scope, heap, depth).result matches Ok(Value::Closure { params, bound, .. })
        && bound.len() + count == params.len()
}

/// Fewer nested applications than the closure awaits arguments: the closure,
/// holding the values of the arguments so far.
proof fn lemma_curried_partly(
    f: Value,
    args: Seq<Value>,
    count: nat,
    scope: nat,
    heap: Seq<ScopeModel>,
    depth: nat,
)
    requires
        count < args.len(),
        head_form(f) is None,
        awaits(f, args.len(), scope, heap, depth),
        !args_cut_short(first_args(f, args, count as int, scope, heap, depth)),
    ensures
        eval_model(curried(f, args.take(count as int)), scope, heap, depth + count) == partial(
            eval_model(f, scope, heap, depth).result->Ok_0,
            first_args(f, args, count as int, scope, heap, depth),
        ),
    decreases count,
{
    let items = seq![f] + args;
    let head = eval_model(f, scope, heap, depth);
    let fv = head.result->Ok_0;
    if count > 0 {
        let before = first_args(f, args, count - 1, scope, heap, depth);
        lemma_args_one_more(items, count as int, 1, scope, head.heap, depth, Seq::empty());
        lemma_curried_partly(f, args, (count - 1) as nat, scope, heap, depth);
        let inner = curried(f, args.take(count - 1));
        let arg = args[count - 1];
        assert(args.take(count as int).drop_last() =~= args.take(count - 1));
        lemma_call_with_one(inner, arg, scope, heap, (depth + count - 1) as nat);
        match before.result {
            Ok(found) => {
                let step = eval_model(arg, scope, before.heap, depth);
                lemma_eval_deeper(arg, scope, before.heap, depth, (depth + count - 1) as nat);
                match step.result {
                    Ok(v) => {
                        assert((fv->bound + found) + seq![v] =~= fv->bound + found.push(v));
                    },
                    Err(_) => {},
                }
            },
            Err(_) => {},
        }
    }
}

/// Currying, at matching limits. Where `head` evaluates to a closure that
/// awaits as many arguments as `args` has, and the application to all of them
/// ends within its limit, the nested applications end in the same way and
/// leave the same heap; they nest one level deeper for each further argument.
pub proof fn lemma_curried_application(
    head: Value,
    args: Seq<Value>,
    scope: nat,
    heap: Seq<ScopeModel>,
    depth: nat,
)
    requires
        args.len() > 0,
        head_form(head) is None,
        awaits(head, args.len(), scope, heap, depth),
        !cut_short(eval_model(application(head, args), scope, heap, depth + 1)),
    ensures
        eval_model(curried(head, args), scope, heap, depth + args.len()) == eval_model(
            application(head, args),
            scope,
            heap,
            depth + 1,
        ),
{
    let count = args.len();
    let items = seq![head] + args;
    let first = eval_model(head, scope, heap, depth);
    let f = first.result->Ok_0;
    lemma_application(head, args, scope, heap, depth);
    assert(items.take(count as int + 1) =~= items);
    let before = first_args(head, args, count - 1, scope, heap, depth);
    lemma_args_one_more(items, count as int, 1, scope, first.heap, depth, Seq::empty());
    lemma_curried_partly(head, args, (count - 1) as nat, scope, heap, depth);
    let inner = curried(head, args.take(count - 1));
    let arg = args[count - 1];
    lemma_call_with_one(inner, arg, scope, heap, (depth + count - 1) as nat);
    match before.result {
        Ok(found) => {
            let step = eval_model(arg, scope, before.heap, depth);
            lemma_eval_deeper(arg, scope, before.heap, depth, (depth + count - 1) as nat);
            match step.result {
                Ok(v) => {
                    assert((f->bound + found) + seq![v] =~= f->bound + found.push(v));
                    lemma_apply_deeper(
                        f,
                        found.push(v),
                        step.heap,
                        depth,
                        (depth + count - 1) as nat,
                    );
                },
                Err(_) => {},
            }
        },
        Err(_) => {},
    }
}

/// Currying. Let `head` evaluate to a closure that awaits as many arguments as
/// `args` has. Then `(((head a1) a2) ... ak)` and `(head a1 a2 ... ak)`, each
/// evaluated in the same scope on the same heap within a limit that it does not
/// run into, end in the same way: the same value or the same failure, and the
/// same heap.
pub proof fn lemma_currying_of_expressions(
    head: Value,
    args: Seq<Value>,
    scope: nat,
    heap: Seq<ScopeModel>,
    head_depth: nat,
    nested_depth: nat,
    flat_depth: nat,
)
    requires
        args.len() > 0,
        head_form(head) is None,
        awaits(head, args.len(), scope, heap, head_depth),
        !cut_short(eval_model(curried(head, args), scope, heap, nested_depth)),
        !cut_short(eval_model(application(head, args), scope, heap, flat_depth)),
    ensures
        eval_model(curried(head, args), scope, heap, nested_depth) == eval_model(
            application(head, args),
            scope,
            heap,
            flat_depth,
        ),
{
    lemma_list_items_of_list(seq![head] + args);
    let depth = (flat_depth - 1) as nat;
    lemma_eval_limit_free(head, scope, heap, head_depth, depth);
    lemma_curried_application(head, args, scope, heap, depth);
    lemma_eval_limit_free(curried(head, args), scope, heap, nested_depth, depth + args.len());
}

} // verus!
