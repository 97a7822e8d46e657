//! Laws of evaluation, proved of the semantics.

use crate::environment::{child_model, define_model, lookup_model, ScopeModel};
use crate::expression::{lemma_list_items_of_list, list_items, list_of, Value};
use crate::keyword::{form_name, Form};
use crate::semantics::{
    apply_model,
    bind_all,
    binding_of,
    bindings_of,
    eval_args_from,
    eval_begin_from,
    eval_call,
    eval_cond_from,
    eval_define,
    eval_form,
    eval_let,
    eval_let_from,
    eval_model,
    head_form,
    reserve_all,
    truthy,
    value,
    Outcome,
};
use vstd::prelude::*;

verus! {

/// Every scope of `before` but the one at `scope` is still there in `after`,
/// as it was.
pub open spec fn kept(before: Seq<ScopeModel>, after: Seq<ScopeModel>, scope: int) -> bool {
    &&& before.len() <= after.len()
    &&& forall|i: int| 0 <= i < before.len() && i != scope ==> #[trigger] after[i] == before[i]
}

/// Every scope of `before` is still there in `after`, as it was.
pub open spec fn extends(before: Seq<ScopeModel>, after: Seq<ScopeModel>) -> bool {
    &&& before.len() <= after.len()
    &&& forall|i: int| 0 <= i < before.len() ==> #[trigger] after[i] == before[i]
}

/// Numbers, booleans, the empty list, closures and primitives evaluate to
/// themselves: in every scope, on every heap, at every depth, and the heap
/// stays as it is.
pub proof fn lemma_self_evaluating(e: Value, scope: nat, heap: Seq<ScopeModel>, depth: nat)
    requires
        !(e is Symbol),
        !(e is Pair),
    ensures
        eval_model(e, scope, heap, depth) == value(e, heap),
{
}

/// What a name resolves to from a scope depends on that scope and the scopes
/// created before it, and on no other.
pub proof fn lemma_lookup_local(
    first: Seq<ScopeModel>,
    second: Seq<ScopeModel>,
    scope: int,
    name: Seq<u8>,
)
    requires
        0 <= scope < first.len(),
        scope < second.len(),
        forall|i: int| 0 <= i <= scope ==> #[trigger] second[i] == first[i],
    ensures
        lookup_model(second, scope, name) == lookup_model(first, scope, name),
    decreases scope,
{
    if !first[scope].cells.dom().contains(name) {
        match first[scope].parent {
            Some(p) => {
                if p < scope {
                    lemma_lookup_local(first, second, p as int, name);
                }
            },
            None => {},
        }
    }
}

/// Shadowing. After `name` is bound in `inner`, it resolves to the new value
/// from `inner`, and every name resolves from every scope created before
/// `inner` to what it resolved to before.
pub proof fn lemma_define_shadows(
    heap: Seq<ScopeModel>,
    inner: int,
    name: Seq<u8>,
    v: Value,
    outer: int,
    other: Seq<u8>,
)
    requires
        0 <= outer < inner < heap.len(),
    ensures
        lookup_model(define_model(heap, inner, name, Some(v)), inner, name) == Some(v),
        lookup_model(define_model(heap, inner, name, Some(v)), outer, other) == lookup_model(
            heap,
            outer,
            other,
        ),
{
    lemma_lookup_local(heap, define_model(heap, inner, name, Some(v)), outer, other);
}

proof fn lemma_reserve_all_kept(heap: Seq<ScopeModel>, scope: nat, names: Seq<Seq<u8>>)
    requires
        scope < heap.len(),
    ensures
        kept(heap, reserve_all(heap, scope, names), scope as int),
        reserve_all(heap, scope, names).len() == heap.len(),
    decreases names.len(),
{
    if names.len() > 0 {
        lemma_reserve_all_kept(heap, scope, names.drop_last());
    }
}

proof fn lemma_bind_all_kept(
    heap: Seq<ScopeModel>,
    scope: nat,
    names: Seq<Seq<u8>>,
    values: Seq<Value>,
    count: nat,
)
    requires
        scope < heap.len(),
    ensures
        kept(heap, bind_all(heap, scope, names, values, count), scope as int),
        bind_all(heap, scope, names, values, count).len() == heap.len(),
    decreases count,
{
    if count > 0 {
        lemma_bind_all_kept(heap, scope, names, values, (count - 1) as nat);
    }
}

/// Evaluation in a scope changes that scope and adds new ones. It removes
/// none, and leaves every other scope that was there as it was.
pub proof fn lemma_eval_kept(e: Value, scope: nat, heap: Seq<ScopeModel>, depth: nat)
    requires
        scope < heap.len(),
    ensures
        kept(heap, eval_model(e, scope, heap, depth).heap, scope as int),
    decreases depth, 0nat, 0nat,
{
    match e {
        Value::Pair(_, _) => {
            if depth > 0 {
                match list_items(e) {
                    Some(items) => match head_form(items[0]) {
                        Some(form) => lemma_form_kept(form, items, scope, heap, (depth - 1) as nat),
                        None => lemma_call_kept(items, scope, heap, (depth - 1) as nat),
                    },
                    None => {},
                }
            }
        },
        _ => {},
    }
}

proof fn lemma_form_kept(form: Form, items: Seq<Value>, scope: nat, heap: Seq<ScopeModel>, depth: nat)
    requires
        scope < heap.len(),
    ensures
        kept(heap, eval_form(form, items, scope, heap, depth).heap, scope as int),
    decreases depth, 4nat, 0nat,
{
    match form {
        Form::Quote => {},
        Form::Define => {
            if items.len() == 3 && items[1] is Symbol {
                lemma_eval_kept(items[2], scope, heap, depth);
            }
        },
        Form::Lambda => {},
        Form::If => {
            if items.len() == 4 {
                let test = eval_model(items[1], scope, heap, depth);
                lemma_eval_kept(items[1], scope, heap, depth);
                match test.result {
                    Ok(v) => {
                        if truthy(v) {
                            lemma_eval_kept(items[2], scope, test.heap, depth);
                        } else {
                            lemma_eval_kept(items[3], scope, test.heap, depth);
                        }
                    },
                    Err(_) => {},
                }
            }
        },
        Form::Cond => lemma_cond_kept(items, 1, scope, heap, depth),
        Form::Let => lemma_let_extends(items, scope, heap, depth),
        Form::Eval => {
            if items.len() == 2 {
                let first = eval_model(items[1], scope, heap, depth);
                lemma_eval_kept(items[1], scope, heap, depth);
                match first.result {
                    Ok(v) => lemma_eval_kept(v, scope, first.heap, depth),
                    Err(_) => {},
                }
            }
        },
        Form::Error => {
            if items.len() == 2 {
                lemma_eval_kept(items[1], scope, heap, depth);
            }
        },
        Form::Begin => lemma_begin_kept(items, 1, scope, heap, depth, Value::Nil),
    }
}

proof fn lemma_cond_kept(items: Seq<Value>, at: int, scope: nat, heap: Seq<ScopeModel>, depth: nat)
    requires
        scope < heap.len(),
    ensures
        kept(heap, eval_cond_from(items, at, scope, heap, depth).heap, scope as int),
    decreases depth, 2nat, items.len() - at,
{
    if 0 <= at < items.len() {
        match list_items(items[at]) {
            Some(clause) => {
                if clause.len() == 2 {
                    let test = eval_model(clause[0], scope, heap, depth);
                    lemma_eval_kept(clause[0], scope, heap, depth);
                    match test.result {
                        Ok(v) => {
                            if truthy(v) {
                                lemma_eval_kept(clause[1], scope, test.heap, depth);
                            } else {
                                lemma_cond_kept(items, at + 1, scope, test.heap, depth);
                            }
                        },
                        Err(_) => {},
                    }
                }
            },
            None => {},
        }
    }
}

/// A `let` form leaves every scope that was there as it was, the current one
/// too: what it binds, it binds in a scope of its own.
pub proof fn lemma_let_extends(items: Seq<Value>, scope: nat, heap: Seq<ScopeModel>, depth: nat)
    requires
        scope < heap.len(),
    ensures
        extends(heap, eval_let(items, scope, heap, depth).heap),
    decreases depth, 3nat, 0nat,
{
    if items.len() == 3 {
        match list_items(items[1]) {
            Some(list) => match bindings_of(list) {
                Some(bindings) => {
                    let inner = heap.len();
                    let names = Seq::new(bindings.len(), |i: int| bindings[i].0);
                    let opened = child_model(heap, scope);
                    let reserved = reserve_all(opened, inner, names);
                    lemma_reserve_all_kept(opened, inner, names);
                    let filled = eval_let_from(bindings, 0, inner, reserved, depth);
                    lemma_let_from_kept(bindings, 0, inner, reserved, depth);
                    match filled.result {
                        Ok(_) => {
                            lemma_eval_kept(items[2], inner, filled.heap, depth);
                        },
                        Err(_) => {},
                    }
                },
                None => {},
            },
            None => {},
        }
    }
}

proof fn lemma_let_from_kept(
    bindings: Seq<(Seq<u8>, Value)>,
    at: int,
    scope: nat,
    heap: Seq<ScopeModel>,
    depth: nat,
)
    requires
        scope < heap.len(),
    ensures
        kept(heap, eval_let_from(bindings, at, scope, heap, depth).heap, scope as int),
    decreases depth, 2nat, bindings.len() - at,
{
    if 0 <= at < bindings.len() {
        let bound = eval_model(bindings[at].1, scope, heap, depth);
        lemma_eval_kept(bindings[at].1, scope, heap, depth);
        match bound.result {
            Ok(v) => {
                lemma_let_from_kept(
                    bindings,
                    at + 1,
                    scope,
                    define_model(bound.heap, scope as int, bindings[at].0, Some(v)),
                    depth,
                );
            },
            Err(_) => {},
        }
    }
}

proof fn lemma_begin_kept(
    items: Seq<Value>,
    at: int,
    scope: nat,
    heap: Seq<ScopeModel>,
    depth: nat,
    last: Value,
)
    requires
        scope < heap.len(),
    ensures
        kept(heap, eval_begin_from(items, at, scope, heap, depth, last).heap, scope as int),
    decreases depth, 2nat, items.len() - at,
{
    if 0 <= at < items.len() {
        let step = eval_model(items[at], scope, heap, depth);
        lemma_eval_kept(items[at], scope, heap, depth);
        match step.result {
            Ok(v) => lemma_begin_kept(items, at + 1, scope, step.heap, depth, v),
            Err(_) => {},
        }
    }
}

proof fn lemma_args_kept(
    items: Seq<Value>,
    at: int,
    scope: nat,
    heap: Seq<ScopeModel>,
    depth: nat,
    values: Seq<Value>,
)
    requires
        scope < heap.len(),
    ensures
        kept(heap, eval_args_from(items, at, scope, heap, depth, values).heap, scope as int),
    decreases depth, 2nat, items.len() - at,
{
    if 0 <= at < items.len() {
        let step = eval_model(items[at], scope, heap, depth);
        lemma_eval_kept(items[at], scope, heap, depth);
        match step.result {
            Ok(v) => lemma_args_kept(items, at + 1, scope, step.heap, depth, values.push(v)),
            Err(_) => {},
        }
    }
}

proof fn lemma_call_kept(items: Seq<Value>, scope: nat, heap: Seq<ScopeModel>, depth: nat)
    requires
        scope < heap.len(),
    ensures
        kept(heap, eval_call(items, scope, heap, depth).heap, scope as int),
    decreases depth, 3nat, 0nat,
{
    let head = eval_model(items[0], scope, heap, depth);
    lemma_eval_kept(items[0], scope, heap, depth);
    match head.result {
        Ok(f) => {
            if f is Closure || f is Builtin {
                let args = eval_args_from(items, 1, scope, head.heap, depth, Seq::empty());
                lemma_args_kept(items, 1, scope, head.heap, depth, Seq::empty());
                match args.result {
                    Ok(values) => {
                        lemma_apply_extends(f, values, args.heap, depth);
                    },
                    Err(_) => {},
                }
            }
        },
        Err(_) => {},
    }
}

/// Applying a procedure leaves every scope that was there as it was: the body
/// of a closure runs in a scope of its own.
pub proof fn lemma_apply_extends(f: Value, args: Seq<Value>, heap: Seq<ScopeModel>, depth: nat)
    ensures
        extends(heap, apply_model(f, args, heap, depth).heap),
    decreases depth, 1nat, 0nat,
{
    match f {
        Value::Closure { params, bound, body, scope } => {
            let given = bound + args;
            if given.len() == params.len() && scope < heap.len() {
                let inner = heap.len();
                let opened = child_model(heap, scope);
                let entered = bind_all(opened, inner, params, given, given.len());
                lemma_bind_all_kept(opened, inner, params, given, given.len());
                lemma_eval_kept(*body, inner, entered, depth);
            }
        },
        _ => {},
    }
}

/// Lexical scope. Whatever a `let` form binds, once it has been evaluated every
/// name resolves from the scope it was evaluated in, and from every scope
/// created before that one, to what it resolved to before.
pub proof fn lemma_let_leaves_outer_bindings(
    items: Seq<Value>,
    scope: nat,
    heap: Seq<ScopeModel>,
    depth: nat,
    outer: int,
    name: Seq<u8>,
)
    requires
        0 <= outer <= scope < heap.len(),
    ensures
        lookup_model(eval_let(items, scope, heap, depth).heap, outer, name) == lookup_model(
            heap,
            outer,
            name,
        ),
{
    lemma_let_extends(items, scope, heap, depth);
    lemma_lookup_local(heap, eval_let(items, scope, heap, depth).heap, outer, name);
}

/// Lexical scope. What the body of a closure defines, it defines in the scope
/// of that call: once a procedure has been applied, every name resolves from
/// every scope that was there to what it resolved to before.
pub proof fn lemma_apply_leaves_outer_bindings(
    f: Value,
    args: Seq<Value>,
    heap: Seq<ScopeModel>,
    depth: nat,
    outer: int,
    name: Seq<u8>,
)
    requires
        0 <= outer < heap.len(),
    ensures
        lookup_model(apply_model(f, args, heap, depth).heap, outer, name) == lookup_model(
            heap,
            outer,
            name,
        ),
{
    lemma_apply_extends(f, args, heap, depth);
    lemma_lookup_local(heap, apply_model(f, args, heap, depth).heap, outer, name);
}

/// Evaluation in an inner scope leaves the bindings of the scopes created
/// before it alone: every name resolves from them to what it resolved to
/// before.
pub proof fn lemma_inner_evaluation_leaves_outer_bindings(
    e: Value,
    inner: nat,
    heap: Seq<ScopeModel>,
    depth: nat,
    outer: int,
    name: Seq<u8>,
)
    requires
        0 <= outer < inner < heap.len(),
    ensures
        lookup_model(eval_model(e, inner, heap, depth).heap, outer, name) == lookup_model(
            heap,
            outer,
            name,
        ),
{
    lemma_eval_kept(e, inner, heap, depth);
    lemma_lookup_local(heap, eval_model(e, inner, heap, depth).heap, outer, name);
}

/// Visibility of `define`. Once `(define name expr)` has been evaluated in a
/// scope, `name` resolves from that scope to the value of `expr`.
pub proof fn lemma_define_is_visible(
    items: Seq<Value>,
    scope: nat,
    heap: Seq<ScopeModel>,
    depth: nat,
)
    requires
        scope < heap.len(),
        items.len() == 3,
        items[1] is Symbol,
    ensures
        eval_define(items, scope, heap, depth).result matches Ok(v) ==> lookup_model(
            eval_define(items, scope, heap, depth).heap,
            scope as int,
            items[1]->Symbol_0,
        ) == Some(v),
{
    lemma_eval_kept(items[2], scope, heap, depth);
}

/// The form `(let ((name expr)) name)`.
pub open spec fn let_one(name: Seq<u8>, expr: Value) -> Seq<Value> {
    seq![
        Value::Symbol(form_name(Form::Let)),
        list_of(seq![list_of(seq![Value::Symbol(name), expr])]),
        Value::Symbol(name),
    ]
}

/// Visibility of `let`. The body of a `let` sees what the `let` binds:
/// `(let ((name expr)) name)` ends as `expr` ends when it is evaluated in the
/// new scope, in which `name` is reserved.
pub proof fn lemma_let_binding_is_visible(
    name: Seq<u8>,
    expr: Value,
    scope: nat,
    heap: Seq<ScopeModel>,
    depth: nat,
)
    requires
        scope < heap.len(),
    ensures
        eval_let(let_one(name, expr), scope, heap, depth).result == eval_model(
            expr,
            heap.len(),
            define_model(child_model(heap, scope), heap.len() as int, name, None),
            depth,
        ).result,
{
    let binding = list_of(seq![Value::Symbol(name), expr]);
    lemma_list_items_of_list(seq![binding]);
    lemma_list_items_of_list(seq![Value::Symbol(name), expr]);
    let list = seq![binding];
    assert(binding_of(binding) == Some((name, expr)));
    let bindings = bindings_of(list)->Some_0;
    assert(bindings =~= seq![(name, expr)]);
    let inner = heap.len();
    let names = Seq::new(bindings.len(), |i: int| bindings[i].0);
    assert(names =~= seq![name]);
    let opened = child_model(heap, scope);
    assert(names.drop_last() =~= Seq::<Seq<u8>>::empty());
    assert(reserve_all(opened, inner, names.drop_last()) == opened);
    let reserved = reserve_all(opened, inner, names);
    assert(reserved == define_model(opened, inner as int, name, None));
    let bound = eval_model(expr, inner, reserved, depth);
    lemma_eval_kept(expr, inner, reserved, depth);
    match bound.result {
        Ok(v) => {
            let defined = define_model(bound.heap, inner as int, name, Some(v));
            assert(eval_let_from(bindings, 1, inner, defined, depth) == value(Value::Nil, defined));
            assert(eval_let_from(bindings, 0, inner, reserved, depth) == value(
                Value::Nil,
                defined,
            ));
        },
        Err(_) => {},
    }
}

/// Capture. A `lambda` form evaluates to a closure over the scope it is
/// evaluated in, with no argument given, and leaves the heap as it is. So a
/// second evaluation in that scope gives an equal closure, over the same
/// scope with the same bindings.
pub proof fn lemma_lambda_captures_scope(e: Value, scope: nat, heap: Seq<ScopeModel>, depth: nat)
    requires
        list_items(e) matches Some(items) && items.len() > 0 && head_form(items[0]) == Some(
            Form::Lambda,
        ),
    ensures
        eval_model(e, scope, heap, depth).heap == heap,
        eval_model(e, scope, heap, depth).result matches Ok(closure) ==> closure is Closure
            && closure->scope == scope && closure->bound == Seq::<Value>::empty(),
        eval_model(e, scope, eval_model(e, scope, heap, depth).heap, depth) == eval_model(
            e,
            scope,
            heap,
            depth,
        ),
{
}

/// The result of applying `f` to `args` one at a time, each application on the
/// heap that the one before left.
pub open spec fn apply_in_turn(f: Value, args: Seq<Value>, heap: Seq<ScopeModel>, depth: nat) -> Outcome
    decreases args.len(),
{
    if args.len() == 0 {
        value(f, heap)
    } else {
        let step = apply_model(f, seq![args[0]], heap, depth);
        match step.result {
            Ok(g) => apply_in_turn(g, args.drop_first(), step.heap, depth),
            Err(_) => step,
        }
    }
}

/// Currying, in two steps. Where a closure gets fewer arguments than it still
/// awaits, the result is a closure and the heap stays as it is; applying that
/// closure to further arguments gives what applying the first to all of them
/// at once gives.
pub proof fn lemma_apply_in_two_steps(
    f: Value,
    first: Seq<Value>,
    rest: Seq<Value>,
    heap: Seq<ScopeModel>,
    depth: nat,
)
    requires
        f matches Value::Closure { params, bound, .. } && bound.len() + first.len() < params.len(),
    ensures
        apply_model(f, first, heap, depth).heap == heap,
        apply_model(f, first, heap, depth).result matches Ok(partial) && apply_model(
            partial,
            rest,
            heap,
            depth,
        ) == apply_model(f, first + rest, heap, depth),
{
    let bound = f->bound;
    assert((bound + first) + rest =~= bound + (first + rest));
}

/// Currying. Applying a closure to all the arguments that it awaits, one at a
/// time, gives what applying it to all of them at once gives: the same result,
/// and the same heap.
pub proof fn lemma_currying(f: Value, args: Seq<Value>, heap: Seq<ScopeModel>, depth: nat)
    requires
        args.len() > 0,
        f matches Value::Closure { params, bound, .. } && bound.len() + args.len() == params.len(),
    ensures
        apply_in_turn(f, args, heap, depth) == apply_model(f, args, heap, depth),
    decreases args.len(),
{
    if args.len() == 1 {
        assert(seq![args[0]] =~= args);
        let step = apply_model(f, args, heap, depth);
        match step.result {
            Ok(g) => {
                assert(apply_in_turn(g, args.drop_first(), step.heap, depth) == value(
                    g,
                    step.heap,
                ));
            },
            Err(_) => {},
        }
    } else {
        let first = seq![args[0]];
        let rest = args.drop_first();
        lemma_apply_in_two_steps(f, first, rest, heap, depth);
        assert(first + rest =~= args);
        let partial = apply_model(f, first, heap, depth).result->Ok_0;
        lemma_currying(partial, rest, heap, depth);
    }
}

} // verus!
