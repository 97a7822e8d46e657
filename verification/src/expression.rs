//! The expression type shared by the reader, the environment and the evaluator,
//! and the mathematical values that contracts speak of.

use std::rc::Rc;
use vstd::prelude::*;
use vstd::string::StrSliceExecFns;
use vstd::string::StringSliceAdditionalSpecFns;

verus! {

/// The primitive procedures. A value names one by this key; the operation itself
/// is found by dispatch on the key.
#[derive(Clone, Copy, Debug, PartialEq, Eq, Structural)]
pub enum Builtin {
    Add,
    Sub,
    Mul,
    Div,
    Rem,
    NumEq,
    Cons,
    Head,
    Tail,
    IsNil,
}

/// An expression, which is also the only kind of run-time value.
///
/// Lists are right-nested pairs that end in `Nil`. A closure holds its declared
/// parameters, the arguments it has been given so far, its body, and the handle
/// of the scope in which the `lambda` was evaluated.
#[derive(Debug, PartialEq, Eq)]
pub enum Expr {
    Number(i64),
    Symbol(Vec<u8>),
    Boolean(bool),
    Nil,
    Pair(Rc<Expr>, Rc<Expr>),
    Closure { params: Vec<Vec<u8>>, bound: Vec<Rc<Expr>>, body: Rc<Expr>, scope: usize },
    Builtin(Builtin),
}

/// The mathematical counterpart of [`Expr`]: byte strings are sequences and
/// shared pointers are plain values.
pub ghost enum Value {
    Number(i64),
    Symbol(Seq<u8>),
    Boolean(bool),
    Nil,
    Pair(Box<Value>, Box<Value>),
    Closure { params: Seq<Seq<u8>>, bound: Seq<Value>, body: Box<Value>, scope: nat },
    Builtin(Builtin),
}

/// The value that an expression denotes.
pub open spec fn value_of(e: Expr) -> Value
    decreases e,
{
    match e {
        Expr::Number(n) => Value::Number(n),
        Expr::Symbol(s) => Value::Symbol(s@),
        Expr::Boolean(b) => Value::Boolean(b),
        Expr::Nil => Value::Nil,
        Expr::Pair(a, b) => Value::Pair(Box::new(value_of(*a)), Box::new(value_of(*b))),
        Expr::Closure { params, bound, body, scope } => Value::Closure {
            params: Seq::new(params@.len(), |i: int| params@[i]@),
            bound: Seq::new(
                bound@.len(),
                |i: int| if 0 <= i < bound@.len() { value_of(*bound@[i]) } else { Value::Nil },
            ),
            body: Box::new(value_of(*body)),
            scope: scope as nat,
        },
        Expr::Builtin(b) => Value::Builtin(b),
    }
}

impl View for Expr {
    type V = Value;

    open spec fn view(&self) -> Value {
        value_of(*self)
    }
}

/// The values denoted by a sequence of shared expressions, in order.
pub open spec fn values_of(s: Seq<Rc<Expr>>) -> Seq<Value> {
    Seq::new(s.len(), |i: int| s[i]@)
}

/// The byte strings held by a sequence of byte vectors, in order.
pub open spec fn names_of(s: Seq<Vec<u8>>) -> Seq<Seq<u8>> {
    Seq::new(s.len(), |i: int| s[i]@)
}

/// The list whose elements are `items`: right-nested pairs ending in `Nil`.
pub open spec fn list_of(items: Seq<Value>) -> Value
    decreases items.len(),
{
    if items.len() == 0 {
        Value::Nil
    } else {
        Value::Pair(Box::new(items[0]), Box::new(list_of(items.drop_first())))
    }
}

/// The elements of `v` if it is a proper list, that is right-nested pairs that
/// end in `Nil`; `None` for every other value.
pub open spec fn list_items(v: Value) -> Option<Seq<Value>>
    decreases v,
{
    match v {
        Value::Nil => Some(Seq::empty()),
        Value::Pair(head, tail) => match list_items(*tail) {
            Some(rest) => Some(seq![*head] + rest),
            None => None,
        },
        _ => None,
    }
}

/// A list built from a sequence of items has exactly those items.
pub proof fn lemma_list_items_of_list(items: Seq<Value>)
    ensures
        list_items(list_of(items)) == Some(items),
    decreases items.len(),
{
    if items.len() > 0 {
        lemma_list_items_of_list(items.drop_first());
    }
}

/// A proper list is the list built from its items.
pub proof fn lemma_list_of_list_items(v: Value)
    requires
        list_items(v) is Some,
    ensures
        list_of(list_items(v).unwrap()) == v,
    decreases v,
{
    match v {
        Value::Pair(head, tail) => {
            lemma_list_of_list_items(*tail);
            let rest = list_items(*tail).unwrap();
            assert((seq![*head] + rest).drop_first() =~= rest);
        },
        _ => {},
    }
}

/// Unfolds the view of a closure into the views of its parts.
pub proof fn lemma_closure_view(e: &Expr)
    requires
        e is Closure,
    ensures
        e@ matches Value::Closure { params, bound, body, scope }
            && params == names_of(e->params@)
            && bound == values_of(e->bound@)
            && *body == e->body@
            && scope == e->scope as nat,
{
}

/// Another pointer to the same shared expression.
///
/// This is `Rc::clone`: the new pointer refers to the allocation that `e`
/// refers to, so both denote the same expression.
#[verifier::external_body]
pub(crate) fn share(e: &Rc<Expr>) -> (r: Rc<Expr>)
    ensures
        r == *e,
{
    Rc::clone(e)
}

/// Whether two byte strings are equal.
pub fn same_bytes(a: &[u8], b: &[u8]) -> (r: bool)
    ensures
        r == (a@ == b@),
{
    if a.len() != b.len() {
        return false;
    }
    let mut i: usize = 0;
    while i < a.len()
        invariant
            a.len() == b.len(),
            i <= a.len(),
            forall|j: int| 0 <= j < i ==> a@[j] == b@[j],
        decreases a.len() - i,
    {
        if a[i] != b[i] {
            return false;
        }
        i += 1;
    }
    proof {
        assert(a@ =~= b@);
    }
    true
}

impl Expr {
    /// The number `n`.
    pub fn new_number(n: i64) -> (r: Rc<Expr>)
        ensures
            r@ == Value::Number(n),
    {
        Rc::new(Expr::Number(n))
    }

    /// The symbol whose name is the UTF-8 encoding of `name`.
    pub fn new_symbol(name: &str) -> (r: Rc<Expr>)
        ensures
            r@ == Value::Symbol(name.spec_bytes()),
    {
        Rc::new(Expr::Symbol(name.as_bytes_vec()))
    }

    /// The boolean `b`.
    pub fn new_boolean(b: bool) -> (r: Rc<Expr>)
        ensures
            r@ == Value::Boolean(b),
    {
        Rc::new(Expr::Boolean(b))
    }

    /// The empty list.
    pub fn new_nil() -> (r: Rc<Expr>)
        ensures
            r@ == Value::Nil,
    {
        Rc::new(Expr::Nil)
    }

    /// The pair of `first` and `second`.
    pub fn new_pair(first: Rc<Expr>, second: Rc<Expr>) -> (r: Rc<Expr>)
        ensures
            r@ == Value::Pair(Box::new(first@), Box::new(second@)),
    {
        Rc::new(Expr::Pair(first, second))
    }

    /// The proper list of `items`, in order.
    pub fn new_list(items: Vec<Rc<Expr>>) -> (r: Rc<Expr>)
        ensures
            r@ == list_of(values_of(items@)),
    {
        let ghost all = values_of(items@);
        let mut acc: Rc<Expr> = Rc::new(Expr::Nil);
        let mut i: usize = items.len();
        while i > 0
            invariant
                i <= items.len(),
                all == values_of(items@),
                acc@ == list_of(all.skip(i as int)),
            decreases i,
        {
            i -= 1;
            proof {
                assert(all.skip(i as int).drop_first() =~= all.skip(i + 1));
            }
            acc = Rc::new(Expr::Pair(share(&items[i]), acc));
        }
        proof {
            assert(all.skip(0) =~= all);
        }
        acc
    }

    /// The items of a proper list, in order; `None` if `e` is not a proper list.
    pub fn list_to_vec(e: &Rc<Expr>) -> (r: Option<Vec<Rc<Expr>>>)
        ensures
            match list_items(e@) {
                Some(items) => r is Some && values_of(r.unwrap()@) == items,
                None => r is None,
            },
    {
        let mut acc: Vec<Rc<Expr>> = Vec::new();
        let mut cur: &Rc<Expr> = e;
        loop
            invariant
                list_items(e@) == match list_items(cur@) {
                    Some(rest) => Some(values_of(acc@) + rest),
                    None => None,
                },
            decreases **cur,
        {
            match &**cur {
                Expr::Pair(head, tail) => {
                    proof {
                        if list_items(tail@) is Some {
                            let rest = list_items(tail@).unwrap();
                        }
                    }
                    acc.push(share(head));
                    cur = tail;
                },
                Expr::Nil => {
                    return Some(acc);
                },
                _ => {
                    return None;
                },
            }
        }
    }
}

} // verus!
