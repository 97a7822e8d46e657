//! Scopes and the chain they form.
//!
//! All scopes of one evaluation live in an [`Environment`] and are named by
//! handle. A scope maps symbols to cells and may have a parent, which is always
//! a scope created before it. Closures hold a handle, so a scope stays reachable
//! for as long as the environment lives, whichever call created it.

use crate::error::EvalError;
use crate::expression::{same_bytes, share, Builtin, Expr, Value};
use std::rc::Rc;
use vstd::prelude::*;
use vstd::slice::slice_to_vec;

verus! {

/// The handle of a scope within its environment.
pub type ScopeId = usize;

/// The handle of the scope that holds the primitives.
pub const ROOT: ScopeId = 0;

/// The model of one scope. A cell that holds `None` is reserved: its name is
/// introduced, its value not yet known.
pub ghost struct ScopeModel {
    pub cells: Map<Seq<u8>, Option<Value>>,
    pub parent: Option<nat>,
}

/// Every parent was created before its child.
pub open spec fn parents_precede(heap: Seq<ScopeModel>) -> bool {
    forall|i: int|
        0 <= i < heap.len() ==> (#[trigger] heap[i].parent matches Some(p) ==> p < i)
}

/// What `name` resolves to from `scope`: the cell of the innermost scope on the
/// parent chain that has one for it. `None` where no scope has one, or where
/// that cell is still reserved.
pub open spec fn lookup_model(heap: Seq<ScopeModel>, scope: int, name: Seq<u8>) -> Option<Value>
    decreases scope,
{
    if !(0 <= scope < heap.len()) {
        None
    } else if heap[scope].cells.dom().contains(name) {
        heap[scope].cells[name]
    } else {
        match heap[scope].parent {
            Some(p) => if p < scope {
                lookup_model(heap, p as int, name)
            } else {
                None
            },
            None => None,
        }
    }
}

/// The heap after `scope` got the cell `cell` for `name`; no other scope changes.
pub open spec fn define_model(
    heap: Seq<ScopeModel>,
    scope: int,
    name: Seq<u8>,
    cell: Option<Value>,
) -> Seq<ScopeModel> {
    heap.update(
        scope,
        ScopeModel { cells: heap[scope].cells.insert(name, cell), parent: heap[scope].parent },
    )
}

/// The heap after a new, empty scope under `parent` was added at the end.
pub open spec fn child_model(heap: Seq<ScopeModel>, parent: nat) -> Seq<ScopeModel> {
    heap.push(ScopeModel { cells: Map::empty(), parent: Some(parent) })
}

/// The name under which a primitive is registered.
pub open spec fn builtin_name(b: Builtin) -> Seq<u8> {
    match b {
        Builtin::Add => seq!['+' as u8],
        Builtin::Sub => seq!['-' as u8],
        Builtin::Mul => seq!['*' as u8],
        Builtin::Div => seq!['/' as u8],
        Builtin::Rem => seq!['m' as u8, 'o' as u8, 'd' as u8],
        Builtin::NumEq => seq!['=' as u8],
        Builtin::Cons => seq!['c' as u8, 'o' as u8, 'n' as u8, 's' as u8],
        Builtin::Head => seq!['h' as u8, 'e' as u8, 'a' as u8, 'd' as u8],
        Builtin::Tail => seq!['t' as u8, 'a' as u8, 'i' as u8, 'l' as u8],
        Builtin::IsNil => seq!['n' as u8, 'i' as u8, 'l' as u8, '?' as u8],
    }
}

/// `cells` with `b` registered under its name.
pub open spec fn with_builtin(cells: Map<Seq<u8>, Option<Value>>, b: Builtin) -> Map<
    Seq<u8>,
    Option<Value>,
> {
    cells.insert(builtin_name(b), Some(Value::Builtin(b)))
}

/// The cells of the root scope of a fresh environment: every primitive under
/// its name.
pub open spec fn root_cells() -> Map<Seq<u8>, Option<Value>> {
    with_builtin(
        with_builtin(
            with_builtin(
                with_builtin(
                    with_builtin(
                        with_builtin(
                            with_builtin(
                                with_builtin(
                                    with_builtin(
                                        with_builtin(Map::empty(), Builtin::Add),
                                        Builtin::Sub,
                                    ),
                                    Builtin::Mul,
                                ),
                                Builtin::Div,
                            ),
                            Builtin::Rem,
                        ),
                        Builtin::NumEq,
                    ),
                    Builtin::Cons,
                ),
                Builtin::Head,
            ),
            Builtin::Tail,
        ),
        Builtin::IsNil,
    )
}

/// The heap of a fresh environment: the root scope alone.
pub open spec fn root_model() -> Seq<ScopeModel> {
    seq![ScopeModel { cells: root_cells(), parent: None }]
}

/// One entry of a scope: a name and its cell.
struct Binding {
    name: Vec<u8>,
    value: Option<Rc<Expr>>,
}

struct Scope {
    entries: Vec<Binding>,
    parent: Option<ScopeId>,
}

/// The scopes of one evaluation.
pub struct Environment {
    scopes: Vec<Scope>,
}

spec fn cell_model(value: Option<Rc<Expr>>) -> Option<Value> {
    match value {
        Some(e) => Some(e@),
        None => None,
    }
}

/// The map that a list of entries stands for: a later entry for a name
/// overrides an earlier one.
spec fn cells_of(entries: Seq<Binding>) -> Map<Seq<u8>, Option<Value>>
    decreases entries.len(),
{
    if entries.len() == 0 {
        Map::empty()
    } else {
        cells_of(entries.drop_last()).insert(
            entries.last().name@,
            cell_model(entries.last().value),
        )
    }
}

spec fn scope_model(scope: Scope) -> ScopeModel {
    ScopeModel {
        cells: cells_of(scope.entries@),
        parent: match scope.parent {
            Some(p) => Some(p as nat),
            None => None,
        },
    }
}

/// No entry of index `from` or more has the name `name`.
spec fn absent_from(entries: Seq<Binding>, from: int, name: Seq<u8>) -> bool {
    forall|j: int| from <= j < entries.len() ==> (#[trigger] entries[j]).name@ != name
}

proof fn lemma_cells_absent(entries: Seq<Binding>, name: Seq<u8>)
    requires
        absent_from(entries, 0, name),
    ensures
        !cells_of(entries).dom().contains(name),
    decreases entries.len(),
{
    if entries.len() > 0 {
        lemma_cells_absent(entries.drop_last(), name);
    }
}

proof fn lemma_cells_last_match(entries: Seq<Binding>, i: int, name: Seq<u8>)
    requires
        0 <= i < entries.len(),
        entries[i].name@ == name,
        absent_from(entries, i + 1, name),
    ensures
        cells_of(entries).dom().contains(name),
        cells_of(entries)[name] == cell_model(entries[i].value),
    decreases entries.len(),
{
    if i < entries.len() - 1 {
        lemma_cells_last_match(entries.drop_last(), i, name);
    }
}

proof fn lemma_cells_overwrite(entries: Seq<Binding>, i: int, b: Binding)
    requires
        0 <= i < entries.len(),
        entries[i].name@ == b.name@,
        absent_from(entries, i + 1, b.name@),
    ensures
        cells_of(entries.update(i, b)) == cells_of(entries).insert(b.name@, cell_model(b.value)),
    decreases entries.len(),
{
    let changed = entries.update(i, b);
    if i == entries.len() - 1 {
        assert(changed.drop_last() =~= entries.drop_last());
    } else {
        lemma_cells_overwrite(entries.drop_last(), i, b);
        assert(changed.drop_last() =~= entries.drop_last().update(i, b));
    }
}

proof fn lemma_cells_push(entries: Seq<Binding>, b: Binding)
    ensures
        cells_of(entries.push(b)) == cells_of(entries).insert(b.name@, cell_model(b.value)),
{
    assert(entries.push(b).drop_last() =~= entries);
}

/// The index of the last entry named `name`, if there is one.
fn find(entries: &Vec<Binding>, name: &[u8]) -> (r: Option<usize>)
    ensures
        match r {
            Some(i) => i < entries.len() && entries[i as int].name@ == name@ && absent_from(
                entries@,
                i + 1,
                name@,
            ),
            None => absent_from(entries@, 0, name@),
        },
{
    let mut i: usize = entries.len();
    while i > 0
        invariant
            i <= entries.len(),
            absent_from(entries@, i as int, name@),
        decreases i,
    {
        i -= 1;
        if same_bytes(entries[i].name.as_slice(), name) {
            return Some(i);
        }
    }
    None
}

impl View for Environment {
    type V = Seq<ScopeModel>;

    closed spec fn view(&self) -> Seq<ScopeModel> {
        Seq::new(self.scopes@.len(), |i: int| scope_model(self.scopes@[i]))
    }
}

impl Environment {
    /// There is a root scope, and every parent was created before its child.
    pub open spec fn wf(&self) -> bool {
        self@.len() > 0 && parents_precede(self@)
    }

    /// Whether `scope` is the handle of a scope of this environment.
    pub open spec fn has(&self, scope: ScopeId) -> bool {
        scope < self@.len()
    }

    /// The number of scopes.
    pub fn len(&self) -> (n: usize)
        ensures
            n == self@.len(),
    {
        self.scopes.len()
    }

    /// Puts the cell `value` for `name` into `scope`, over an earlier cell for
    /// that name if there is one.
    fn put(&mut self, scope: ScopeId, name: Vec<u8>, value: Option<Rc<Expr>>)
        requires
            old(self).has(scope),
        ensures
            final(self)@ == define_model(old(self)@, scope as int, name@, cell_model(value)),
    {
        let place = find(&self.scopes[scope].entries, name.as_slice());
        let binding = Binding { name, value };
        let target = &mut self.scopes[scope];
        match place {
            Some(i) => {
                proof {
                    lemma_cells_overwrite(target.entries@, i as int, binding);
                }
                target.entries[i] = binding;
            },
            None => {
                proof {
                    lemma_cells_push(target.entries@, binding);
                }
                target.entries.push(binding);
            },
        }
    }

    /// A fresh environment: the root scope alone, with every primitive
    /// registered under its name.
    pub fn new() -> (env: Environment)
        ensures
            env.wf(),
            env@ == root_model(),
    {
        let mut scopes: Vec<Scope> = Vec::new();
        scopes.push(Scope { entries: Vec::new(), parent: None });
        let mut env = Environment { scopes };
        env.register(Builtin::Add);
        env.register(Builtin::Sub);
        env.register(Builtin::Mul);
        env.register(Builtin::Div);
        env.register(Builtin::Rem);
        env.register(Builtin::NumEq);
        env.register(Builtin::Cons);
        env.register(Builtin::Head);
        env.register(Builtin::Tail);
        env.register(Builtin::IsNil);
        env
    }

    fn register(&mut self, b: Builtin)
        requires
            old(self)@.len() == 1,
        ensures
            final(self)@ == seq![
                ScopeModel { cells: with_builtin(old(self)@[0].cells, b), parent: old(self)@[0].parent },
            ],
    {
        let name = builtin_symbol(b);
        self.put(ROOT, name, Some(Rc::new(Expr::Builtin(b))));
    }

    /// Adds an empty scope whose parent is `parent` and returns its handle.
    pub fn child_of(&mut self, parent: ScopeId) -> (id: ScopeId)
        requires
            old(self).wf(),
            old(self).has(parent),
        ensures
            final(self).wf(),
            id == old(self)@.len(),
            final(self)@ == child_model(old(self)@, parent as nat),
    {
        let id = self.scopes.len();
        self.scopes.push(Scope { entries: Vec::new(), parent: Some(parent) });
        proof {
            assert(self@ =~= child_model(old(self)@, parent as nat));
        }
        id
    }

    /// Binds `name` to `value` in `scope` and in no other scope: a new binding,
    /// or the new value of the binding that `scope` itself already had.
    pub fn define(&mut self, scope: ScopeId, name: Vec<u8>, value: Rc<Expr>)
        requires
            old(self).wf(),
            old(self).has(scope),
        ensures
            final(self).wf(),
            final(self)@ == define_model(old(self)@, scope as int, name@, Some(value@)),
    {
        self.put(scope, name, Some(value));
    }

    /// Introduces `name` in `scope` without a value. Until it is defined there,
    /// the name resolves to nothing from `scope` and from the scopes below it.
    pub fn reserve(&mut self, scope: ScopeId, name: Vec<u8>)
        requires
            old(self).wf(),
            old(self).has(scope),
        ensures
            final(self).wf(),
            final(self)@ == define_model(old(self)@, scope as int, name@, None),
    {
        self.put(scope, name, None);
    }

    /// Resolves `name` from `scope` outward: the value of the innermost binding,
    /// or the unbound-symbol error where the chain has none with a value.
    pub fn lookup(&self, scope: ScopeId, name: &[u8]) -> (r: Result<Rc<Expr>, EvalError>)
        requires
            self.wf(),
            self.has(scope),
        ensures
            match lookup_model(self@, scope as int, name@) {
                Some(v) => r matches Ok(e) && e@ == v,
                None => r matches Err(EvalError::UnboundSymbol(n)) && n@ == name@,
            },
    {
        let mut cur: ScopeId = scope;
        loop
            invariant
                self.wf(),
                self.has(cur),
                lookup_model(self@, scope as int, name@) == lookup_model(self@, cur as int, name@),
            decreases cur,
        {
            let here = &self.scopes[cur];
            match find(&here.entries, name) {
                Some(i) => {
                    proof {
                        lemma_cells_last_match(here.entries@, i as int, name@);
                    }
                    return match &here.entries[i].value {
                        Some(e) => Ok(share(e)),
                        None => Err(EvalError::UnboundSymbol(slice_to_vec(name))),
                    };
                },
                None => {
                    proof {
                        lemma_cells_absent(here.entries@, name@);
                    }
                    match here.parent {
                        Some(p) => {
                            cur = p;
                        },
                        None => {
                            return Err(EvalError::UnboundSymbol(slice_to_vec(name)));
                        },
                    }
                },
            }
        }
    }
}

/// The name of a primitive, as bytes.
pub fn builtin_symbol(b: Builtin) -> (name: Vec<u8>)
    ensures
        name@ == builtin_name(b),
{
    let name = match b {
        Builtin::Add => vec!['+' as u8],
        Builtin::Sub => vec!['-' as u8],
        Builtin::Mul => vec!['*' as u8],
        Builtin::Div => vec!['/' as u8],
        Builtin::Rem => vec!['m' as u8, 'o' as u8, 'd' as u8],
        Builtin::NumEq => vec!['=' as u8],
        Builtin::Cons => vec!['c' as u8, 'o' as u8, 'n' as u8, 's' as u8],
        Builtin::Head => vec!['h' as u8, 'e' as u8, 'a' as u8, 'd' as u8],
        Builtin::Tail => vec!['t' as u8, 'a' as u8, 'i' as u8, 'l' as u8],
        Builtin::IsNil => vec!['n' as u8, 'i' as u8, 'l' as u8, '?' as u8],
    };
    name
}

} // verus!
