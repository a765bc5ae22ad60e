use vstd::prelude::*;
use std::rc::Rc;
use crate::value::{Output, Value, value_ok};

verus! {

/// An immutable list of name-to-cell bindings; the first entry for a name wins.
#[derive(Debug)]
pub enum Bindings {
    Nil,
    Cons(String, usize, Rc<Bindings>),
}

/// The cell that `b` binds `name` to, if any.
pub open spec fn find(b: Bindings, name: Seq<char>) -> Option<usize>
    decreases b,
{
    match b {
        Bindings::Nil => None,
        Bindings::Cons(n, c, rest) => if n@ == name {
            Some(c)
        } else {
            find(*rest, name)
        },
    }
}

/// The bindings after the first one.
pub open spec fn rest_of(b: Bindings) -> Bindings {
    match b {
        Bindings::Nil => Bindings::Nil,
        Bindings::Cons(_, _, rest) => *rest,
    }
}

/// Every cell that `b` binds is below `n`.
pub open spec fn bindings_ok(b: Bindings, n: nat) -> bool
    decreases b,
{
    match b {
        Bindings::Nil => true,
        Bindings::Cons(_, c, rest) => c < n && bindings_ok(*rest, n),
    }
}

/// Resolves `name` in the scopes, innermost (last) first, then in the globals.
pub open spec fn resolve(scopes: Seq<Bindings>, globals: Bindings, name: Seq<char>) -> Option<usize>
    decreases scopes.len(),
{
    if scopes.len() == 0 {
        find(globals, name)
    } else {
        match find(scopes.last(), name) {
            Some(c) => Some(c),
            None => resolve(scopes.drop_last(), globals, name),
        }
    }
}

pub proof fn lemma_bindings_ok_mono(b: Bindings, n: nat, m: nat)
    requires
        bindings_ok(b, n),
        n <= m,
    ensures
        bindings_ok(b, m),
    decreases b,
{
    if b is Cons {
        lemma_bindings_ok_mono(rest_of(b), n, m);
    }
}

pub proof fn lemma_find_ok(b: Bindings, n: nat, name: Seq<char>)
    requires
        bindings_ok(b, n),
    ensures
        find(b, name) matches Some(c) ==> c < n,
    decreases b,
{
    if b is Cons {
        lemma_find_ok(rest_of(b), n, name);
    }
}

/// The binding environment: the cells that hold values, the global bindings,
/// a stack of local scopes (innermost last), and what native functions
/// printed.
#[derive(Debug)]
pub struct State {
    /// The binding cells, addressed by index. Cells are only ever appended and
    /// are never reclaimed while the state lives: closures and scopes share a
    /// cell by holding its index, and with no mutation or recursive `let` in
    /// the language no cycle can form, so nothing needs a collector.
    pub cells: Vec<Value>,
    pub globals: Bindings,
    pub scope: Vec<Bindings>,
    pub output: Vec<Output>,
}

/// The bindings in force, as plain values: the cells, the local scopes
/// (innermost last) and the globals.
pub struct Env {
    pub cells: Seq<Value>,
    pub scopes: Seq<Bindings>,
    pub globals: Bindings,
}

impl Env {
    /// Every binding names an existing cell, and every cell's value refers
    /// only to existing cells.
    pub open spec fn wf(self) -> bool {
        &&& forall|c: int| 0 <= c < self.cells.len() ==> value_ok(
            #[trigger] self.cells[c],
            self.cells.len(),
        )
        &&& bindings_ok(self.globals, self.cells.len())
        &&& forall|i: int| 0 <= i < self.scopes.len() ==> bindings_ok(
            #[trigger] self.scopes[i],
            self.cells.len(),
        )
    }

    /// The cell that `name` resolves to.
    pub open spec fn lookup(self, name: Seq<char>) -> Option<usize> {
        resolve(self.scopes, self.globals, name)
    }
}

impl State {
    pub open spec fn env(self) -> Env {
        Env { cells: self.cells@, scopes: self.scope@, globals: self.globals }
    }

    /// Every binding names an existing cell, and every cell's value refers
    /// only to existing cells.
    pub open spec fn wf(self) -> bool {
        &&& forall|c: int| 0 <= c < self.cells@.len() ==> value_ok(
            #[trigger] self.cells@[c],
            self.cells@.len(),
        )
        &&& bindings_ok(self.globals, self.cells@.len())
        &&& forall|i: int| 0 <= i < self.scope@.len() ==> bindings_ok(
            #[trigger] self.scope@[i],
            self.cells@.len(),
        )
    }

    pub proof fn lemma_env_wf(self)
        requires
            self.wf(),
        ensures
            self.env().wf(),
    {
        assert forall|c: int| 0 <= c < self.env().cells.len() implies value_ok(
            #[trigger] self.env().cells[c],
            self.env().cells.len(),
        ) by {
            assert(self.env().cells[c] == self.cells@[c]);
        }
        assert forall|i: int| 0 <= i < self.env().scopes.len() implies bindings_ok(
            #[trigger] self.env().scopes[i],
            self.env().cells.len(),
        ) by {
            assert(self.env().scopes[i] == self.scope@[i]);
        }
    }

    /// The cell that `name` resolves to.
    pub open spec fn lookup(self, name: Seq<char>) -> Option<usize> {
        self.env().lookup(name)
    }

    pub fn new() -> (r: Self)
        ensures
            r.wf(),
            r.cells@.len() == 0,
            r.scope@.len() == 0,
            r.output@.len() == 0,
            r.globals == Bindings::Nil,
    {
        State { cells: Vec::new(), globals: Bindings::Nil, scope: Vec::new(), output: Vec::new() }
    }

    /// Puts `value` in a new cell and binds `name` to it globally, shadowing
    /// any earlier global of that name.
    pub fn set_global(&mut self, name: String, value: Value)
        requires
            old(self).wf(),
            value_ok(value, old(self).cells@.len()),
        ensures
            final(self).wf(),
            final(self).cells@ == old(self).cells@.push(value),
            final(self).globals == Bindings::Cons(
                name,
                old(self).cells@.len() as usize,
                Rc::new(old(self).globals),
            ),
            final(self).scope == old(self).scope,
            final(self).output == old(self).output,
    {
        let c = self.new_cell(value);
        let old_globals = crate::value::copy_bindings(&self.globals);
        self.globals = Bindings::Cons(name, c, Rc::new(old_globals));
    }

    /// Puts `value` in a new cell, and returns the cell.
    pub fn new_cell(&mut self, value: Value) -> (c: usize)
        requires
            old(self).wf(),
            value_ok(value, old(self).cells@.len()),
        ensures
            final(self).wf(),
            c == old(self).cells@.len(),
            final(self).cells@ == old(self).cells@.push(value),
            final(self).globals == old(self).globals,
            final(self).scope == old(self).scope,
            final(self).output == old(self).output,
    {
        let ghost n = self.cells@.len();
        proof {
            assert forall|c: int| 0 <= c < n implies value_ok(#[trigger] self.cells@[c], n + 1) by {
                crate::value::lemma_value_ok_mono(self.cells@[c], n, n + 1);
            }
            assert forall|i: int| 0 <= i < self.scope@.len() implies bindings_ok(
                #[trigger] self.scope@[i],
                n + 1,
            ) by {
                lemma_bindings_ok_mono(self.scope@[i], n, n + 1);
            }
            lemma_bindings_ok_mono(self.globals, n, n + 1);
            crate::value::lemma_value_ok_mono(value, n, n + 1);
        }
        let c = self.cells.len();
        self.cells.push(value);
        c
    }

    /// Enters a local scope.
    pub fn push_scope(&mut self, scope: Bindings)
        requires
            old(self).wf(),
            bindings_ok(scope, old(self).cells@.len()),
        ensures
            final(self).wf(),
            final(self).scope@ == old(self).scope@.push(scope),
            final(self).cells == old(self).cells,
            final(self).globals == old(self).globals,
            final(self).output == old(self).output,
    {
        self.scope.push(scope);
    }

    /// Leaves the innermost local scope.
    pub fn pop_scope(&mut self)
        requires
            old(self).wf(),
        ensures
            final(self).wf(),
            final(self).scope@ == if old(self).scope@.len() == 0 {
                old(self).scope@
            } else {
                old(self).scope@.drop_last()
            },
            final(self).cells == old(self).cells,
            final(self).globals == old(self).globals,
            final(self).output == old(self).output,
    {
        if self.scope.len() > 0 {
            self.scope.pop();
        }
    }

    /// The cell that `name` resolves to: local scopes innermost first, then
    /// the globals.
    pub fn local(&self, name: &String) -> (r: Option<usize>)
        requires
            self.wf(),
        ensures
            r == self.lookup(name@),
            r matches Some(c) ==> c < self.cells@.len(),
    {
        let mut i = self.scope.len();
        proof {
            assert(self.scope@.subrange(0, i as int) =~= self.scope@);
        }
        while i > 0
            invariant
                i <= self.scope@.len(),
                self.wf(),
                resolve(self.scope@.subrange(0, i as int), self.globals, name@) == self.lookup(
                    name@,
                ),
            decreases i,
        {
            let ghost sub = self.scope@.subrange(0, i as int);
            proof {
                assert(sub.last() == self.scope@[i - 1]);
                assert(sub.drop_last() =~= self.scope@.subrange(0, i - 1));
                lemma_find_ok(self.scope@[i - 1], self.cells@.len(), name@);
            }
            if let Some(c) = find_binding(&self.scope[i - 1], name) {
                return Some(c);
            }
            i = i - 1;
        }
        proof {
            lemma_find_ok(self.globals, self.cells@.len(), name@);
            assert(self.scope@.subrange(0, 0) =~= Seq::<Bindings>::empty());
        }
        find_binding(&self.globals, name)
    }
}

/// The cell that `b` binds `name` to.
pub fn find_binding(b: &Bindings, name: &String) -> (r: Option<usize>)
    ensures
        r == find(*b, name@),
    decreases b,
{
    match b {
        Bindings::Nil => None,
        Bindings::Cons(n, c, rest) => {
            if *n == *name {
                Some(*c)
            } else {
                find_binding(rest, name)
            }
        },
    }
}

} // verus!
