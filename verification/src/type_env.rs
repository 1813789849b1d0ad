use vstd::prelude::*;
use crate::token::Token;
use crate::types::{copy_type, TypeExpr, TypeView};

verus! {

/// The types bound to names in one scope.  Each name is bound at most once.
pub struct SymbolTable {
    table: Vec<(String, TypeExpr)>,
}

/// The binding of `name` in a list of bindings in which each name occurs at
/// most once.
pub open spec fn binding_of(entries: Seq<(String, TypeExpr)>, name: Seq<char>) -> Option<TypeView>
    decreases entries.len(),
{
    if entries.len() == 0 {
        None
    } else if entries.last().0@ == name {
        Some(entries.last().1@)
    } else {
        binding_of(entries.drop_last(), name)
    }
}

/// No name occurs twice.
pub open spec fn names_unique(entries: Seq<(String, TypeExpr)>) -> bool {
    forall|i: int, j: int| 0 <= i < j < entries.len() ==> #[trigger] entries[i].0@ != #[trigger] entries[j].0@
}

proof fn lemma_binding_at(entries: Seq<(String, TypeExpr)>, name: Seq<char>, i: int)
    requires
        names_unique(entries),
        0 <= i < entries.len(),
        entries[i].0@ == name,
    ensures
        binding_of(entries, name) == Some(entries[i].1@),
    decreases entries.len(),
{
    if i < entries.len() - 1 {
        assert(entries.last().0@ != name);
        assert(entries.drop_last()[i] == entries[i]);
        lemma_binding_at(entries.drop_last(), name, i);
    }
}

proof fn lemma_binding_absent(entries: Seq<(String, TypeExpr)>, name: Seq<char>)
    requires
        forall|i: int| 0 <= i < entries.len() ==> #[trigger] entries[i].0@ != name,
    ensures
        binding_of(entries, name) is None,
    decreases entries.len(),
{
    if entries.len() > 0 {
        assert(entries.last().0@ != name);
        assert forall|i: int| 0 <= i < entries.drop_last().len() implies #[trigger] entries.drop_last()[i].0@ != name by {
            assert(entries.drop_last()[i] == entries[i]);
        }
        lemma_binding_absent(entries.drop_last(), name);
    }
}

proof fn lemma_binding_update(entries: Seq<(String, TypeExpr)>, i: int, e: (String, TypeExpr), name: Seq<char>)
    requires
        names_unique(entries),
        0 <= i < entries.len(),
        entries[i].0@ == e.0@,
    ensures
        names_unique(entries.update(i, e)),
        binding_of(entries.update(i, e), name) == (if name == e.0@ {
            Some(e.1@)
        } else {
            binding_of(entries, name)
        }),
    decreases entries.len(),
{
    let u = entries.update(i, e);
    assert forall|a: int, b: int| 0 <= a < b < u.len() implies #[trigger] u[a].0@ != #[trigger] u[b].0@ by {
        assert(entries[a].0@ != entries[b].0@);
    }
    if name == e.0@ {
        lemma_binding_at(u, name, i);
    } else if i == entries.len() - 1 {
        assert(u.drop_last() =~= entries.drop_last());
    } else {
        assert(u.drop_last() =~= entries.drop_last().update(i, e));
        assert(u.last() == entries.last());
        lemma_binding_update(entries.drop_last(), i, e, name);
    }
}

impl SymbolTable {
    /// The bindings of this scope.
    pub closed spec fn entries(&self) -> Seq<(String, TypeExpr)> {
        self.table@
    }

    /// The type bound to `name` in this scope, if any.
    pub open spec fn bound(&self, name: Seq<char>) -> Option<TypeView> {
        binding_of(self.entries(), name)
    }

    pub closed spec fn wf(&self) -> bool {
        names_unique(self.table@)
    }

    /// An empty scope.
    pub fn new() -> (r: Self)
        ensures
            r.wf(),
            forall|name: Seq<char>| r.bound(name) is None,
    {
        Self { table: Vec::new() }
    }

    /// Binds `name` to `value`, replacing any earlier binding of it.
    pub fn insert(&mut self, name: String, value: TypeExpr)
        requires
            old(self).wf(),
        ensures
            final(self).wf(),
            final(self).bound(name@) == Some(value@),
            forall|other: Seq<char>| other != name@ ==> #[trigger] final(self).bound(other) == old(self).bound(other),
    {
        let ghost before = self.table@;
        let ghost key = name@;
        let ghost v = value@;
        let mut i: usize = 0;
        while i < self.table.len()
            invariant
                i <= self.table@.len(),
                self.table@ == before,
                before == old(self).table@,
                key == name@,
                names_unique(before),
                forall|j: int| 0 <= j < i ==> #[trigger] before[j].0@ != key,
            decreases self.table@.len() - i,
        {
            if self.table[i].0 == name {
                let ghost e = (name, value);
                self.table.set(i, (name, value));
                proof {
                    assert(self.table@ == before.update(i as int, e));
                    lemma_binding_update(before, i as int, e, key);
                    assert forall|other: Seq<char>| other != key implies #[trigger] self.bound(other) == binding_of(
                        before,
                        other,
                    ) by {
                        lemma_binding_update(before, i as int, e, other);
                    }
                }
                return;
            }
            i = i + 1;
        }
        self.table.push((name, value));
        proof {
            let after = self.table@;
            assert(after.drop_last() =~= before);
            assert forall|a: int, b: int| 0 <= a < b < after.len() implies #[trigger] after[a].0@ != #[trigger] after[
                b
            ].0@ by {
                if b == after.len() - 1 {
                    assert(before[a].0@ != key);
                } else {
                    assert(before[a].0@ != before[b].0@);
                }
            }
        }
    }

    /// The type bound to `name` in this scope, if any.
    pub fn lookup(&self, identifier: &Token) -> (r: Option<&TypeExpr>)
        requires
            self.wf(),
        ensures
            match r {
                Some(t) => self.bound(identifier.lexeme@) == Some(t@),
                None => self.bound(identifier.lexeme@) is None,
            },
    {
        let mut i: usize = 0;
        while i < self.table.len()
            invariant
                i <= self.table@.len(),
                names_unique(self.table@),
                forall|j: int| 0 <= j < i ==> #[trigger] self.table@[j].0@ != identifier.lexeme@,
            decreases self.table@.len() - i,
        {
            if self.table[i].0 == identifier.lexeme {
                proof {
                    lemma_binding_at(self.table@, identifier.lexeme@, i as int);
                }
                return Some(&self.table[i].1);
            }
            i = i + 1;
        }
        proof {
            lemma_binding_absent(self.table@, identifier.lexeme@);
        }
        None
    }
}

/// Nested scopes of type bindings; the last scope is the innermost.
pub struct TypeEnvironment {
    stack: Vec<SymbolTable>,
}

/// The type `name` is bound to in the innermost of `scopes` that binds it.
pub open spec fn scoped_binding(scopes: Seq<SymbolTable>, name: Seq<char>) -> Option<TypeView>
    decreases scopes.len(),
{
    if scopes.len() == 0 {
        None
    } else {
        match scopes.last().bound(name) {
            Some(t) => Some(t),
            None => scoped_binding(scopes.drop_last(), name),
        }
    }
}

impl TypeEnvironment {
    /// The scopes, outermost first.
    pub closed spec fn scopes(&self) -> Seq<SymbolTable> {
        self.stack@
    }

    /// The type `name` is bound to, in the innermost scope that binds it.
    pub open spec fn bound(&self, name: Seq<char>) -> Option<TypeView> {
        scoped_binding(self.scopes(), name)
    }

    /// The number of open scopes.
    pub open spec fn depth(&self) -> nat {
        self.scopes().len()
    }

    pub open spec fn wf(&self) -> bool {
        forall|i: int| 0 <= i < self.scopes().len() ==> #[trigger] self.scopes()[i].wf()
    }

    /// An environment with no scope.
    pub fn new() -> (r: Self)
        ensures
            r.wf(),
            r.depth() == 0,
    {
        Self { stack: Vec::new() }
    }

    /// Opens an empty innermost scope.
    pub fn push_scope(&mut self)
        requires
            old(self).wf(),
        ensures
            final(self).wf(),
            final(self).scopes() == old(self).scopes().push(final(self).scopes().last()),
            forall|name: Seq<char>| final(self).scopes().last().bound(name) is None,
            forall|name: Seq<char>| #[trigger] final(self).bound(name) == old(self).bound(name),
    {
        let ghost before = self.stack@;
        self.stack.push(SymbolTable::new());
        proof {
            assert forall|name: Seq<char>| #[trigger] self.bound(name) == scoped_binding(before, name) by {
                assert(self.stack@.drop_last() =~= before);
            }
        }
    }

    /// Closes the innermost scope, if there is one.
    pub fn pop_scope(&mut self)
        requires
            old(self).wf(),
        ensures
            final(self).wf(),
            final(self).scopes() == if old(self).depth() == 0 {
                old(self).scopes()
            } else {
                old(self).scopes().drop_last()
            },
    {
        let _ = self.stack.pop();
    }

    /// Binds the name of `identifier` to `type_expr` in the innermost scope;
    /// with no scope open, nothing is bound.
    pub fn insert(&mut self, identifier: &Token, type_expr: TypeExpr)
        requires
            old(self).wf(),
        ensures
            final(self).wf(),
            final(self).depth() == old(self).depth(),
            old(self).depth() > 0 ==> final(self).bound(identifier.lexeme@) == Some(type_expr@),
            old(self).depth() > 0 ==> forall|other: Seq<char>|
                other != identifier.lexeme@ ==> #[trigger] final(self).bound(other) == old(self).bound(other),
            old(self).depth() == 0 ==> final(self).scopes() == old(self).scopes(),
    {
        let n = self.stack.len();
        if n > 0 {
            let ghost before = self.stack@;
            let mut scope = self.stack.pop().unwrap();
            proof {
                assert(self.stack@ =~= before.drop_last());
                assert(before[n - 1].wf());
            }
            scope.insert(identifier.lexeme.clone(), type_expr);
            self.stack.push(scope);
            proof {
                assert(self.stack@.drop_last() =~= before.drop_last());
                assert forall|i: int| 0 <= i < self.scopes().len() implies #[trigger] self.scopes()[i].wf() by {
                    if i < n - 1 {
                        assert(self.stack@[i] == before[i]);
                    }
                }
            }
        }
    }

    /// The type the name of `identifier` is bound to, in the innermost
    /// scope that binds it.
    pub fn lookup(&self, identifier: &Token) -> (r: Option<&TypeExpr>)
        requires
            self.wf(),
        ensures
            match r {
                Some(t) => self.bound(identifier.lexeme@) == Some(t@),
                None => self.bound(identifier.lexeme@) is None,
            },
    {
        let ghost name = identifier.lexeme@;
        let mut i: usize = self.stack.len();
        proof {
            assert(self.stack@.take(i as int) =~= self.stack@);
        }
        while i > 0
            invariant
                i <= self.stack@.len(),
                self.wf(),
                name == identifier.lexeme@,
                scoped_binding(self.stack@, name) == scoped_binding(self.stack@.take(i as int), name),
            decreases i,
        {
            let scope = &self.stack[i - 1];
            proof {
                assert(self.scopes()[i - 1].wf());
                assert(self.stack@.take(i as int).drop_last() =~= self.stack@.take(i - 1));
                assert(self.stack@.take(i as int).last() == self.stack@[i - 1]);
            }
            match scope.lookup(identifier) {
                Some(t) => {
                    return Some(t);
                },
                None => {},
            }
            i = i - 1;
        }
        None
    }
}

/// Closing a scope right after opening it restores the bindings in force
/// before it was opened.
pub proof fn law_pop_restores_push(before: TypeEnvironment, pushed: TypeEnvironment, popped: TypeEnvironment)
    requires
        pushed.scopes() == before.scopes().push(pushed.scopes().last()),
        popped.scopes() == if pushed.depth() == 0 {
            pushed.scopes()
        } else {
            pushed.scopes().drop_last()
        },
    ensures
        popped.scopes() == before.scopes(),
        forall|name: Seq<char>| #[trigger] popped.bound(name) == before.bound(name),
{
    assert(pushed.scopes().drop_last() =~= before.scopes());
}

} // verus!
