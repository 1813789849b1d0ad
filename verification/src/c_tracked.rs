use vstd::prelude::*;
use crate::ast::{Expr, Stmt, VariableBinding};
use crate::c_names::{c_type_text, mangled, suffix_text};
use crate::code_generator::{line_at, needed, CodeGenerator};
use crate::error::CodegenError;
use crate::type_checker::{holds_name, TypeInfo};
use crate::types::{copy_type, TypeExpr, TypeView};

verus! {

/// Whether `names` holds `n`.
pub open spec fn holds(names: Seq<String>, n: Seq<char>) -> bool {
    exists|i: int| 0 <= i < names.len() && #[trigger] names[i]@ == n
}

/// The names a list of strings holds.
pub open spec fn name_set(names: Seq<String>) -> Set<Seq<char>> {
    Set::new(|n: Seq<char>| holds(names, n))
}

/// The first type kept for the position `pos`, if any.
pub open spec fn type_at(ps: Seq<((u32, u32), TypeExpr)>, pos: (u32, u32)) -> Option<TypeView>
    decreases ps.len(),
{
    if ps.len() == 0 {
        None
    } else if ps[0].0 == pos {
        Some(ps[0].1@)
    } else {
        type_at(ps.drop_first(), pos)
    }
}

/// What declaring the tracked variables of a statement comes to: the
/// variables declared, in order, each by its name and Delo type; the names
/// declared by then; and, where the type of one could not be found, its
/// position and name.
pub struct TrackedWalk {
    pub declared: Seq<(Seq<char>, TypeView)>,
    pub emitted: Set<Seq<char>>,
    pub missing: Option<(u32, u32, Seq<char>)>,
}

/// The Delo type of a declared variable: its annotation, else the type
/// kept for its initializer.
pub open spec fn declared_type(
    token_line: u32,
    token_column: u32,
    annotation: Option<TypeExpr>,
    initializer: Option<Expr>,
    inits: Seq<((u32, u32), TypeExpr)>,
) -> Option<TypeView> {
    match annotation {
        Some(a) => Some(a@),
        None => match initializer {
            Some(_) => type_at(inits, (token_line, token_column)),
            None => None,
        },
    }
}

/// The walk of a statement, starting with the names `emitted` declared: a
/// tracked variable declared by name, not declared before, is declared at
/// its type; `if`, loops, blocks and function bodies are walked into.
pub open spec fn walk_stmt(
    s: Stmt,
    watched: Set<Seq<char>>,
    inits: Seq<((u32, u32), TypeExpr)>,
    emitted: Set<Seq<char>>,
) -> TrackedWalk
    decreases s, 1nat, 0nat,
{
    match s {
        Stmt::Variable { binding, type_annotation, initializer } => match binding {
            VariableBinding::Identifier(token) => {
                let name = token.lexeme@;
                if watched.contains(name) && !emitted.contains(name) {
                    match declared_type(token.line, token.column, type_annotation, initializer, inits) {
                        Some(t) => TrackedWalk {
                            declared: seq![(name, t)],
                            emitted: emitted.insert(name),
                            missing: None,
                        },
                        None => TrackedWalk {
                            declared: Seq::empty(),
                            emitted,
                            missing: Some((token.line, token.column, name)),
                        },
                    }
                } else {
                    TrackedWalk { declared: Seq::empty(), emitted, missing: None }
                }
            },
            _ => TrackedWalk { declared: Seq::empty(), emitted, missing: None },
        },
        Stmt::If { then_branch, else_branch, .. } => {
            let w1 = walk_stmt(*then_branch, watched, inits, emitted);
            if w1.missing is Some {
                w1
            } else {
                match else_branch {
                    Some(e) => {
                        let w2 = walk_stmt(*e, watched, inits, w1.emitted);
                        TrackedWalk { declared: w1.declared + w2.declared, emitted: w2.emitted, missing: w2.missing }
                    },
                    None => w1,
                }
            }
        },
        Stmt::While { body, .. } => walk_stmt(*body, watched, inits, emitted),
        Stmt::ForIn { body, .. } => walk_stmt(*body, watched, inits, emitted),
        Stmt::Block(ss) => walk_prefix(ss@, ss@.len(), watched, inits, emitted),
        Stmt::Function(f) => walk_prefix(f.body@, f.body@.len(), watched, inits, emitted),
        _ => TrackedWalk { declared: Seq::empty(), emitted, missing: None },
    }
}

/// The walk of the first `n` statements of `ss`, stopping at the first
/// whose type could not be found.
pub open spec fn walk_prefix(
    ss: Seq<Stmt>,
    n: nat,
    watched: Set<Seq<char>>,
    inits: Seq<((u32, u32), TypeExpr)>,
    emitted: Set<Seq<char>>,
) -> TrackedWalk
    decreases ss, 0nat, n,
{
    if n == 0 || n > ss.len() {
        TrackedWalk { declared: Seq::empty(), emitted, missing: None }
    } else {
        let w1 = walk_prefix(ss, (n - 1) as nat, watched, inits, emitted);
        if w1.missing is Some {
            w1
        } else {
            let w2 = walk_stmt(ss[n - 1], watched, inits, w1.emitted);
            TrackedWalk { declared: w1.declared + w2.declared, emitted: w2.emitted, missing: w2.missing }
        }
    }
}

/// The global of each declared variable that holds its history, at level
/// `n`.
pub open spec fn tracked_text(ds: Seq<(Seq<char>, TypeView)>, n: nat) -> Seq<char>
    decreases ds.len(),
{
    if ds.len() == 0 {
        Seq::empty()
    } else {
        tracked_text(ds.drop_last(), n) + line_at(
            n,
            "static History_"@ + suffix_text(c_type_text(ds.last().1)) + "* "@ + mangled(ds.last().0) + " = NULL;"@,
        )
    }
}

/// The instantiations the types of the declared variables need.
pub open spec fn tracked_needed(ds: Seq<(Seq<char>, TypeView)>) -> Set<(crate::code_generator::InstantiationKind, Seq<Seq<char>>)>
    decreases ds.len(),
{
    if ds.len() == 0 {
        Set::empty()
    } else {
        tracked_needed(ds.drop_last()).union(needed(ds.last().1))
    }
}

proof fn lemma_tracked_append(a: Seq<(Seq<char>, TypeView)>, b: Seq<(Seq<char>, TypeView)>, n: nat)
    ensures
        tracked_text(a + b, n) == tracked_text(a, n) + tracked_text(b, n),
        tracked_needed(a + b) == tracked_needed(a).union(tracked_needed(b)),
    decreases b.len(),
{
    if b.len() == 0 {
        assert(a + b =~= a);
        assert(tracked_text(a, n) + Seq::<char>::empty() =~= tracked_text(a, n));
        assert(tracked_needed(a).union(Set::empty()) =~= tracked_needed(a));
    } else {
        lemma_tracked_append(a, b.drop_last(), n);
        assert((a + b).drop_last() =~= a + b.drop_last());
        assert((a + b).last() == b.last());
        assert(tracked_text(a + b, n) =~= tracked_text(a, n) + tracked_text(b, n));
        assert(tracked_needed(a + b) =~= tracked_needed(a).union(tracked_needed(b)));
    }
}

/// Once a walk has stopped, walking further statements changes nothing.
proof fn lemma_walk_prefix_stops(
    ss: Seq<Stmt>,
    k: nat,
    n: nat,
    watched: Set<Seq<char>>,
    inits: Seq<((u32, u32), TypeExpr)>,
    emitted: Set<Seq<char>>,
)
    requires
        k <= n <= ss.len(),
        walk_prefix(ss, k, watched, inits, emitted).missing is Some,
    ensures
        walk_prefix(ss, n, watched, inits, emitted) == walk_prefix(ss, k, watched, inits, emitted),
    decreases n - k,
{
    if n > k {
        lemma_walk_prefix_stops(ss, k, (n - 1) as nat, watched, inits, emitted);
    }
}

/// The C type by which the history of values of Delo type `t` is kept.
pub open spec fn history_of(t: TypeView) -> Seq<Seq<char>> {
    seq![c_type_text(t)]
}

/// The position and name at which a declaration's type is missing.
pub open spec fn missing_at(e: CodegenError) -> Option<(u32, u32, Seq<char>)> {
    match e {
        CodegenError::MissingType { line, column, identifier } => Some((line, column, identifier@)),
        _ => None,
    }
}

/// The first type kept for the position `pos`, if any.
fn find_type_at(ps: &Vec<((u32, u32), TypeExpr)>, pos: (u32, u32)) -> (r: Option<TypeExpr>)
    ensures
        match r {
            Some(t) => type_at(ps@, pos) == Some(t@),
            None => type_at(ps@, pos) is None,
        },
{
    let mut i: usize = 0;
    proof {
        assert(ps@.skip(0) =~= ps@);
    }
    while i < ps.len()
        invariant
            i <= ps@.len(),
            type_at(ps@.skip(i as int), pos) == type_at(ps@, pos),
        decreases ps@.len() - i,
    {
        proof {
            assert(ps@.skip(i as int)[0] == ps@[i as int]);
        }
        if ps[i].0.0 == pos.0 && ps[i].0.1 == pos.1 {
            return Some(copy_type(&ps[i].1));
        }
        proof {
            assert(ps@.skip(i as int).drop_first() =~= ps@.skip(i + 1));
        }
        i = i + 1;
    }
    proof {
        assert(ps@.skip(i as int) =~= Seq::<((u32, u32), TypeExpr)>::empty());
    }
    None
}

impl CodeGenerator {
    /// Declares the history global of each tracked variable declared by
    /// `stmt` or inside it, once per name: `emitted` holds the names
    /// declared so far. A tracked variable with neither an annotation nor a
    /// kept initializer type is an error, at which the walk stops.
    fn collect_tracked_var_decls_in_stmt(
        &mut self,
        stmt: &Stmt,
        emitted: &mut Vec<String>,
        types: &TypeInfo,
    ) -> (r: Result<(), CodegenError>)
        requires
            old(self).wf(),
        ensures
            ({
                let w = walk_stmt(
                    *stmt,
                    name_set(types.tracked_vars@),
                    types.initializer_types@,
                    name_set(old(emitted)@),
                );
                &&& final(self).wf()
                &&& name_set(final(emitted)@) == w.emitted
                &&& (r is Ok <==> w.missing is None)
                &&& (r matches Err(e) ==> missing_at(e) == w.missing)
                &&& final(self).text() == old(self).text() + tracked_text(w.declared, old(self).level())
                &&& final(self).recorded() == old(self).recorded().union(tracked_needed(w.declared))
                &&& forall|k: Seq<Seq<char>>| #[trigger] final(self).histories().contains(k) <==> old(
                    self,
                ).histories().contains(k) || exists|j: int|
                    0 <= j < w.declared.len() && k == history_of(#[trigger] w.declared[j].1)
                &&& final(self).level() == old(self).level()
                &&& final(self).temps() == old(self).temps()
            }),
        decreases stmt, 1nat, 0nat,
    {
        let ghost watched = name_set(types.tracked_vars@);
        let ghost inits = types.initializer_types@;
        let ghost e0 = name_set(emitted@);
        match stmt {
            Stmt::Variable { binding, type_annotation, initializer } => {
                match binding {
                    VariableBinding::Identifier(token) => {
                        let is_tracked = holds_name(&types.tracked_vars, &token.lexeme);
                        let done = holds_name(emitted, &token.lexeme);
                        if is_tracked && !done {
                            let delo_type = match type_annotation {
                                Some(annotation) => copy_type(annotation),
                                None => match initializer {
                                    Some(_) => match find_type_at(&types.initializer_types, (token.line, token.column)) {
                                        Some(t) => t,
                                        None => {
                                            return Err(
                                                CodegenError::MissingType {
                                                    line: token.line,
                                                    column: token.column,
                                                    identifier: token.lexeme.clone(),
                                                },
                                            );
                                        },
                                    },
                                    None => {
                                        return Err(
                                            CodegenError::MissingType {
                                                line: token.line,
                                                column: token.column,
                                                identifier: token.lexeme.clone(),
                                            },
                                        );
                                    },
                                },
                            };
                            let ghost t = delo_type@;
                            self.declare_tracked_variable(token, &delo_type);
                            let ghost before = emitted@;
                            emitted.push(token.lexeme.clone());
                            proof {
                                assert(name_set(emitted@) =~= name_set(before).insert(token.lexeme@)) by {
                                    assert forall|n: Seq<char>| name_set(emitted@).contains(n) <==> name_set(
                                        before,
                                    ).insert(token.lexeme@).contains(n) by {
                                        if holds(emitted@, n) {
                                            let i = choose|i: int| 0 <= i < emitted@.len() && #[trigger] emitted@[i]@ == n;
                                            if i < before.len() {
                                                assert(before[i] == emitted@[i]);
                                            }
                                        }
                                        if holds(before, n) {
                                            let i = choose|i: int| 0 <= i < before.len() && #[trigger] before[i]@ == n;
                                            assert(emitted@[i] == before[i]);
                                        }
                                        if n == token.lexeme@ {
                                            assert(emitted@[before.len() as int]@ == n);
                                        }
                                    }
                                }
                                let ds = seq![(token.lexeme@, t)];
                                assert(ds.drop_last() =~= Seq::<(Seq<char>, TypeView)>::empty());
                                assert(ds.last() == (token.lexeme@, t));
                                assert(tracked_text(Seq::<(Seq<char>, TypeView)>::empty(), old(self).level()) == Seq::<char>::empty());
                                assert(tracked_needed(Seq::<(Seq<char>, TypeView)>::empty()) == Set::<(crate::code_generator::InstantiationKind, Seq<Seq<char>>)>::empty());
                                assert(tracked_text(ds, old(self).level()) =~= line_at(
                                    old(self).level(),
                                    "static History_"@ + suffix_text(c_type_text(t)) + "* "@ + mangled(token.lexeme@)
                                        + " = NULL;"@,
                                ));
                                assert(tracked_needed(ds) =~= needed(t));
                                assert forall|k: Seq<Seq<char>>| #[trigger] self.histories().contains(k) <==> old(
                                    self,
                                ).histories().contains(k) || exists|j: int|
                                    0 <= j < ds.len() && k == history_of(#[trigger] ds[j].1) by {
                                    if k == seq![c_type_text(t)] {
                                        assert(k == history_of(ds[0].1));
                                    }
                                }
                            }
                            Ok(())
                        } else {
                            proof {
                                assert(old(self).text() + tracked_text(Seq::empty(), old(self).level()) =~= old(
                                    self,
                                ).text());
                                assert(old(self).recorded().union(tracked_needed(Seq::empty())) =~= old(
                                    self,
                                ).recorded());
                            }
                            Ok(())
                        }
                    },
                    _ => {
                        proof {
                            assert(old(self).text() + tracked_text(Seq::empty(), old(self).level()) =~= old(self).text());
                            assert(old(self).recorded().union(tracked_needed(Seq::empty())) =~= old(self).recorded());
                        }
                        Ok(())
                    },
                }
            },
            Stmt::If { then_branch, else_branch, .. } => {
                let ghost s0 = *self;
                let r1 = self.collect_tracked_var_decls_in_stmt(then_branch, emitted, types);
                let ghost w1 = walk_stmt(**then_branch, watched, inits, e0);
                if r1.is_err() {
                    return r1;
                }
                match else_branch {
                    Some(else_stmt) => {
                        let ghost s1 = *self;
                        let r2 = self.collect_tracked_var_decls_in_stmt(else_stmt, emitted, types);
                        proof {
                            let w2 = walk_stmt(**else_stmt, watched, inits, w1.emitted);
                            lemma_tracked_append(w1.declared, w2.declared, old(self).level());
                            assert(self.text() =~= old(self).text() + tracked_text(w1.declared + w2.declared, old(self).level()));
                            assert(self.recorded() =~= old(self).recorded().union(tracked_needed(w1.declared + w2.declared)));
                            let ds = w1.declared + w2.declared;
                            assert forall|k: Seq<Seq<char>>| #[trigger] self.histories().contains(k) <==> old(
                                self,
                            ).histories().contains(k) || exists|j: int|
                                0 <= j < ds.len() && k == history_of(#[trigger] ds[j].1) by {
                                if exists|j: int| 0 <= j < w1.declared.len() && k == history_of(#[trigger] w1.declared[j].1) {
                                    let j = choose|j: int| 0 <= j < w1.declared.len() && k == history_of(
                                        #[trigger] w1.declared[j].1,
                                    );
                                    assert(ds[j] == w1.declared[j]);
                                }
                                if exists|j: int| 0 <= j < w2.declared.len() && k == history_of(#[trigger] w2.declared[j].1) {
                                    let j = choose|j: int| 0 <= j < w2.declared.len() && k == history_of(
                                        #[trigger] w2.declared[j].1,
                                    );
                                    assert(ds[w1.declared.len() + j] == w2.declared[j]);
                                }
                                if exists|j: int| 0 <= j < ds.len() && k == history_of(#[trigger] ds[j].1) {
                                    let j = choose|j: int| 0 <= j < ds.len() && k == history_of(#[trigger] ds[j].1);
                                    if j < w1.declared.len() {
                                        assert(ds[j] == w1.declared[j]);
                                    } else {
                                        assert(ds[j] == w2.declared[j - w1.declared.len()]);
                                    }
                                }
                            }
                        }
                        r2
                    },
                    None => r1,
                }
            },
            Stmt::While { body, .. } => self.collect_tracked_var_decls_in_stmt(body, emitted, types),
            Stmt::ForIn { body, .. } => self.collect_tracked_var_decls_in_stmt(body, emitted, types),
            Stmt::Block(stmts) => self.collect_tracked_var_decls(stmts.as_slice(), emitted, types),
            Stmt::Function(function) => self.collect_tracked_var_decls(function.body.as_slice(), emitted, types),
            _ => {
                proof {
                    assert(old(self).text() + tracked_text(Seq::empty(), old(self).level()) =~= old(self).text());
                    assert(old(self).recorded().union(tracked_needed(Seq::empty())) =~= old(self).recorded());
                }
                Ok(())
            },
        }
    }

    /// Declares the history globals of the tracked variables declared by
    /// `stmts` or inside them, in order, once per name, stopping at the
    /// first whose type is missing.
    fn collect_tracked_var_decls(
        &mut self,
        stmts: &[Stmt],
        emitted: &mut Vec<String>,
        types: &TypeInfo,
    ) -> (r: Result<(), CodegenError>)
        requires
            old(self).wf(),
        ensures
            ({
                let w = walk_prefix(
                    stmts@,
                    stmts@.len(),
                    name_set(types.tracked_vars@),
                    types.initializer_types@,
                    name_set(old(emitted)@),
                );
                &&& final(self).wf()
                &&& name_set(final(emitted)@) == w.emitted
                &&& (r is Ok <==> w.missing is None)
                &&& (r matches Err(e) ==> missing_at(e) == w.missing)
                &&& final(self).text() == old(self).text() + tracked_text(w.declared, old(self).level())
                &&& final(self).recorded() == old(self).recorded().union(tracked_needed(w.declared))
                &&& forall|k: Seq<Seq<char>>| #[trigger] final(self).histories().contains(k) <==> old(
                    self,
                ).histories().contains(k) || exists|j: int|
                    0 <= j < w.declared.len() && k == history_of(#[trigger] w.declared[j].1)
                &&& final(self).level() == old(self).level()
                &&& final(self).temps() == old(self).temps()
            }),
        decreases stmts@, 0nat, stmts@.len(),
    {
        let ghost watched = name_set(types.tracked_vars@);
        let ghost inits = types.initializer_types@;
        let ghost e0 = name_set(emitted@);
        let ghost n = old(self).level();
        proof {
            assert(old(self).text() + tracked_text(Seq::empty(), n) =~= old(self).text());
            assert(old(self).recorded().union(tracked_needed(Seq::empty())) =~= old(self).recorded());
        }
        let mut i: usize = 0;
        while i < stmts.len()
            invariant
                i <= stmts@.len(),
                watched == name_set(types.tracked_vars@),
                inits == types.initializer_types@,
                e0 == name_set(old(emitted)@),
                n == old(self).level(),
                walk_prefix(stmts@, i as nat, watched, inits, e0).missing is None,
                name_set(emitted@) == walk_prefix(stmts@, i as nat, watched, inits, e0).emitted,
                self.wf(),
                self.text() == old(self).text() + tracked_text(walk_prefix(stmts@, i as nat, watched, inits, e0).declared, n),
                self.recorded() == old(self).recorded().union(
                    tracked_needed(walk_prefix(stmts@, i as nat, watched, inits, e0).declared),
                ),
                forall|k: Seq<Seq<char>>| #[trigger] self.histories().contains(k) <==> old(self).histories().contains(k)
                    || exists|j: int|
                    0 <= j < walk_prefix(stmts@, i as nat, watched, inits, e0).declared.len() && k == history_of(
                        #[trigger] walk_prefix(stmts@, i as nat, watched, inits, e0).declared[j].1,
                    ),
                self.level() == n,
                self.temps() == old(self).temps(),
            decreases stmts@.len() - i,
        {
            let ghost w1 = walk_prefix(stmts@, i as nat, watched, inits, e0);
            let ghost s1 = *self;
            let r = self.collect_tracked_var_decls_in_stmt(&stmts[i], emitted, types);
            let ghost w2 = walk_stmt(stmts@[i as int], watched, inits, w1.emitted);
            proof {
                let w = walk_prefix(stmts@, (i + 1) as nat, watched, inits, e0);
                assert(w == TrackedWalk { declared: w1.declared + w2.declared, emitted: w2.emitted, missing: w2.missing });
                lemma_tracked_append(w1.declared, w2.declared, n);
                assert(self.text() =~= old(self).text() + tracked_text(w.declared, n));
                assert(self.recorded() =~= old(self).recorded().union(tracked_needed(w.declared)));
                let ds = w.declared;
                assert forall|k: Seq<Seq<char>>| #[trigger] self.histories().contains(k) <==> old(self).histories().contains(
                    k,
                ) || exists|j: int| 0 <= j < ds.len() && k == history_of(#[trigger] ds[j].1) by {
                    if exists|j: int| 0 <= j < w1.declared.len() && k == history_of(#[trigger] w1.declared[j].1) {
                        let j = choose|j: int| 0 <= j < w1.declared.len() && k == history_of(#[trigger] w1.declared[j].1);
                        assert(ds[j] == w1.declared[j]);
                    }
                    if exists|j: int| 0 <= j < w2.declared.len() && k == history_of(#[trigger] w2.declared[j].1) {
                        let j = choose|j: int| 0 <= j < w2.declared.len() && k == history_of(#[trigger] w2.declared[j].1);
                        assert(ds[w1.declared.len() + j] == w2.declared[j]);
                    }
                    if exists|j: int| 0 <= j < ds.len() && k == history_of(#[trigger] ds[j].1) {
                        let j = choose|j: int| 0 <= j < ds.len() && k == history_of(#[trigger] ds[j].1);
                        if j < w1.declared.len() {
                            assert(ds[j] == w1.declared[j]);
                        } else {
                            assert(ds[j] == w2.declared[j - w1.declared.len()]);
                        }
                    }
                }
                if w2.missing is Some {
                    lemma_walk_prefix_stops(stmts@, (i + 1) as nat, stmts@.len(), watched, inits, e0);
                }
            }
            if r.is_err() {
                proof {
                    lemma_walk_prefix_stops(stmts@, (i + 1) as nat, stmts@.len(), watched, inits, e0);
                    let w = walk_prefix(stmts@, (i + 1) as nat, watched, inits, e0);
                    let wl = walk_prefix(stmts@, stmts@.len(), watched, inits, e0);
                    assert(wl == w);
                    assert(wl.declared == w.declared);
                }
                return r;
            }
            i = i + 1;
        }
        Ok(())
    }

    /// Declares, before the code that uses them, the globals that hold the
    /// histories of the tracked variables of the program, in the order of
    /// their declarations and once per name.
    pub fn emit_tracked_var_globals(&mut self, stmts: &[Stmt], types: &TypeInfo) -> (r: Result<(), CodegenError>)
        requires
            old(self).wf(),
        ensures
            ({
                let w = walk_prefix(
                    stmts@,
                    stmts@.len(),
                    name_set(types.tracked_vars@),
                    types.initializer_types@,
                    Set::empty(),
                );
                &&& final(self).wf()
                &&& (r is Ok <==> w.missing is None)
                &&& (r matches Err(e) ==> missing_at(e) == w.missing)
                &&& final(self).text() == old(self).text() + tracked_text(w.declared, old(self).level())
                &&& final(self).recorded() == old(self).recorded().union(tracked_needed(w.declared))
                &&& forall|k: Seq<Seq<char>>| #[trigger] final(self).histories().contains(k) <==> old(
                    self,
                ).histories().contains(k) || exists|j: int|
                    0 <= j < w.declared.len() && k == history_of(#[trigger] w.declared[j].1)
                &&& final(self).level() == old(self).level()
                &&& final(self).temps() == old(self).temps()
            }),
    {
        let mut emitted: Vec<String> = Vec::new();
        proof {
            assert(name_set(emitted@) =~= Set::<Seq<char>>::empty());
        }
        self.collect_tracked_var_decls(stmts, &mut emitted, types)
    }
}

} // verus!
