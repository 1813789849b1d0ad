use vstd::prelude::*;
use std::collections::HashMap;
use crate::error::{TypeError, UnifyError};
use crate::token::Token;
use crate::types::{copy_type, fields_view, lemma_fields_view_index, lemma_types_view_index, type_view, types_view, TypeExpr, TypeView};
use crate::renaming::{field_type_vars, fresh_renaming, lemma_field_type_vars_prefix, lemma_rename_fields_extends, lemma_rename_seq_extends, lemma_seq_type_vars_finite, lemma_seq_type_vars_prefix, lemma_type_vars_finite, rename, rename_fields, rename_seq, seq_type_vars, type_vars};
use crate::token::TokenView;

verus! {

broadcast use vstd::std_specs::hash::group_hash_axioms;

/// A substitution: what each bound type variable stands for.
pub type Subst = Map<usize, TypeView>;

/// A ranking of type variables; a substitution is acyclic when some ranking
/// puts every bound variable above the variables of what it stands for.
pub type Ranking = Map<usize, nat>;

pub open spec fn rank_of(r: Ranking, id: usize) -> nat {
    if r.contains_key(id) { r[id] } else { 0 }
}

pub open spec fn max_nat(a: nat, b: nat) -> nat {
    if a >= b { a } else { b }
}

/// One more than the highest rank of a type variable that occurs in `t`
/// (outside the declaration data a named type carries), or 0.
pub open spec fn term_rank(r: Ranking, t: TypeView) -> nat
    decreases t,
{
    match t {
        TypeView::Named { type_arguments, .. } => seq_rank(r, type_arguments),
        TypeView::Function { parameter_types, return_type } => max_nat(seq_rank(r, parameter_types), term_rank(r, *return_type)),
        TypeView::Tuple { element_types } => seq_rank(r, element_types),
        TypeView::TypeVar { id } => rank_of(r, id) + 1,
    }
}

pub open spec fn seq_rank(r: Ranking, ts: Seq<TypeView>) -> nat
    decreases ts,
{
    if ts.len() == 0 {
        0
    } else {
        max_nat(seq_rank(r, ts.drop_last()), term_rank(r, ts.last()))
    }
}

/// `r` shows `s` acyclic.
pub open spec fn ranked(s: Subst, r: Ranking) -> bool {
    forall|id: usize| #[trigger] s.contains_key(id) ==> term_rank(r, s[id]) <= rank_of(r, id)
}

/// Whether `id` is bound in a way that `r` ranks.
pub open spec fn bound(s: Subst, r: Ranking, id: usize) -> bool {
    s.contains_key(id) && term_rank(r, s[id]) <= rank_of(r, id)
}

/// `t` with a chain of bound type variables at its top followed to its end.
pub open spec fn resolve(s: Subst, r: Ranking, t: TypeView) -> TypeView
    decreases term_rank(r, t),
{
    match t {
        TypeView::TypeVar { id } => if bound(s, r, id) { resolve(s, r, s[id]) } else { t },
        _ => t,
    }
}

/// `t` with every bound type variable replaced, over and over, by what it
/// stands for.  Declaration data carried by named types is left as it is.
pub open spec fn apply(s: Subst, r: Ranking, t: TypeView) -> TypeView
    decreases term_rank(r, t), t,
{
    match t {
        TypeView::Named { identifier, type_parameters, type_arguments, enum_variants, struct_fields } => TypeView::Named {
            identifier,
            type_parameters,
            type_arguments: apply_seq(s, r, type_arguments),
            enum_variants,
            struct_fields,
        },
        TypeView::Function { parameter_types, return_type } => TypeView::Function {
            parameter_types: apply_seq(s, r, parameter_types),
            return_type: Box::new(apply(s, r, *return_type)),
        },
        TypeView::Tuple { element_types } => TypeView::Tuple { element_types: apply_seq(s, r, element_types) },
        TypeView::TypeVar { id } => if bound(s, r, id) { apply(s, r, s[id]) } else { t },
    }
}

pub open spec fn apply_seq(s: Subst, r: Ranking, ts: Seq<TypeView>) -> Seq<TypeView>
    decreases seq_rank(r, ts), ts,
{
    if ts.len() == 0 {
        Seq::empty()
    } else {
        apply_seq(s, r, ts.drop_last()).push(apply(s, r, ts.last()))
    }
}

/// Whether type variable `v` occurs in `t` (outside declaration data).
pub open spec fn var_in(v: usize, t: TypeView) -> bool
    decreases t,
{
    match t {
        TypeView::Named { type_arguments, .. } => var_in_seq(v, type_arguments),
        TypeView::Function { parameter_types, return_type } => var_in_seq(v, parameter_types) || var_in(v, *return_type),
        TypeView::Tuple { element_types } => var_in_seq(v, element_types),
        TypeView::TypeVar { id } => id == v,
    }
}

pub open spec fn var_in_seq(v: usize, ts: Seq<TypeView>) -> bool
    decreases ts,
{
    if ts.len() == 0 {
        false
    } else {
        var_in_seq(v, ts.drop_last()) || var_in(v, ts.last())
    }
}

/// Every type variable in `t` is below `n`.
pub open spec fn vars_below(t: TypeView, n: nat) -> bool {
    forall|v: usize| var_in(v, t) ==> v < n
}

pub proof fn lemma_seq_rank_index(r: Ranking, ts: Seq<TypeView>, i: int)
    requires
        0 <= i < ts.len(),
    ensures
        term_rank(r, ts[i]) <= seq_rank(r, ts),
    decreases ts.len(),
{
    if i < ts.len() - 1 {
        lemma_seq_rank_index(r, ts.drop_last(), i);
    }
}

pub proof fn lemma_apply_seq_index(s: Subst, r: Ranking, ts: Seq<TypeView>)
    ensures
        apply_seq(s, r, ts).len() == ts.len(),
        forall|i: int| 0 <= i < ts.len() ==> #[trigger] apply_seq(s, r, ts)[i] == apply(s, r, ts[i]),
    decreases ts.len(),
{
    if ts.len() > 0 {
        lemma_apply_seq_index(s, r, ts.drop_last());
    }
}

/// `t` holds no type variable.
pub open spec fn ground(t: TypeView) -> bool {
    forall|v: usize| !#[trigger] var_in(v, t)
}

/// No type of `ts` holds a type variable.
pub open spec fn ground_seq(ts: Seq<TypeView>) -> bool {
    forall|v: usize| !#[trigger] var_in_seq(v, ts)
}

/// Unifying the unbound variable `v` with a type that resolves to `rt`,
/// from `u0` to `u1`: `v` itself leaves everything as it was; a type that
/// holds `v` once resolved is an infinite type, with `v` left unbound;
/// anything else binds `v` to `rt`, which is the result.
pub open spec fn var_unify_outcome(u0: Unifier, u1: Unifier, v: usize, rt: TypeView, res: Result<TypeExpr, UnifyError>) -> bool {
    if rt == (TypeView::TypeVar { id: v }) {
        &&& res matches Ok(r) && r@ == rt
        &&& u1.subst() == u0.subst()
        &&& u1.ranking() == u0.ranking()
        &&& u1.resolved(TypeView::TypeVar { id: v }) == (TypeView::TypeVar { id: v })
    } else if var_in(v, u0.resolved(rt)) {
        &&& res matches Err(UnifyError::InfiniteType { type_var_id, type_expr }) && type_var_id == v && type_expr@ == rt
        &&& u1.subst() == u0.subst()
        &&& u1.ranking() == u0.ranking()
        &&& u1.resolved(TypeView::TypeVar { id: v }) == (TypeView::TypeVar { id: v })
    } else {
        &&& res matches Ok(r) && r@ == rt
        &&& u1.subst() == u0.subst().insert(v, rt)
        &&& u1.resolved(TypeView::TypeVar { id: v }) == u1.resolved(rt)
    }
}

/// `var_unify_outcome` with its infinite-type error reported at `token`.
pub open spec fn var_unify_at_outcome(
    u0: Unifier,
    u1: Unifier,
    v: usize,
    rt: TypeView,
    token: Token,
    res: Result<TypeExpr, TypeError>,
) -> bool {
    if rt == (TypeView::TypeVar { id: v }) {
        &&& res matches Ok(r) && r@ == rt
        &&& u1.subst() == u0.subst()
        &&& u1.ranking() == u0.ranking()
        &&& u1.resolved(TypeView::TypeVar { id: v }) == (TypeView::TypeVar { id: v })
    } else if var_in(v, u0.resolved(rt)) {
        &&& res matches Err(TypeError::InfiniteType { line, column, type_var_id, type_expr }) && line == token.line
            && column == token.column && type_var_id == v && type_expr@ == rt
        &&& u1.subst() == u0.subst()
        &&& u1.ranking() == u0.ranking()
        &&& u1.resolved(TypeView::TypeVar { id: v }) == (TypeView::TypeVar { id: v })
    } else {
        &&& res matches Ok(r) && r@ == rt
        &&& u1.subst() == u0.subst().insert(v, rt)
        &&& u1.resolved(TypeView::TypeVar { id: v }) == u1.resolved(rt)
    }
}

/// `a` and `b` resolve to named types of one name with one type argument
/// each, the first's a type variable left unbound and the second's free of
/// type variables, as `Array<T>` against `Array<Int>`.
pub open spec fn variable_argument_against_ground(s: Subst, r: Ranking, a: TypeView, b: TypeView) -> bool {
    match (resolve(s, r, a), resolve(s, r, b)) {
        (
            TypeView::Named { identifier: ia, type_arguments: xa, .. },
            TypeView::Named { identifier: ib, type_arguments: xb, .. },
        ) => ia.lexeme == ib.lexeme && xa.len() == 1 && xb.len() == 1 && resolve(s, r, xa[0]) is TypeVar && ground(xb[0]),
        _ => false,
    }
}

pub proof fn lemma_var_in_seq_index(v: usize, ts: Seq<TypeView>)
    ensures
        var_in_seq(v, ts) <==> exists|i: int| 0 <= i < ts.len() && #[trigger] var_in(v, ts[i]),
    decreases ts.len(),
{
    if ts.len() > 0 {
        lemma_var_in_seq_index(v, ts.drop_last());
        if var_in_seq(v, ts.drop_last()) {
            let i = choose|i: int| 0 <= i < ts.drop_last().len() && #[trigger] var_in(v, ts.drop_last()[i]);
            assert(var_in(v, ts[i]));
        }
        if var_in(v, ts.last()) {
            assert(var_in(v, ts[ts.len() - 1]));
        }
        if exists|i: int| 0 <= i < ts.len() && #[trigger] var_in(v, ts[i]) {
            let i = choose|i: int| 0 <= i < ts.len() && #[trigger] var_in(v, ts[i]);
            if i < ts.len() - 1 {
                assert(var_in(v, ts.drop_last()[i]));
            }
        }
    }
}

/// Chain resolution never raises the rank.
pub proof fn lemma_resolve_rank(s: Subst, r: Ranking, t: TypeView)
    ensures
        term_rank(r, resolve(s, r, t)) <= term_rank(r, t),
        !(resolve(s, r, t) matches TypeView::TypeVar { id } && bound(s, r, id)),
    decreases term_rank(r, t),
{
    if let TypeView::TypeVar { id } = t {
        if bound(s, r, id) {
            lemma_resolve_rank(s, r, s[id]);
        }
    }
}

/// Applying a substitution gives the same as applying it after chain resolution.
pub proof fn lemma_apply_resolve(s: Subst, r: Ranking, t: TypeView)
    ensures
        apply(s, r, resolve(s, r, t)) == apply(s, r, t),
    decreases term_rank(r, t),
{
    if let TypeView::TypeVar { id } = t {
        if bound(s, r, id) {
            lemma_apply_resolve(s, r, s[id]);
        }
    }
}

/// The shape of a type: what unification compares.  Names are compared by
/// their text; the position of a name's token and the declaration data a
/// named type carries are not part of its shape.
pub enum Shape {
    Named(Seq<char>, Seq<Shape>),
    Function(Seq<Shape>, Box<Shape>),
    Tuple(Seq<Shape>),
    Var(usize),
}

pub open spec fn shape(t: TypeView) -> Shape
    decreases t,
{
    match t {
        TypeView::Named { identifier, type_arguments, .. } => Shape::Named(identifier.lexeme, shapes(type_arguments)),
        TypeView::Function { parameter_types, return_type } => Shape::Function(shapes(parameter_types), Box::new(shape(*return_type))),
        TypeView::Tuple { element_types } => Shape::Tuple(shapes(element_types)),
        TypeView::TypeVar { id } => Shape::Var(id),
    }
}

pub open spec fn shapes(ts: Seq<TypeView>) -> Seq<Shape>
    decreases ts,
{
    if ts.len() == 0 {
        Seq::empty()
    } else {
        shapes(ts.drop_last()).push(shape(ts.last()))
    }
}

/// The number of nodes of a type (outside declaration data).
pub open spec fn size(t: TypeView) -> nat
    decreases t,
{
    match t {
        TypeView::Named { type_arguments, .. } => 1 + seq_size(type_arguments),
        TypeView::Function { parameter_types, return_type } => 1 + seq_size(parameter_types) + size(*return_type),
        TypeView::Tuple { element_types } => 1 + seq_size(element_types),
        TypeView::TypeVar { .. } => 1,
    }
}

pub open spec fn seq_size(ts: Seq<TypeView>) -> nat
    decreases ts,
{
    if ts.len() == 0 {
        0
    } else {
        seq_size(ts.drop_last()) + size(ts.last())
    }
}

/// `s2` keeps every binding of `s1`.
pub open spec fn extends(s1: Subst, s2: Subst) -> bool {
    forall|id: usize| #[trigger] s1.contains_key(id) ==> s2.contains_key(id) && s2[id] == s1[id]
}

/// Two resolved types whose heads cannot be made equal: neither is a type
/// variable, and their constructors, names or numbers of components differ.
pub open spec fn heads_clash(a: TypeView, b: TypeView) -> bool {
    match (a, b) {
        (TypeView::TypeVar { .. }, _) => false,
        (_, TypeView::TypeVar { .. }) => false,
        (TypeView::Named { identifier: ia, type_arguments: xa, .. }, TypeView::Named { identifier: ib, type_arguments: xb, .. }) =>
            ia.lexeme != ib.lexeme || xa.len() != xb.len(),
        (TypeView::Function { parameter_types: pa, .. }, TypeView::Function { parameter_types: pb, .. }) => pa.len() != pb.len(),
        (TypeView::Tuple { element_types: ea }, TypeView::Tuple { element_types: eb }) => ea.len() != eb.len(),
        _ => true,
    }
}

pub proof fn lemma_shapes_index(ts: Seq<TypeView>)
    ensures
        shapes(ts).len() == ts.len(),
        forall|i: int| 0 <= i < ts.len() ==> #[trigger] shapes(ts)[i] == shape(ts[i]),
    decreases ts.len(),
{
    if ts.len() > 0 {
        lemma_shapes_index(ts.drop_last());
    }
}

proof fn lemma_seq_size_index(ts: Seq<TypeView>, i: int)
    requires
        0 <= i < ts.len(),
    ensures
        size(ts[i]) <= seq_size(ts),
    decreases ts.len(),
{
    if i < ts.len() - 1 {
        lemma_seq_size_index(ts.drop_last(), i);
    }
}

proof fn lemma_var_in_seq_elem(v: usize, ts: Seq<TypeView>, i: int)
    requires
        0 <= i < ts.len(),
        var_in(v, ts[i]),
    ensures
        var_in_seq(v, ts),
{
    lemma_var_in_seq_index(v, ts);
}

/// A finite set of ids below `n` has at most `n` members.
pub proof fn lemma_ids_below_len(ids: Set<usize>, n: nat)
    requires
        ids.finite(),
        forall|x: usize| #[trigger] ids.contains(x) ==> x < n,
    ensures
        ids.len() <= n,
    decreases n,
{
    if n > 0 {
        let m = (n - 1) as usize;
        let rest = ids.remove(m);
        lemma_ids_below_len(rest, (n - 1) as nat);
    } else {
        if ids.len() > 0 {
            let x = ids.choose();
            assert(ids.contains(x));
        }
    }
}

/// Applying a larger acyclic substitution after a smaller one it extends is
/// the same as applying the larger one alone.
pub proof fn lemma_apply_extends(s: Subst, r: Ranking, s2: Subst, r2: Ranking, t: TypeView)
    requires
        ranked(s, r),
        ranked(s2, r2),
        extends(s, s2),
    ensures
        apply(s2, r2, apply(s, r, t)) == apply(s2, r2, t),
    decreases term_rank(r, t), t,
{
    match t {
        TypeView::Named { type_arguments, .. } => {
            lemma_apply_extends_seq(s, r, s2, r2, type_arguments);
        },
        TypeView::Function { parameter_types, return_type } => {
            lemma_apply_extends_seq(s, r, s2, r2, parameter_types);
            lemma_apply_extends(s, r, s2, r2, *return_type);
        },
        TypeView::Tuple { element_types } => {
            lemma_apply_extends_seq(s, r, s2, r2, element_types);
        },
        TypeView::TypeVar { id } => {
            if s.contains_key(id) {
                assert(s2.contains_key(id));
                lemma_apply_extends(s, r, s2, r2, s[id]);
            }
        },
    }
}

proof fn lemma_apply_extends_seq(s: Subst, r: Ranking, s2: Subst, r2: Ranking, ts: Seq<TypeView>)
    requires
        ranked(s, r),
        ranked(s2, r2),
        extends(s, s2),
    ensures
        apply_seq(s2, r2, apply_seq(s, r, ts)) == apply_seq(s2, r2, ts),
    decreases seq_rank(r, ts), ts,
{
    if ts.len() > 0 {
        lemma_apply_extends_seq(s, r, s2, r2, ts.drop_last());
        lemma_apply_extends(s, r, s2, r2, ts.last());
        let inner = apply_seq(s, r, ts);
        assert(inner.drop_last() =~= apply_seq(s, r, ts.drop_last()));
    }
}

/// Types of one shape stay of one shape when a substitution is applied.
pub proof fn lemma_apply_shape(s: Subst, r: Ranking, x: TypeView, y: TypeView)
    requires
        ranked(s, r),
        shape(x) == shape(y),
    ensures
        shape(apply(s, r, x)) == shape(apply(s, r, y)),
    decreases x,
{
    match (x, y) {
        (TypeView::Named { type_arguments: xa, .. }, TypeView::Named { type_arguments: ya, .. }) => {
            lemma_apply_shape_seq(s, r, xa, ya);
        },
        (TypeView::Function { parameter_types: xp, return_type: xr }, TypeView::Function { parameter_types: yp, return_type: yr }) => {
            lemma_apply_shape_seq(s, r, xp, yp);
            lemma_apply_shape(s, r, *xr, *yr);
        },
        (TypeView::Tuple { element_types: xe }, TypeView::Tuple { element_types: ye }) => {
            lemma_apply_shape_seq(s, r, xe, ye);
        },
        _ => {},
    }
}

proof fn lemma_apply_shape_seq(s: Subst, r: Ranking, xs: Seq<TypeView>, ys: Seq<TypeView>)
    requires
        ranked(s, r),
        shapes(xs) == shapes(ys),
    ensures
        shapes(apply_seq(s, r, xs)) == shapes(apply_seq(s, r, ys)),
    decreases xs,
{
    lemma_shapes_index(xs);
    lemma_shapes_index(ys);
    if xs.len() > 0 {
        assert(shapes(xs.drop_last()) =~= shapes(xs).drop_last());
        assert(shapes(ys.drop_last()) =~= shapes(ys).drop_last());
        assert(shapes(xs)[xs.len() - 1] == shapes(ys)[ys.len() - 1]);
        lemma_apply_shape_seq(s, r, xs.drop_last(), ys.drop_last());
        lemma_apply_shape(s, r, xs.last(), ys.last());
        assert(apply_seq(s, r, xs).drop_last() =~= apply_seq(s, r, xs.drop_last()));
        assert(apply_seq(s, r, ys).drop_last() =~= apply_seq(s, r, ys.drop_last()));
    }
}

/// Shape equality under a substitution survives extending the substitution.
pub proof fn lemma_shape_eq_extends(s: Subst, r: Ranking, s2: Subst, r2: Ranking, x: TypeView, y: TypeView)
    requires
        ranked(s, r),
        ranked(s2, r2),
        extends(s, s2),
        shape(apply(s, r, x)) == shape(apply(s, r, y)),
    ensures
        shape(apply(s2, r2, x)) == shape(apply(s2, r2, y)),
{
    lemma_apply_extends(s, r, s2, r2, x);
    lemma_apply_extends(s, r, s2, r2, y);
    lemma_apply_shape(s2, r2, apply(s, r, x), apply(s, r, y));
}

/// Shapes of sequences agree when they agree element by element.
proof fn lemma_shapes_pointwise(xs: Seq<TypeView>, ys: Seq<TypeView>)
    requires
        xs.len() == ys.len(),
        forall|i: int| 0 <= i < xs.len() ==> #[trigger] shape(xs[i]) == shape(ys[i]),
    ensures
        shapes(xs) == shapes(ys),
{
    lemma_shapes_index(xs);
    lemma_shapes_index(ys);
    assert(shapes(xs) =~= shapes(ys));
}

/// Applying a larger substitution to a type is the same as applying it to
/// the type's chain resolution under a smaller one.
proof fn lemma_apply_extends_resolve(s: Subst, r: Ranking, s2: Subst, r2: Ranking, t: TypeView)
    requires
        ranked(s, r),
        ranked(s2, r2),
        extends(s, s2),
    ensures
        apply(s2, r2, t) == apply(s2, r2, resolve(s, r, t)),
{
    lemma_apply_resolve(s, r, t);
    lemma_apply_extends(s, r, s2, r2, t);
    lemma_apply_extends(s, r, s2, r2, resolve(s, r, t));
}

/// Sequences whose elements agree in shape once applied agree in shape as a whole.
proof fn lemma_apply_seq_shapes(s: Subst, r: Ranking, xs: Seq<TypeView>, ys: Seq<TypeView>)
    requires
        xs.len() == ys.len(),
        forall|k: int| 0 <= k < xs.len() ==> #[trigger] shape(apply(s, r, xs[k])) == shape(apply(s, r, ys[k])),
    ensures
        shapes(apply_seq(s, r, xs)) == shapes(apply_seq(s, r, ys)),
{
    lemma_apply_seq_index(s, r, xs);
    lemma_apply_seq_index(s, r, ys);
    assert forall|k: int| 0 <= k < apply_seq(s, r, xs).len() implies #[trigger] shape(apply_seq(s, r, xs)[k]) == shape(
        apply_seq(s, r, ys)[k],
    ) by {
        assert(shape(apply(s, r, xs[k])) == shape(apply(s, r, ys[k])));
    }
    lemma_shapes_pointwise(apply_seq(s, r, xs), apply_seq(s, r, ys));
}

/// Every element of a sequence that applies to a bounded size is smaller.
proof fn lemma_apply_seq_sizes(s: Subst, r: Ranking, ts: Seq<TypeView>, k: int)
    requires
        0 <= k < ts.len(),
    ensures
        size(apply(s, r, ts[k])) <= seq_size(apply_seq(s, r, ts)),
{
    lemma_apply_seq_index(s, r, ts);
    lemma_seq_size_index(apply_seq(s, r, ts), k);
}

/// The components of a type are below any bound the type is below.
pub proof fn lemma_vars_below_elem(ts: Seq<TypeView>, k: int, n: nat)
    requires
        0 <= k < ts.len(),
        forall|v: usize| var_in_seq(v, ts) ==> v < n,
    ensures
        vars_below(ts[k], n),
{
    assert forall|v: usize| var_in(v, ts[k]) implies v < n by {
        lemma_var_in_seq_elem(v, ts, k);
    }
}

/// A sequence whose elements are below a bound is below it.
proof fn lemma_vars_below_seq(ts: Seq<TypeView>, n: nat)
    requires
        forall|k: int| 0 <= k < ts.len() ==> vars_below(#[trigger] ts[k], n),
    ensures
        forall|v: usize| var_in_seq(v, ts) ==> v < n,
{
    assert forall|v: usize| var_in_seq(v, ts) implies v < n by {
        lemma_var_in_seq_index(v, ts);
        let k = choose|k: int| 0 <= k < ts.len() && #[trigger] var_in(v, ts[k]);
        assert(vars_below(ts[k], n));
    }
}

/// The ranking after binding `v`: every variable whose resolution reaches
/// `v` moves up by `k`.
pub open spec fn raised_ranking(s: Subst, r: Ranking, v: usize, k: nat) -> Ranking {
    Map::new(
        |x: usize| true,
        |x: usize| if var_in(v, apply(s, r, TypeView::TypeVar { id: x })) { rank_of(r, x) + k } else { rank_of(r, x) },
    )
}

proof fn lemma_rank_unchanged(s: Subst, r: Ranking, v: usize, k: nat, t: TypeView)
    requires
        !var_in(v, apply(s, r, t)),
    ensures
        term_rank(raised_ranking(s, r, v, k), t) == term_rank(r, t),
    decreases t,
{
    let r2 = raised_ranking(s, r, v, k);
    match t {
        TypeView::Named { type_arguments, .. } => {
            lemma_rank_unchanged_seq(s, r, v, k, type_arguments);
        },
        TypeView::Function { parameter_types, return_type } => {
            lemma_rank_unchanged_seq(s, r, v, k, parameter_types);
            lemma_rank_unchanged(s, r, v, k, *return_type);
        },
        TypeView::Tuple { element_types } => {
            lemma_rank_unchanged_seq(s, r, v, k, element_types);
        },
        TypeView::TypeVar { id } => {
            assert(r2.contains_key(id));
        },
    }
}

proof fn lemma_rank_unchanged_seq(s: Subst, r: Ranking, v: usize, k: nat, ts: Seq<TypeView>)
    requires
        !var_in_seq(v, apply_seq(s, r, ts)),
    ensures
        seq_rank(raised_ranking(s, r, v, k), ts) == seq_rank(r, ts),
    decreases ts,
{
    if ts.len() > 0 {
        assert(apply_seq(s, r, ts).drop_last() =~= apply_seq(s, r, ts.drop_last()));
        lemma_rank_unchanged_seq(s, r, v, k, ts.drop_last());
        lemma_rank_unchanged(s, r, v, k, ts.last());
    }
}

proof fn lemma_rank_bounded(r: Ranking, r2: Ranking, k: nat, t: TypeView)
    requires
        forall|y: usize| #[trigger] rank_of(r2, y) <= rank_of(r, y) + k,
    ensures
        term_rank(r2, t) <= term_rank(r, t) + k,
    decreases t,
{
    match t {
        TypeView::Named { type_arguments, .. } => {
            lemma_rank_bounded_seq(r, r2, k, type_arguments);
        },
        TypeView::Function { parameter_types, return_type } => {
            lemma_rank_bounded_seq(r, r2, k, parameter_types);
            lemma_rank_bounded(r, r2, k, *return_type);
        },
        TypeView::Tuple { element_types } => {
            lemma_rank_bounded_seq(r, r2, k, element_types);
        },
        TypeView::TypeVar { id } => {
            assert(rank_of(r2, id) <= rank_of(r, id) + k);
        },
    }
}

proof fn lemma_rank_bounded_seq(r: Ranking, r2: Ranking, k: nat, ts: Seq<TypeView>)
    requires
        forall|y: usize| #[trigger] rank_of(r2, y) <= rank_of(r, y) + k,
    ensures
        seq_rank(r2, ts) <= seq_rank(r, ts) + k,
    decreases ts,
{
    if ts.len() > 0 {
        lemma_rank_bounded_seq(r, r2, k, ts.drop_last());
        lemma_rank_bounded(r, r2, k, ts.last());
    }
}

/// Binding an unbound variable to a type in which, fully applied, it does
/// not occur keeps the substitution acyclic.
pub proof fn lemma_bind_ranked(s: Subst, r: Ranking, v: usize, tv: TypeView)
    requires
        ranked(s, r),
        !s.contains_key(v),
        !var_in(v, apply(s, r, tv)),
    ensures
        ranked(s.insert(v, tv), raised_ranking(s, r, v, term_rank(r, tv))),
{
    let k = term_rank(r, tv);
    let r2 = raised_ranking(s, r, v, k);
    let s2 = s.insert(v, tv);
    assert forall|y: usize| #[trigger] rank_of(r2, y) <= rank_of(r, y) + k by {
        assert(r2.contains_key(y));
    }
    assert forall|id: usize| #[trigger] s2.contains_key(id) implies term_rank(r2, s2[id]) <= rank_of(r2, id) by {
        assert(r2.contains_key(id));
        if id == v {
            lemma_rank_unchanged(s, r, v, k, tv);
            assert(!bound(s, r, v));
            assert(apply(s, r, TypeView::TypeVar { id: v }) == TypeView::TypeVar { id: v });
        } else {
            assert(s.contains_key(id));
            assert(bound(s, r, id));
            assert(apply(s, r, TypeView::TypeVar { id }) == apply(s, r, s[id]));
            if var_in(v, apply(s, r, TypeView::TypeVar { id })) {
                lemma_rank_bounded(r, r2, k, s[id]);
            } else {
                lemma_rank_unchanged(s, r, v, k, s[id]);
            }
        }
    }
}

/// Chain resolution keeps variables below a bound that covers the substitution.
proof fn lemma_resolve_vars_below(s: Subst, r: Ranking, t: TypeView, n: nat)
    requires
        vars_below(t, n),
        forall|id: usize| #[trigger] s.contains_key(id) ==> vars_below(s[id], n),
    ensures
        vars_below(resolve(s, r, t), n),
    decreases term_rank(r, t),
{
    if let TypeView::TypeVar { id } = t {
        if bound(s, r, id) {
            lemma_resolve_vars_below(s, r, s[id], n);
        }
    }
}

/// Applying a substitution keeps variables below a bound that covers the
/// substitution.
pub proof fn lemma_apply_vars_below(s: Subst, r: Ranking, t: TypeView, n: nat)
    requires
        vars_below(t, n),
        forall|id: usize| #[trigger] s.contains_key(id) ==> vars_below(s[id], n),
    ensures
        vars_below(apply(s, r, t), n),
    decreases term_rank(r, t), t,
{
    match t {
        TypeView::Named { identifier, type_parameters, type_arguments, enum_variants, struct_fields } => {
            assert forall|v: usize| var_in_seq(v, type_arguments) implies v < n by {
                assert(var_in(v, t));
            }
            lemma_apply_seq_vars_below(s, r, type_arguments, n);
            let a = TypeView::Named {
                identifier,
                type_parameters,
                type_arguments: apply_seq(s, r, type_arguments),
                enum_variants,
                struct_fields,
            };
            assert(apply(s, r, t) == a);
            assert forall|v: usize| var_in(v, a) implies v < n by {
                assert(var_in_seq(v, apply_seq(s, r, type_arguments)));
            }
        },
        TypeView::Function { parameter_types, return_type } => {
            assert forall|v: usize| var_in_seq(v, parameter_types) implies v < n by {
                assert(var_in(v, t));
            }
            lemma_apply_seq_vars_below(s, r, parameter_types, n);
            assert forall|v: usize| var_in(v, *return_type) implies v < n by {
                assert(var_in(v, t));
            }
            lemma_apply_vars_below(s, r, *return_type, n);
            assert forall|v: usize| var_in(v, apply(s, r, t)) implies v < n by {
                if !var_in_seq(v, apply_seq(s, r, parameter_types)) {
                    assert(var_in(v, apply(s, r, *return_type)));
                }
            }
        },
        TypeView::Tuple { element_types } => {
            assert forall|v: usize| var_in_seq(v, element_types) implies v < n by {
                assert(var_in(v, t));
            }
            lemma_apply_seq_vars_below(s, r, element_types, n);
            assert forall|v: usize| var_in(v, apply(s, r, t)) implies v < n by {
                assert(var_in_seq(v, apply_seq(s, r, element_types)));
            }
        },
        TypeView::TypeVar { id } => {
            if bound(s, r, id) {
                lemma_apply_vars_below(s, r, s[id], n);
            }
        },
    }
}

proof fn lemma_apply_seq_vars_below(s: Subst, r: Ranking, ts: Seq<TypeView>, n: nat)
    requires
        forall|v: usize| var_in_seq(v, ts) ==> v < n,
        forall|id: usize| #[trigger] s.contains_key(id) ==> vars_below(s[id], n),
    ensures
        forall|v: usize| var_in_seq(v, apply_seq(s, r, ts)) ==> v < n,
    decreases seq_rank(r, ts), ts,
{
    if ts.len() > 0 {
        assert forall|v: usize| var_in_seq(v, ts.drop_last()) implies v < n by {
            assert(var_in_seq(v, ts));
        }
        assert forall|v: usize| var_in(v, ts.last()) implies v < n by {
            assert(var_in_seq(v, ts));
        }
        lemma_seq_rank_index(r, ts, ts.len() - 1);
        lemma_apply_seq_vars_below(s, r, ts.drop_last(), n);
        lemma_apply_vars_below(s, r, ts.last(), n);
        let a = apply_seq(s, r, ts);
        assert(a.drop_last() =~= apply_seq(s, r, ts.drop_last()));
        assert(a.last() == apply(s, r, ts.last()));
        assert forall|v: usize| var_in_seq(v, a) implies v < n by {
            if !var_in_seq(v, a.drop_last()) {
                assert(var_in(v, a.last()));
            }
        }
    }
}

/// No variable left in an applied type is bound.
pub proof fn lemma_apply_unbound(s: Subst, r: Ranking, t: TypeView)
    ensures
        forall|v: usize| #[trigger] var_in(v, apply(s, r, t)) ==> !bound(s, r, v),
    decreases term_rank(r, t), t,
{
    match t {
        TypeView::Named { type_arguments, .. } => {
            lemma_apply_seq_unbound(s, r, type_arguments);
            assert forall|v: usize| #[trigger] var_in(v, apply(s, r, t)) implies !bound(s, r, v) by {
                assert(var_in_seq(v, apply_seq(s, r, type_arguments)));
            }
        },
        TypeView::Function { parameter_types, return_type } => {
            lemma_apply_seq_unbound(s, r, parameter_types);
            lemma_apply_vars_rank(r, t, *return_type);
            lemma_apply_unbound(s, r, *return_type);
            assert forall|v: usize| #[trigger] var_in(v, apply(s, r, t)) implies !bound(s, r, v) by {
                if !var_in_seq(v, apply_seq(s, r, parameter_types)) {
                    assert(var_in(v, apply(s, r, *return_type)));
                }
            }
        },
        TypeView::Tuple { element_types } => {
            lemma_apply_seq_unbound(s, r, element_types);
            assert forall|v: usize| #[trigger] var_in(v, apply(s, r, t)) implies !bound(s, r, v) by {
                assert(var_in_seq(v, apply_seq(s, r, element_types)));
            }
        },
        TypeView::TypeVar { id } => {
            if bound(s, r, id) {
                lemma_apply_unbound(s, r, s[id]);
            }
        },
    }
}

proof fn lemma_apply_vars_rank(r: Ranking, t: TypeView, ret: TypeView)
    requires
        t matches TypeView::Function { return_type, .. } && *return_type == ret,
    ensures
        term_rank(r, ret) <= term_rank(r, t),
{
}

proof fn lemma_apply_seq_unbound(s: Subst, r: Ranking, ts: Seq<TypeView>)
    ensures
        forall|v: usize| #[trigger] var_in_seq(v, apply_seq(s, r, ts)) ==> !bound(s, r, v),
    decreases seq_rank(r, ts), ts,
{
    if ts.len() > 0 {
        lemma_seq_rank_index(r, ts, ts.len() - 1);
        lemma_apply_seq_unbound(s, r, ts.drop_last());
        lemma_apply_unbound(s, r, ts.last());
        let a = apply_seq(s, r, ts);
        assert(a.drop_last() =~= apply_seq(s, r, ts.drop_last()));
        assert(a.last() == apply(s, r, ts.last()));
        assert forall|v: usize| #[trigger] var_in_seq(v, a) implies !bound(s, r, v) by {
            if !var_in_seq(v, a.drop_last()) {
                assert(var_in(v, a.last()));
            }
        }
    }
}

/// Applying a substitution changes nothing in a type none of whose
/// variables is bound.
pub proof fn lemma_apply_identity(s: Subst, r: Ranking, t: TypeView)
    requires
        forall|v: usize| #[trigger] var_in(v, t) ==> !bound(s, r, v),
    ensures
        apply(s, r, t) == t,
    decreases t,
{
    match t {
        TypeView::Named { type_arguments, .. } => {
            assert forall|v: usize| #[trigger] var_in_seq(v, type_arguments) implies !bound(s, r, v) by {
                assert(var_in(v, t));
            }
            lemma_apply_seq_identity(s, r, type_arguments);
        },
        TypeView::Function { parameter_types, return_type } => {
            assert forall|v: usize| #[trigger] var_in_seq(v, parameter_types) implies !bound(s, r, v) by {
                assert(var_in(v, t));
            }
            assert forall|v: usize| #[trigger] var_in(v, *return_type) implies !bound(s, r, v) by {
                assert(var_in(v, t));
            }
            lemma_apply_seq_identity(s, r, parameter_types);
            lemma_apply_identity(s, r, *return_type);
        },
        TypeView::Tuple { element_types } => {
            assert forall|v: usize| #[trigger] var_in_seq(v, element_types) implies !bound(s, r, v) by {
                assert(var_in(v, t));
            }
            lemma_apply_seq_identity(s, r, element_types);
        },
        TypeView::TypeVar { id } => {
            assert(var_in(id, t));
        },
    }
}

proof fn lemma_apply_seq_identity(s: Subst, r: Ranking, ts: Seq<TypeView>)
    requires
        forall|v: usize| #[trigger] var_in_seq(v, ts) ==> !bound(s, r, v),
    ensures
        apply_seq(s, r, ts) == ts,
    decreases ts,
{
    if ts.len() > 0 {
        assert forall|v: usize| #[trigger] var_in_seq(v, ts.drop_last()) implies !bound(s, r, v) by {
            assert(var_in_seq(v, ts));
        }
        assert forall|v: usize| #[trigger] var_in(v, ts.last()) implies !bound(s, r, v) by {
            assert(var_in_seq(v, ts));
        }
        lemma_apply_seq_identity(s, r, ts.drop_last());
        lemma_apply_identity(s, r, ts.last());
        assert(apply_seq(s, r, ts) =~= ts);
    }
}

/// Generates fresh type variables and records what they are bound to.
pub struct Unifier {
    next_type_var_id: usize,
    substitutions: HashMap<usize, TypeExpr>,
    rank: Ghost<Ranking>,
}

impl Unifier {
    /// What each bound type variable stands for.
    pub closed spec fn subst(&self) -> Subst {
        self.substitutions@.map_values(|t: TypeExpr| t@)
    }

    /// The ranking that shows the substitution acyclic.
    pub closed spec fn ranking(&self) -> Ranking {
        self.rank@
    }

    /// The id the next fresh type variable gets.
    pub closed spec fn next_id(&self) -> nat {
        self.next_type_var_id as nat
    }

    /// `t` with the current substitution applied throughout.
    pub open spec fn resolved(&self, t: TypeView) -> TypeView {
        apply(self.subst(), self.ranking(), t)
    }

    /// The substitution is acyclic and mentions only variables already issued.
    pub closed spec fn wf(&self) -> bool {
        &&& self.subst().dom().finite()
        &&& ranked(self.subst(), self.rank@)
        &&& forall|id: usize| #[trigger] self.subst().contains_key(id) ==> id < self.next_type_var_id && vars_below(
            self.subst()[id],
            self.next_type_var_id as nat,
        )
    }

    /// Resolving a type below the next id gives a type below it.
    pub proof fn lemma_resolved_below(&self, t: TypeView)
        requires
            self.wf(),
            vars_below(t, self.next_id()),
        ensures
            vars_below(self.resolved(t), self.next_id()),
    {
        lemma_apply_vars_below(self.subst(), self.ranking(), t, self.next_id());
    }

    /// Applying the substitution to a type it has already been applied to
    /// changes nothing.
    pub proof fn law_apply_idempotent(&self, t: TypeView)
        ensures
            self.resolved(self.resolved(t)) == self.resolved(t),
    {
        lemma_apply_unbound(self.subst(), self.ranking(), t);
        lemma_apply_identity(self.subst(), self.ranking(), self.resolved(t));
    }

    /// A unifier with no type variables issued and none bound.
    pub fn new() -> (u: Self)
        ensures
            u.wf(),
            u.next_id() == 0,
            u.subst() == Map::<usize, TypeView>::empty(),
    {
        let u = Self { next_type_var_id: 0, substitutions: HashMap::new(), rank: Ghost(Map::empty()) };
        proof {
            assert(u.subst() =~= Map::<usize, TypeView>::empty());
            assert(u.subst().dom() =~= Set::<usize>::empty());
        }
        u
    }

    /// A fresh, unbound type variable.
    pub fn new_type_var(&mut self) -> (t: TypeExpr)
        requires
            old(self).wf(),
            old(self).next_id() < usize::MAX,
        ensures
            final(self).wf(),
            t@ == (TypeView::TypeVar { id: old(self).next_id() as usize }),
            !old(self).subst().contains_key(old(self).next_id() as usize),
            final(self).next_id() == old(self).next_id() + 1,
            final(self).subst() == old(self).subst(),
            final(self).ranking() == old(self).ranking(),
    {
        let id = self.next_type_var_id;
        self.next_type_var_id = self.next_type_var_id + 1;
        TypeExpr::TypeVar { id }
    }

    /// The id the next fresh type variable gets.
    pub fn issued(&self) -> (n: usize)
        ensures
            n == self.next_id(),
    {
        self.next_type_var_id
    }

    /// Keeps the ids below `n` from being issued as fresh type variables.
    pub fn reserve(&mut self, n: usize)
        requires
            old(self).wf(),
        ensures
            final(self).wf(),
            final(self).next_id() == if old(self).next_id() < n {
                n as nat
            } else {
                old(self).next_id()
            },
            final(self).subst() == old(self).subst(),
            final(self).ranking() == old(self).ranking(),
    {
        if self.next_type_var_id < n {
            self.next_type_var_id = n;
        }
    }

    /// `t` with the current substitution applied throughout.
    pub fn apply_substitutions(&self, t: &TypeExpr) -> (r: TypeExpr)
        requires
            self.wf(),
        ensures
            r@ == self.resolved(t@),
        decreases term_rank(self.ranking(), t@), t,
    {
        match t {
            TypeExpr::Named { identifier, type_parameters, type_arguments, enum_variants, struct_fields } => {
                let t2 = copy_type(t);
                match t2 {
                    TypeExpr::Named { identifier, type_parameters, type_arguments: _, enum_variants, struct_fields } => {
                        TypeExpr::Named {
                            identifier,
                            type_parameters,
                            type_arguments: self.apply_all(type_arguments),
                            enum_variants,
                            struct_fields,
                        }
                    },
                    _ => {
                        proof {
                            assert(false);
                        }
                        t2
                    },
                }
            },
            TypeExpr::Function { parameter_types, return_type } => {
                TypeExpr::Function {
                    parameter_types: self.apply_all(parameter_types),
                    return_type: Box::new(self.apply_substitutions(return_type)),
                }
            },
            TypeExpr::Tuple { element_types } => TypeExpr::Tuple { element_types: self.apply_all(element_types) },
            TypeExpr::TypeVar { id } => {
                match self.substitutions.get(id) {
                    Some(substitution) => {
                        proof {
                            assert(self.subst().contains_key(*id));
                        }
                        self.apply_substitutions(substitution)
                    },
                    None => TypeExpr::TypeVar { id: *id },
                }
            },
        }
    }

    /// Each of `ts` with the current substitution applied throughout.
    fn apply_all(&self, ts: &Vec<TypeExpr>) -> (r: Vec<TypeExpr>)
        requires
            self.wf(),
        ensures
            types_view(r@) == apply_seq(self.subst(), self.rank@, types_view(ts@)),
        decreases seq_rank(self.ranking(), types_view(ts@)), ts,
    {
        let mut r: Vec<TypeExpr> = Vec::new();
        let mut i: usize = 0;
        proof {
            lemma_types_view_index(ts@);
        }
        while i < ts.len()
            invariant
                self.wf(),
                i <= ts@.len(),
                types_view(ts@).len() == ts@.len(),
                forall|k: int| 0 <= k < ts@.len() ==> #[trigger] types_view(ts@)[k] == type_view(ts@[k]),
                types_view(r@) == apply_seq(self.subst(), self.rank@, types_view(ts@).take(i as int)),
            decreases ts@.len() - i,
        {
            proof {
                lemma_seq_rank_index(self.rank@, types_view(ts@), i as int);
            }
            let t = self.apply_substitutions(&ts[i]);
            let ghost before = r@;
            r.push(t);
            proof {
                assert(r@.drop_last() =~= before);
                assert(types_view(ts@).take(i + 1).drop_last() =~= types_view(ts@).take(i as int));
            }
            i = i + 1;
        }
        proof {
            assert(types_view(ts@).take(i as int) =~= types_view(ts@));
        }
        r
    }
    /// `t` with the chain of bound type variables at its top followed to its end.
    fn resolve_type_var_chains(&self, t: &TypeExpr) -> (r: TypeExpr)
        requires
            self.wf(),
        ensures
            r@ == resolve(self.subst(), self.ranking(), t@),
        decreases term_rank(self.ranking(), t@),
    {
        match t {
            TypeExpr::TypeVar { id } => {
                match self.substitutions.get(id) {
                    Some(substitution) => {
                        proof {
                            assert(self.subst().contains_key(*id));
                        }
                        self.resolve_type_var_chains(substitution)
                    },
                    None => TypeExpr::TypeVar { id: *id },
                }
            },
            _ => copy_type(t),
        }
    }

    /// Whether type variable `v` occurs in `t` once the substitution is applied.
    fn type_var_occurs_in_type(&self, v: usize, t: &TypeExpr) -> (b: bool)
        requires
            self.wf(),
        ensures
            b == var_in(v, self.resolved(t@)),
        decreases term_rank(self.ranking(), t@), t,
    {
        match t {
            TypeExpr::Named { type_arguments, .. } => self.occurs_in_any(v, type_arguments),
            TypeExpr::Function { parameter_types, return_type } => {
                self.occurs_in_any(v, parameter_types) || self.type_var_occurs_in_type(v, return_type)
            },
            TypeExpr::Tuple { element_types } => self.occurs_in_any(v, element_types),
            TypeExpr::TypeVar { id } => {
                match self.substitutions.get(id) {
                    Some(substitution) => {
                        proof {
                            assert(self.subst().contains_key(*id));
                        }
                        self.type_var_occurs_in_type(v, substitution)
                    },
                    None => *id == v,
                }
            },
        }
    }

    fn occurs_in_any(&self, v: usize, ts: &Vec<TypeExpr>) -> (b: bool)
        requires
            self.wf(),
        ensures
            b == var_in_seq(v, apply_seq(self.subst(), self.ranking(), types_view(ts@))),
        decreases seq_rank(self.ranking(), types_view(ts@)), ts,
    {
        let ghost s = self.subst();
        let ghost r = self.ranking();
        let ghost vs = types_view(ts@);
        proof {
            lemma_types_view_index(ts@);
            lemma_apply_seq_index(s, r, vs);
            lemma_var_in_seq_index(v, apply_seq(s, r, vs));
        }
        let mut i: usize = 0;
        while i < ts.len()
            invariant
                self.wf(),
                s == self.subst(),
                r == self.ranking(),
                vs == types_view(ts@),
                i <= ts@.len(),
                vs.len() == ts@.len(),
                forall|k: int| 0 <= k < ts@.len() ==> #[trigger] vs[k] == type_view(ts@[k]),
                apply_seq(s, r, vs).len() == vs.len(),
                forall|k: int| 0 <= k < vs.len() ==> #[trigger] apply_seq(s, r, vs)[k] == apply(s, r, vs[k]),
                forall|k: int| 0 <= k < i ==> !var_in(v, #[trigger] apply_seq(s, r, vs)[k]),
            decreases ts@.len() - i,
        {
            proof {
                lemma_seq_rank_index(r, vs, i as int);
            }
            if self.type_var_occurs_in_type(v, &ts[i]) {
                proof {
                    assert(var_in(v, apply_seq(s, r, vs)[i as int]));
                    lemma_var_in_seq_index(v, apply_seq(s, r, vs));
                }
                return true;
            }
            i = i + 1;
        }
        proof {
            lemma_var_in_seq_index(v, apply_seq(s, r, vs));
        }
        false
    }

    /// Binds unbound variable `v` to `t`, unless `t` resolves to `v` itself
    /// (nothing to do) or `v` occurs in it (an infinite type).
    fn bind_type_var_to_type(&mut self, v: usize, t: &TypeExpr) -> (res: Result<TypeExpr, UnifyError>)
        requires
            old(self).wf(),
            !old(self).subst().contains_key(v),
            v < old(self).next_id(),
            vars_below(t@, old(self).next_id()),
        ensures
            final(self).wf(),
            final(self).next_id() == old(self).next_id(),
            ({
                let s = old(self).subst();
                let rt = resolve(s, old(self).ranking(), t@);
                if rt == (TypeView::TypeVar { id: v }) {
                    &&& res matches Ok(r) && r@ == rt
                    &&& final(self).subst() == s
                    &&& final(self).ranking() == old(self).ranking()
                } else if var_in(v, old(self).resolved(rt)) {
                    &&& res matches Err(UnifyError::InfiniteType { type_var_id, type_expr })
                        && type_var_id == v && type_expr@ == rt
                    &&& final(self).subst() == s
                    &&& final(self).ranking() == old(self).ranking()
                } else {
                    &&& res matches Ok(r) && r@ == rt
                    &&& final(self).subst() == s.insert(v, rt)
                }
            }),
    {
        let resolved_type = self.resolve_type_var_chains(t);
        proof {
            lemma_resolve_vars_below(self.subst(), self.ranking(), t@, self.next_id());
        }
        if let TypeExpr::TypeVar { id } = resolved_type {
            if id == v {
                return Ok(TypeExpr::TypeVar { id });
            }
        }
        if self.type_var_occurs_in_type(v, &resolved_type) {
            return Err(UnifyError::InfiniteType { type_var_id: v, type_expr: resolved_type });
        }
        let ghost s = self.subst();
        let ghost r = self.ranking();
        let stored = copy_type(&resolved_type);
        self.substitutions.insert(v, stored);
        proof {
            lemma_bind_ranked(s, r, v, resolved_type@);
            self.rank = Ghost(raised_ranking(s, r, v, term_rank(r, resolved_type@)));
            assert(self.subst() =~= s.insert(v, resolved_type@));
            assert(self.subst().dom() =~= s.dom().insert(v));
        }
        Ok(resolved_type)
    }
    /// Whether the heads of two resolved types, neither a type variable, match.
    fn heads_match(a: &TypeExpr, b: &TypeExpr) -> (m: bool)
        requires
            !(a@ is TypeVar),
            !(b@ is TypeVar),
        ensures
            m == !heads_clash(a@, b@),
    {
        match (a, b) {
            (TypeExpr::Named { identifier: ia, type_arguments: xa, .. }, TypeExpr::Named { identifier: ib, type_arguments: xb, .. }) => {
                proof {
                    lemma_types_view_index(xa@);
                    lemma_types_view_index(xb@);
                }
                ia.lexeme == ib.lexeme && xa.len() == xb.len()
            },
            (TypeExpr::Function { parameter_types: pa, .. }, TypeExpr::Function { parameter_types: pb, .. }) => {
                proof {
                    lemma_types_view_index(pa@);
                    lemma_types_view_index(pb@);
                }
                pa.len() == pb.len()
            },
            (TypeExpr::Tuple { element_types: ea }, TypeExpr::Tuple { element_types: eb }) => {
                proof {
                    lemma_types_view_index(ea@);
                    lemma_types_view_index(eb@);
                }
                ea.len() == eb.len()
            },
            _ => false,
        }
    }

    /// Makes `a` and `b` the same type by binding type variables.  On
    /// success the two types, and the type returned, have one shape once the
    /// substitution is applied.  Bindings made before a failure are kept.
    fn unify(&mut self, a: &TypeExpr, b: &TypeExpr) -> (res: Result<TypeExpr, UnifyError>)
        requires
            old(self).wf(),
            vars_below(a@, old(self).next_id()),
            vars_below(b@, old(self).next_id()),
        ensures
            final(self).wf(),
            final(self).next_id() == old(self).next_id(),
            extends(old(self).subst(), final(self).subst()),
            (final(self).subst() == old(self).subst() && final(self).ranking() == old(self).ranking())
                || final(self).subst().dom().len() > old(self).subst().dom().len(),
            ground(a@) && shape(a@) == shape(b@) ==> res is Ok && final(self).subst() == old(self).subst() && final(self).ranking()
                == old(self).ranking(),
            ground(a@) && shape(a@) == shape(b@) ==> (res matches Ok(t) && t@ == a@),
            variable_argument_against_ground(old(self).subst(), old(self).ranking(), a@, b@) ==> res is Ok,
            resolve(old(self).subst(), old(self).ranking(), a@) matches TypeView::TypeVar { id } ==> var_unify_outcome(
                *old(self),
                *final(self),
                id,
                resolve(old(self).subst(), old(self).ranking(), b@),
                res,
            ),
            !(resolve(old(self).subst(), old(self).ranking(), a@) is TypeVar) ==> (resolve(
                old(self).subst(),
                old(self).ranking(),
                b@,
            ) matches TypeView::TypeVar { id } ==> var_unify_outcome(
                *old(self),
                *final(self),
                id,
                resolve(old(self).subst(), old(self).ranking(), a@),
                res,
            )),
            res matches Ok(t) ==> {
                &&& shape(final(self).resolved(a@)) == shape(final(self).resolved(b@))
                &&& shape(final(self).resolved(t@)) == shape(final(self).resolved(a@))
                &&& vars_below(t@, old(self).next_id())
            },
            res matches Err(UnifyError::MismatchedTypes { expected, found }) ==> heads_clash(expected@, found@),
            res matches Err(UnifyError::InfiniteType { type_var_id, type_expr }) ==> {
                &&& type_expr@ != (TypeView::TypeVar { id: type_var_id })
                &&& var_in(type_var_id, final(self).resolved(type_expr@))
            },
            heads_clash(resolve(old(self).subst(), old(self).ranking(), a@), resolve(old(self).subst(), old(self).ranking(), b@))
                ==> (res matches Err(UnifyError::MismatchedTypes { expected, found })
                    && expected@ == resolve(old(self).subst(), old(self).ranking(), a@)
                    && found@ == resolve(old(self).subst(), old(self).ranking(), b@)),
        decreases
            self.next_id() - self.subst().dom().len(),
            size(self.resolved(a@)) + size(self.resolved(b@)),
    {
        let ghost s0 = self.subst();
        let ghost r0 = self.ranking();
        let ghost n = self.next_id();
        let type_a = self.resolve_type_var_chains(a);
        let type_b = self.resolve_type_var_chains(b);
        proof {
            lemma_resolve_rank(s0, r0, a@);
            lemma_resolve_rank(s0, r0, b@);
            lemma_resolve_vars_below(s0, r0, a@, n);
            lemma_resolve_vars_below(s0, r0, b@, n);
            lemma_apply_resolve(s0, r0, a@);
            lemma_apply_resolve(s0, r0, b@);
            if ground(a@) && shape(a@) == shape(b@) {
                if let TypeView::TypeVar { id } = a@ {
                    assert(var_in(id, a@));
                }
                assert(!(b@ is TypeVar));
                assert(type_a@ == a@);
                assert(type_b@ == b@);
                match (a@, b@) {
                    (TypeView::Named { type_arguments: xa, .. }, TypeView::Named { type_arguments: xb, .. }) => {
                        lemma_shapes_index(xa);
                        lemma_shapes_index(xb);
                    },
                    (TypeView::Function { parameter_types: pa, .. }, TypeView::Function { parameter_types: pb, .. }) => {
                        lemma_shapes_index(pa);
                        lemma_shapes_index(pb);
                    },
                    (TypeView::Tuple { element_types: ea }, TypeView::Tuple { element_types: eb }) => {
                        lemma_shapes_index(ea);
                        lemma_shapes_index(eb);
                    },
                    _ => {},
                }
                assert(!heads_clash(a@, b@));
            }
        }
        if let TypeExpr::TypeVar { id } = &type_a {
            let id = *id;
            assert(var_in(id, type_a@));
            let res = self.bind_type_var_to_type(id, &type_b);
            proof {
                let s1 = self.subst();
                let r1 = self.ranking();
                if s1 != s0 {
                    assert(s1 == s0.insert(id, type_b@));
                    assert(s1.dom() =~= s0.dom().insert(id));
                    lemma_apply_extends_resolve(s0, r0, s1, r1, a@);
                    lemma_apply_extends_resolve(s0, r0, s1, r1, b@);
                    assert(s1.contains_key(id));
                    assert(bound(s1, r1, id));
                }
            }
            return res;
        }
        if let TypeExpr::TypeVar { id } = &type_b {
            let id = *id;
            assert(var_in(id, type_b@));
            let res = self.bind_type_var_to_type(id, &type_a);
            proof {
                let s1 = self.subst();
                let r1 = self.ranking();
                if s1 != s0 {
                    assert(s1 == s0.insert(id, type_a@));
                    assert(s1.dom() =~= s0.dom().insert(id));
                    lemma_apply_extends_resolve(s0, r0, s1, r1, a@);
                    lemma_apply_extends_resolve(s0, r0, s1, r1, b@);
                    assert(s1.contains_key(id));
                    assert(bound(s1, r1, id));
                }
            }
            return res;
        }
        if !Self::heads_match(&type_a, &type_b) {
            return Err(UnifyError::MismatchedTypes { expected: type_a, found: type_b });
        }
        proof {
            lemma_ids_below_len(s0.dom(), n);
        }
        let ghost ta = type_a@;
        let ghost tb = type_b@;
        match type_a {
            TypeExpr::Named { identifier, type_parameters, type_arguments: xa, enum_variants, struct_fields } => {
                let xb = match &type_b {
                    TypeExpr::Named { type_arguments, .. } => type_arguments,
                    _ => {
                        proof {
                            assert(false);
                        }
                        return Err(UnifyError::MismatchedTypes { expected: copy_type(&type_b), found: copy_type(&type_b) });
                    },
                };
                proof {
                    lemma_types_view_index(xa@);
                    lemma_types_view_index(xb@);
                    assert forall|v: usize| var_in_seq(v, types_view(xa@)) implies v < n by {
                        assert(var_in(v, ta));
                    }
                    if ground(a@) && shape(a@) == shape(b@) {
                        assert(shapes(types_view(xa@)) == shapes(types_view(xb@)));
                        assert forall|v: usize| !#[trigger] var_in_seq(v, types_view(xa@)) by {
                            if var_in_seq(v, types_view(xa@)) {
                                assert(var_in(v, ta));
                            }
                        }
                    }
                    assert forall|v: usize| var_in_seq(v, types_view(xb@)) implies v < n by {
                        assert(var_in(v, tb));
                    }
                }
                let unified = match self.unify_all(&xa, xb) {
                    Ok(u) => u,
                    Err(e) => {
                        return Err(e);
                    },
                };
                let result = TypeExpr::Named { identifier, type_parameters, type_arguments: unified, enum_variants, struct_fields };
                proof {
                    let s1 = self.subst();
                    let r1 = self.ranking();
                    lemma_apply_extends_resolve(s0, r0, s1, r1, a@);
                    lemma_apply_extends_resolve(s0, r0, s1, r1, b@);
                    lemma_types_view_index(unified@);
                    lemma_apply_seq_shapes(s1, r1, types_view(xa@), types_view(xb@));
                    lemma_apply_seq_shapes(s1, r1, types_view(unified@), types_view(xa@));
                    lemma_vars_below_seq(types_view(unified@), n);
                    assert(shape(apply(s1, r1, a@)) == shape(apply(s1, r1, b@)));
                    assert(shape(apply(s1, r1, result@)) == shape(apply(s1, r1, a@)));
                    assert forall|v: usize| var_in(v, result@) implies v < n by {
                        assert(var_in_seq(v, types_view(unified@)));
                    }
                }
                Ok(result)
            },
            TypeExpr::Function { parameter_types: pa, return_type: ra } => {
                let (pb, rb) = match &type_b {
                    TypeExpr::Function { parameter_types, return_type } => (parameter_types, return_type),
                    _ => {
                        proof {
                            assert(false);
                        }
                        return Err(UnifyError::MismatchedTypes { expected: copy_type(&type_b), found: copy_type(&type_b) });
                    },
                };
                proof {
                    lemma_types_view_index(pa@);
                    lemma_types_view_index(pb@);
                    assert forall|v: usize| var_in_seq(v, types_view(pa@)) implies v < n by {
                        assert(var_in(v, ta));
                    }
                    if ground(a@) && shape(a@) == shape(b@) {
                        assert(shapes(types_view(pa@)) == shapes(types_view(pb@)));
                        assert forall|v: usize| !#[trigger] var_in_seq(v, types_view(pa@)) by {
                            if var_in_seq(v, types_view(pa@)) {
                                assert(var_in(v, ta));
                            }
                        }
                    }
                    assert forall|v: usize| var_in_seq(v, types_view(pb@)) implies v < n by {
                        assert(var_in(v, tb));
                    }
                }
                let unified_parameters = match self.unify_all(&pa, pb) {
                    Ok(u) => u,
                    Err(e) => {
                        return Err(e);
                    },
                };
                let ghost s1 = self.subst();
                let ghost r1 = self.ranking();
                proof {
                    lemma_ids_below_len(s1.dom(), n);
                }
                proof {
                    assert forall|v: usize| var_in(v, ra@) implies v < n by {
                        assert(var_in(v, ta));
                    }
                    assert forall|v: usize| var_in(v, rb@) implies v < n by {
                        assert(var_in(v, tb));
                    }
                    if ground(a@) && shape(a@) == shape(b@) {
                        assert(shape(ra@) == shape(rb@));
                        assert forall|v: usize| !#[trigger] var_in(v, ra@) by {
                            if var_in(v, ra@) {
                                assert(var_in(v, ta));
                            }
                        }
                    }
                }
                let unified_return = match self.unify(&ra, rb) {
                    Ok(u) => u,
                    Err(e) => {
                        return Err(e);
                    },
                };
                let result = TypeExpr::Function { parameter_types: unified_parameters, return_type: Box::new(unified_return) };
                proof {
                    let s2 = self.subst();
                    let r2 = self.ranking();
                    lemma_apply_extends_resolve(s0, r0, s2, r2, a@);
                    lemma_apply_extends_resolve(s0, r0, s2, r2, b@);
                    lemma_types_view_index(unified_parameters@);
                    assert forall|k: int| 0 <= k < pa@.len() implies #[trigger] shape(apply(s2, r2, types_view(pa@)[k]))
                        == shape(apply(s2, r2, types_view(pb@)[k])) && shape(apply(s2, r2, types_view(unified_parameters@)[k]))
                        == shape(apply(s2, r2, types_view(pa@)[k])) by {
                        lemma_shape_eq_extends(s1, r1, s2, r2, types_view(pa@)[k], types_view(pb@)[k]);
                        lemma_shape_eq_extends(s1, r1, s2, r2, types_view(unified_parameters@)[k], types_view(pa@)[k]);
                    }
                    lemma_apply_seq_shapes(s2, r2, types_view(pa@), types_view(pb@));
                    lemma_apply_seq_shapes(s2, r2, types_view(unified_parameters@), types_view(pa@));
                    lemma_vars_below_seq(types_view(unified_parameters@), n);
                    if s1.dom().len() > s0.dom().len() {
                        vstd::set_lib::lemma_len_subset(s1.dom(), s2.dom());
                    }
                    assert forall|v: usize| var_in(v, result@) implies v < n by {
                        if !var_in_seq(v, types_view(unified_parameters@)) {
                            assert(var_in(v, unified_return@));
                        }
                    }
                    assert(shape(apply(s2, r2, a@)) == shape(apply(s2, r2, b@)));
                    assert(shape(apply(s2, r2, result@)) == shape(apply(s2, r2, a@)));
                }
                Ok(result)
            },
            TypeExpr::Tuple { element_types: ea } => {
                let eb = match &type_b {
                    TypeExpr::Tuple { element_types } => element_types,
                    _ => {
                        proof {
                            assert(false);
                        }
                        return Err(UnifyError::MismatchedTypes { expected: copy_type(&type_b), found: copy_type(&type_b) });
                    },
                };
                proof {
                    lemma_types_view_index(ea@);
                    lemma_types_view_index(eb@);
                    assert forall|v: usize| var_in_seq(v, types_view(ea@)) implies v < n by {
                        assert(var_in(v, ta));
                    }
                    if ground(a@) && shape(a@) == shape(b@) {
                        assert(shapes(types_view(ea@)) == shapes(types_view(eb@)));
                        assert forall|v: usize| !#[trigger] var_in_seq(v, types_view(ea@)) by {
                            if var_in_seq(v, types_view(ea@)) {
                                assert(var_in(v, ta));
                            }
                        }
                    }
                    assert forall|v: usize| var_in_seq(v, types_view(eb@)) implies v < n by {
                        assert(var_in(v, tb));
                    }
                }
                let unified = match self.unify_all(&ea, eb) {
                    Ok(u) => u,
                    Err(e) => {
                        return Err(e);
                    },
                };
                let result = TypeExpr::Tuple { element_types: unified };
                proof {
                    let s1 = self.subst();
                    let r1 = self.ranking();
                    lemma_apply_extends_resolve(s0, r0, s1, r1, a@);
                    lemma_apply_extends_resolve(s0, r0, s1, r1, b@);
                    lemma_types_view_index(unified@);
                    lemma_apply_seq_shapes(s1, r1, types_view(ea@), types_view(eb@));
                    lemma_apply_seq_shapes(s1, r1, types_view(unified@), types_view(ea@));
                    lemma_vars_below_seq(types_view(unified@), n);
                    assert(shape(apply(s1, r1, a@)) == shape(apply(s1, r1, b@)));
                    assert(shape(apply(s1, r1, result@)) == shape(apply(s1, r1, a@)));
                    assert forall|v: usize| var_in(v, result@) implies v < n by {
                        assert(var_in_seq(v, types_view(unified@)));
                    }
                }
                Ok(result)
            },
            TypeExpr::TypeVar { .. } => {
                proof {
                    assert(false);
                }
                Err(UnifyError::MismatchedTypes { expected: copy_type(&type_b), found: type_b })
            },
        }
    }

    /// Unifies two equally long lists of types, pair by pair, in order.
    fn unify_all(&mut self, xs: &Vec<TypeExpr>, ys: &Vec<TypeExpr>) -> (res: Result<Vec<TypeExpr>, UnifyError>)
        requires
            old(self).wf(),
            xs@.len() == ys@.len(),
            forall|v: usize| var_in_seq(v, types_view(xs@)) ==> v < old(self).next_id(),
            forall|v: usize| var_in_seq(v, types_view(ys@)) ==> v < old(self).next_id(),
        ensures
            final(self).wf(),
            final(self).next_id() == old(self).next_id(),
            extends(old(self).subst(), final(self).subst()),
            (final(self).subst() == old(self).subst() && final(self).ranking() == old(self).ranking())
                || final(self).subst().dom().len() > old(self).subst().dom().len(),
            ground_seq(types_view(xs@)) && shapes(types_view(xs@)) == shapes(types_view(ys@)) ==> res is Ok && final(self).subst()
                == old(self).subst() && final(self).ranking() == old(self).ranking(),
            ground_seq(types_view(xs@)) && shapes(types_view(xs@)) == shapes(types_view(ys@)) ==> (res matches Ok(us)
                && types_view(us@) == types_view(xs@)),
            xs@.len() == 1 && resolve(old(self).subst(), old(self).ranking(), xs@[0]@) is TypeVar && ground(ys@[0]@) ==> res is Ok,
            res matches Ok(us) ==> {
                &&& us@.len() == xs@.len()
                &&& forall|k: int| 0 <= k < xs@.len() ==> #[trigger] shape(apply(final(self).subst(), final(self).ranking(), types_view(xs@)[k]))
                        == shape(apply(final(self).subst(), final(self).ranking(), types_view(ys@)[k]))
                &&& forall|k: int| 0 <= k < xs@.len() ==> #[trigger] shape(apply(final(self).subst(), final(self).ranking(), types_view(us@)[k]))
                        == shape(apply(final(self).subst(), final(self).ranking(), types_view(xs@)[k]))
                &&& forall|k: int| 0 <= k < xs@.len() ==> vars_below(#[trigger] types_view(us@)[k], old(self).next_id())
            },
            res matches Err(UnifyError::MismatchedTypes { expected, found }) ==> heads_clash(expected@, found@),
            res matches Err(UnifyError::InfiniteType { type_var_id, type_expr }) ==> {
                &&& type_expr@ != (TypeView::TypeVar { id: type_var_id })
                &&& var_in(type_var_id, final(self).resolved(type_expr@))
            },
        decreases
            self.next_id() - self.subst().dom().len(),
            seq_size(apply_seq(self.subst(), self.ranking(), types_view(xs@)))
                + seq_size(apply_seq(self.subst(), self.ranking(), types_view(ys@))) + 1,
    {
        let ghost s0 = self.subst();
        let ghost r0 = self.ranking();
        let ghost n = self.next_id();
        let ghost vxs = types_view(xs@);
        let ghost vys = types_view(ys@);
        proof {
            lemma_types_view_index(xs@);
            lemma_types_view_index(ys@);
            lemma_ids_below_len(s0.dom(), n);
        }
        let mut out: Vec<TypeExpr> = Vec::new();
        let mut i: usize = 0;
        while i < xs.len()
            invariant
                self.wf(),
                self.next_id() == n,
                n == old(self).next_id(),
                s0 == old(self).subst(),
                r0 == old(self).ranking(),
                vxs == types_view(xs@),
                vys == types_view(ys@),
                vxs.len() == xs@.len(),
                vys.len() == ys@.len(),
                xs@.len() == ys@.len(),
                forall|k: int| 0 <= k < xs@.len() ==> #[trigger] vxs[k] == xs@[k]@,
                forall|k: int| 0 <= k < ys@.len() ==> #[trigger] vys[k] == ys@[k]@,
                forall|v: usize| var_in_seq(v, vxs) ==> v < n,
                forall|v: usize| var_in_seq(v, vys) ==> v < n,
                s0.dom().len() <= n,
                ranked(s0, r0),
                extends(s0, self.subst()),
                (self.subst() == s0 && self.ranking() == r0) || self.subst().dom().len() > s0.dom().len(),
                i <= xs@.len(),
                ground_seq(vxs) && shapes(vxs) == shapes(vys) ==> self.subst() == s0 && self.ranking() == r0,
                ground_seq(vxs) && shapes(vxs) == shapes(vys) ==> forall|k: int| 0 <= k < i ==> #[trigger] out@[k]@ == vxs[k],
                i == 0 ==> self.subst() == s0 && self.ranking() == r0,
                out@.len() == i,
                forall|k: int| 0 <= k < i ==> {
                    &&& #[trigger] shape(apply(self.subst(), self.ranking(), vxs[k])) == shape(apply(self.subst(), self.ranking(), vys[k]))
                    &&& shape(apply(self.subst(), self.ranking(), out@[k]@)) == shape(apply(self.subst(), self.ranking(), vxs[k]))
                    &&& vars_below(out@[k]@, n)
                },
            decreases xs@.len() - i,
        {
            let ghost s1 = self.subst();
            let ghost r1 = self.ranking();
            proof {
                lemma_vars_below_elem(vxs, i as int, n);
                lemma_vars_below_elem(vys, i as int, n);
                lemma_apply_seq_sizes(s0, r0, vxs, i as int);
                lemma_apply_seq_sizes(s0, r0, vys, i as int);
                lemma_ids_below_len(s1.dom(), n);
                assert(xs@[i as int]@ == vxs[i as int]);
                assert(ys@[i as int]@ == vys[i as int]);
                if s1 == s0 && r1 == r0 {
                    assert(size(apply(s1, r1, xs@[i as int]@)) + size(apply(s1, r1, ys@[i as int]@))
                        < seq_size(apply_seq(s0, r0, vxs)) + seq_size(apply_seq(s0, r0, vys)) + 1);
                } else {
                    assert(n - s1.dom().len() < n - s0.dom().len());
                }
                assert(n - s1.dom().len() >= 0);
                assert(forall|k: int| 0 <= k < i ==> {
                    &&& #[trigger] shape(apply(s1, r1, vxs[k])) == shape(apply(s1, r1, vys[k]))
                    &&& shape(apply(s1, r1, out@[k]@)) == shape(apply(s1, r1, vxs[k]))
                });
            }
            proof {
                if ground_seq(vxs) && shapes(vxs) == shapes(vys) {
                    lemma_shapes_index(vxs);
                    lemma_shapes_index(vys);
                    assert(shapes(vxs)[i as int] == shapes(vys)[i as int]);
                    assert(shape(vxs[i as int]) == shape(vys[i as int]));
                    assert(shape(xs@[i as int]@) == shape(ys@[i as int]@));
                    assert forall|v: usize| !#[trigger] var_in(v, xs@[i as int]@) by {
                        if var_in(v, xs@[i as int]@) {
                            lemma_var_in_seq_elem(v, vxs, i as int);
                        }
                    }
                }
            }
            proof {
                if xs@.len() == 1 && resolve(s0, r0, xs@[0]@) is TypeVar && ground(ys@[0]@) {
                    assert(i == 0);
                    let g = ys@[0]@;
                    let v = resolve(s0, r0, xs@[0]@)->TypeVar_id;
                    lemma_apply_identity(s0, r0, g);
                    if let TypeView::TypeVar { id } = g {
                        assert(var_in(id, g));
                    }
                    assert(resolve(s0, r0, g) == g);
                    assert(!var_in(v, g));
                    assert(g != (TypeView::TypeVar { id: v }));
                }
            }
            let u = match self.unify(&xs[i], &ys[i]) {
                Ok(u) => u,
                Err(e) => {
                    proof {
                        if s1.dom().len() > s0.dom().len() {
                            vstd::set_lib::lemma_len_subset(s1.dom(), self.subst().dom());
                        }
                    }
                    return Err(e);
                },
            };
            proof {
                let s2 = self.subst();
                let r2 = self.ranking();
                if s1.dom().len() > s0.dom().len() {
                    vstd::set_lib::lemma_len_subset(s1.dom(), s2.dom());
                }
                assert forall|k: int| 0 <= k < i implies {
                    &&& #[trigger] shape(apply(s2, r2, vxs[k])) == shape(apply(s2, r2, vys[k]))
                    &&& shape(apply(s2, r2, out@[k]@)) == shape(apply(s2, r2, vxs[k]))
                } by {
                    lemma_shape_eq_extends(s1, r1, s2, r2, vxs[k], vys[k]);
                    lemma_shape_eq_extends(s1, r1, s2, r2, out@[k]@, vxs[k]);
                }
            }
            out.push(u);
            i = i + 1;
        }
        proof {
            lemma_types_view_index(out@);
            if ground_seq(vxs) && shapes(vxs) == shapes(vys) {
                assert(i == xs@.len());
                assert forall|k: int| 0 <= k < vxs.len() implies #[trigger] types_view(out@)[k] == vxs[k] by {
                    assert(out@[k]@ == vxs[k]);
                }
                assert(types_view(out@) =~= vxs);
            }
            let sf = self.subst();
            let rf = self.ranking();
            assert forall|k: int| 0 <= k < xs@.len() implies #[trigger] shape(apply(sf, rf, types_view(out@)[k]))
                == shape(apply(sf, rf, vxs[k])) && vars_below(types_view(out@)[k], n) by {
                assert(shape(apply(sf, rf, vxs[k])) == shape(apply(sf, rf, vys[k])));
            }
            assert forall|k: int| 0 <= k < xs@.len() implies vars_below(#[trigger] types_view(out@)[k], n) by {
                assert(shape(apply(sf, rf, vxs[k])) == shape(apply(sf, rf, vys[k])));
            }
        }
        Ok(out)
    }
    /// Unifies `type_a` with `type_b`; an error is reported at `token`.
    /// On success both types, and the type returned, have one shape once
    /// the substitution is applied; bindings made before a failure are kept.
    pub fn unify_at(&mut self, type_a: &TypeExpr, type_b: &TypeExpr, token: &Token) -> (res: Result<TypeExpr, TypeError>)
        requires
            old(self).wf(),
            vars_below(type_a@, old(self).next_id()),
            vars_below(type_b@, old(self).next_id()),
        ensures
            final(self).wf(),
            final(self).next_id() == old(self).next_id(),
            extends(old(self).subst(), final(self).subst()),
            ground(type_a@) && shape(type_a@) == shape(type_b@) ==> res is Ok && final(self).subst() == old(self).subst()
                && final(self).ranking() == old(self).ranking(),
            ground(type_a@) && shape(type_a@) == shape(type_b@) ==> (res matches Ok(t) && t@ == type_a@),
            variable_argument_against_ground(old(self).subst(), old(self).ranking(), type_a@, type_b@) ==> res is Ok,
            resolve(old(self).subst(), old(self).ranking(), type_a@) matches TypeView::TypeVar { id } ==> var_unify_at_outcome(
                *old(self),
                *final(self),
                id,
                resolve(old(self).subst(), old(self).ranking(), type_b@),
                *token,
                res,
            ),
            !(resolve(old(self).subst(), old(self).ranking(), type_a@) is TypeVar) ==> (resolve(
                old(self).subst(),
                old(self).ranking(),
                type_b@,
            ) matches TypeView::TypeVar { id } ==> var_unify_at_outcome(
                *old(self),
                *final(self),
                id,
                resolve(old(self).subst(), old(self).ranking(), type_a@),
                *token,
                res,
            )),
            res matches Ok(t) ==> {
                &&& shape(final(self).resolved(type_a@)) == shape(final(self).resolved(type_b@))
                &&& shape(final(self).resolved(t@)) == shape(final(self).resolved(type_a@))
                &&& vars_below(t@, old(self).next_id())
            },
            res matches Err(e) ==> match e {
                TypeError::MismatchedTypes { line, column, expected, found } => {
                    &&& line == token.line && column == token.column
                    &&& heads_clash(expected@, found@)
                },
                TypeError::InfiniteType { line, column, type_var_id, type_expr } => {
                    &&& line == token.line && column == token.column
                    &&& type_expr@ != (TypeView::TypeVar { id: type_var_id })
                    &&& var_in(type_var_id, final(self).resolved(type_expr@))
                },
                _ => false,
            },
            heads_clash(resolve(old(self).subst(), old(self).ranking(), type_a@), resolve(old(self).subst(), old(self).ranking(), type_b@))
                ==> (res matches Err(TypeError::MismatchedTypes { expected, found, .. })
                    && expected@ == resolve(old(self).subst(), old(self).ranking(), type_a@)
                    && found@ == resolve(old(self).subst(), old(self).ranking(), type_b@)),
    {
        match self.unify(type_a, type_b) {
            Ok(t) => Ok(t),
            Err(UnifyError::MismatchedTypes { expected, found }) => Err(TypeError::MismatchedTypes {
                line: token.line,
                column: token.column,
                expected,
                found,
            }),
            Err(UnifyError::InfiniteType { type_var_id, type_expr }) => Err(TypeError::InfiniteType {
                line: token.line,
                column: token.column,
                type_var_id,
                type_expr,
            }),
        }
    }
}


/// The renaming state while a type is instantiated: `m` maps the variables
/// met so far one to one onto the fresh ids issued since `base`.
pub open spec fn renaming_state(m: Map<usize, usize>, base: nat, next: nat) -> bool {
    fresh_renaming(m, base, next)
}

impl Unifier {
    /// A copy of `t` in which each distinct type variable is replaced by a
    /// distinct fresh one, the same variable by the same fresh one wherever
    /// it occurs (the field types of a struct declaration included).
    pub fn instantiate_type(&mut self, t: &TypeExpr) -> (r: TypeExpr)
        requires
            old(self).wf(),
            old(self).next_id() + type_vars(t@).len() <= usize::MAX,
        ensures
            final(self).wf(),
            final(self).subst() == old(self).subst(),
            final(self).ranking() == old(self).ranking(),
            type_vars(t@).finite(),
            final(self).next_id() == old(self).next_id() + type_vars(t@).len(),
            exists|m: Map<usize, usize>|
                {
                    &&& #[trigger] m.dom() == type_vars(t@)
                    &&& fresh_renaming(m, old(self).next_id(), final(self).next_id())
                    &&& r@ == rename(m, t@)
                },
    {
        proof {
            lemma_type_vars_finite(t@);
        }
        let mut mapping: HashMap<usize, usize> = HashMap::new();
        proof {
            assert(mapping@.dom() =~= Set::<usize>::empty());
            assert(mapping@.dom().union(type_vars(t@)) =~= type_vars(t@));
        }
        let ghost base = self.next_id();
        let r = self.instantiate_type_with_mapping(t, &mut mapping, Ghost(base), Ghost(type_vars(t@)));
        proof {
            assert(mapping@.dom() =~= type_vars(t@));
        }
        r
    }

    fn instantiate_type_with_mapping(
        &mut self,
        t: &TypeExpr,
        mapping: &mut HashMap<usize, usize>,
        Ghost(base): Ghost<nat>,
        Ghost(limit): Ghost<Set<usize>>,
    ) -> (r: TypeExpr)
        requires
            old(self).wf(),
            renaming_state(old(mapping)@, base, old(self).next_id()),
            old(mapping)@.dom().union(type_vars(t@)).subset_of(limit),
            limit.finite(),
            base + limit.len() <= usize::MAX,
        ensures
            final(self).wf(),
            final(self).subst() == old(self).subst(),
            final(self).ranking() == old(self).ranking(),
            old(mapping)@.submap_of(final(mapping)@),
            final(mapping)@.dom() == old(mapping)@.dom().union(type_vars(t@)),
            renaming_state(final(mapping)@, base, final(self).next_id()),
            r@ == rename(final(mapping)@, t@),
        decreases t,
    {
        let ghost m0 = mapping@;
        match t {
            TypeExpr::Named { identifier, type_parameters, type_arguments, enum_variants, struct_fields } => {
                proof {
                    lemma_seq_type_vars_finite(types_view(type_arguments@));
                    assert(mapping@.dom().union(seq_type_vars(types_view(type_arguments@))).subset_of(limit));
                }
                let args = self.instantiate_all(type_arguments, mapping, Ghost(base), Ghost(limit));
                let ghost m1 = mapping@;
                let fields = match struct_fields {
                    Some(fs) => {
                        proof {
                            assert(mapping@.dom().union(field_type_vars(fields_view(fs@))).subset_of(limit));
                        }
                        let f = self.instantiate_fields(fs, mapping, Ghost(base), Ghost(limit));
                        proof {
                            lemma_rename_seq_extends(m1, mapping@, types_view(type_arguments@));
                        }
                        Some(f)
                    },
                    None => None,
                };
                let t2 = copy_type(t);
                match t2 {
                    TypeExpr::Named { identifier, type_parameters, type_arguments: _, enum_variants, struct_fields: _ } => {
                        let r = TypeExpr::Named { identifier, type_parameters, type_arguments: args, enum_variants, struct_fields: fields };
                        proof {
                            assert(mapping@.dom() =~= m0.dom().union(type_vars(t@)));
                            assert forall|k: usize| #[trigger] m0.contains_key(k) implies mapping@.contains_key(k)
                                && mapping@[k] == m0[k] by {
                                assert(m1.contains_key(k));
                            }
                        }
                        r
                    },
                    _ => {
                        proof {
                            assert(false);
                        }
                        t2
                    },
                }
            },
            TypeExpr::Function { parameter_types, return_type } => {
                proof {
                    assert(mapping@.dom().union(seq_type_vars(types_view(parameter_types@))).subset_of(limit));
                }
                let params = self.instantiate_all(parameter_types, mapping, Ghost(base), Ghost(limit));
                let ghost m1 = mapping@;
                proof {
                    assert(mapping@.dom().union(type_vars(return_type@)).subset_of(limit));
                }
                let ret = self.instantiate_type_with_mapping(return_type, mapping, Ghost(base), Ghost(limit));
                proof {
                    lemma_rename_seq_extends(m1, mapping@, types_view(parameter_types@));
                    assert(mapping@.dom() =~= m0.dom().union(type_vars(t@)));
                }
                TypeExpr::Function { parameter_types: params, return_type: Box::new(ret) }
            },
            TypeExpr::Tuple { element_types } => {
                let elems = self.instantiate_all(element_types, mapping, Ghost(base), Ghost(limit));
                TypeExpr::Tuple { element_types: elems }
            },
            TypeExpr::TypeVar { id } => {
                match mapping.get(id) {
                    Some(fresh) => {
                        proof {
                            assert(mapping@.dom() =~= m0.dom().union(type_vars(t@)));
                        }
                        TypeExpr::TypeVar { id: *fresh }
                    },
                    None => {
                        proof {
                            assert(mapping@.dom().insert(*id).subset_of(limit));
                            vstd::set_lib::lemma_len_subset(mapping@.dom().insert(*id), limit);
                        }
                        let fresh_id = self.next_type_var_id;
                        let fresh = self.new_type_var();
                        mapping.insert(*id, fresh_id);
                        proof {
                            assert(mapping@.dom() =~= m0.dom().insert(*id));
                            assert(mapping@.dom() =~= m0.dom().union(type_vars(t@)));
                        }
                        fresh
                    },
                }
            },
        }
    }

    fn instantiate_all(
        &mut self,
        ts: &Vec<TypeExpr>,
        mapping: &mut HashMap<usize, usize>,
        Ghost(base): Ghost<nat>,
        Ghost(limit): Ghost<Set<usize>>,
    ) -> (r: Vec<TypeExpr>)
        requires
            old(self).wf(),
            renaming_state(old(mapping)@, base, old(self).next_id()),
            old(mapping)@.dom().union(seq_type_vars(types_view(ts@))).subset_of(limit),
            limit.finite(),
            base + limit.len() <= usize::MAX,
        ensures
            final(self).wf(),
            final(self).subst() == old(self).subst(),
            final(self).ranking() == old(self).ranking(),
            old(mapping)@.submap_of(final(mapping)@),
            final(mapping)@.dom() == old(mapping)@.dom().union(seq_type_vars(types_view(ts@))),
            renaming_state(final(mapping)@, base, final(self).next_id()),
            types_view(r@) == rename_seq(final(mapping)@, types_view(ts@)),
        decreases ts,
    {
        let ghost m0 = mapping@;
        let ghost s0 = self.subst();
        let ghost r0 = self.ranking();
        let ghost xs = types_view(ts@);
        proof {
            lemma_types_view_index(ts@);
            assert(xs.take(0) =~= Seq::<TypeView>::empty());
            assert(mapping@.dom() =~= m0.dom().union(seq_type_vars(xs.take(0))));
        }
        let mut r: Vec<TypeExpr> = Vec::new();
        let mut i: usize = 0;
        while i < ts.len()
            invariant
                i <= ts@.len(),
                xs == types_view(ts@),
                xs.len() == ts@.len(),
                forall|j: int| 0 <= j < ts@.len() ==> #[trigger] xs[j] == ts@[j]@,
                self.wf(),
                self.subst() == s0,
                self.ranking() == r0,
                m0.submap_of(mapping@),
                mapping@.dom() == m0.dom().union(seq_type_vars(xs.take(i as int))),
                renaming_state(mapping@, base, self.next_id()),
                m0.dom().union(seq_type_vars(xs)).subset_of(limit),
                limit.finite(),
                base + limit.len() <= usize::MAX,
                types_view(r@) == rename_seq(mapping@, xs.take(i as int)),
            decreases ts@.len() - i,
        {
            let ghost m1 = mapping@;
            let ghost before = r@;
            proof {
                lemma_seq_type_vars_prefix(xs, i + 1);
                assert(xs.take(i + 1).drop_last() =~= xs.take(i as int));
                assert(xs.take(i + 1).last() == xs[i as int]);
                assert(mapping@.dom().union(type_vars(ts@[i as int]@)).subset_of(limit));
            }
            let t = self.instantiate_type_with_mapping(&ts[i], mapping, Ghost(base), Ghost(limit));
            r.push(t);
            proof {
                assert(r@.drop_last() =~= before);
                lemma_rename_seq_extends(m1, mapping@, xs.take(i as int));
                assert forall|k: usize| #[trigger] m0.contains_key(k) implies mapping@.contains_key(k)
                    && mapping@[k] == m0[k] by {
                    assert(m1.contains_key(k));
                }
                assert(mapping@.dom() =~= m0.dom().union(seq_type_vars(xs.take(i + 1))));
            }
            i = i + 1;
        }
        proof {
            assert(xs.take(i as int) =~= xs);
        }
        r
    }

    fn instantiate_fields(
        &mut self,
        fs: &Vec<(Token, TypeExpr)>,
        mapping: &mut HashMap<usize, usize>,
        Ghost(base): Ghost<nat>,
        Ghost(limit): Ghost<Set<usize>>,
    ) -> (r: Vec<(Token, TypeExpr)>)
        requires
            old(self).wf(),
            renaming_state(old(mapping)@, base, old(self).next_id()),
            old(mapping)@.dom().union(field_type_vars(fields_view(fs@))).subset_of(limit),
            limit.finite(),
            base + limit.len() <= usize::MAX,
        ensures
            final(self).wf(),
            final(self).subst() == old(self).subst(),
            final(self).ranking() == old(self).ranking(),
            old(mapping)@.submap_of(final(mapping)@),
            final(mapping)@.dom() == old(mapping)@.dom().union(field_type_vars(fields_view(fs@))),
            renaming_state(final(mapping)@, base, final(self).next_id()),
            fields_view(r@) == rename_fields(final(mapping)@, fields_view(fs@)),
        decreases fs,
    {
        let ghost m0 = mapping@;
        let ghost s0 = self.subst();
        let ghost r0 = self.ranking();
        let ghost xs = fields_view(fs@);
        proof {
            lemma_fields_view_index(fs@);
            assert(xs.take(0) =~= Seq::<(TokenView, TypeView)>::empty());
            assert(mapping@.dom() =~= m0.dom().union(field_type_vars(xs.take(0))));
        }
        let mut r: Vec<(Token, TypeExpr)> = Vec::new();
        let mut i: usize = 0;
        while i < fs.len()
            invariant
                i <= fs@.len(),
                xs == fields_view(fs@),
                xs.len() == fs@.len(),
                forall|j: int| 0 <= j < fs@.len() ==> #[trigger] xs[j] == (fs@[j].0@, fs@[j].1@),
                self.wf(),
                self.subst() == s0,
                self.ranking() == r0,
                m0.submap_of(mapping@),
                mapping@.dom() == m0.dom().union(field_type_vars(xs.take(i as int))),
                renaming_state(mapping@, base, self.next_id()),
                m0.dom().union(field_type_vars(xs)).subset_of(limit),
                limit.finite(),
                base + limit.len() <= usize::MAX,
                fields_view(r@) == rename_fields(mapping@, xs.take(i as int)),
            decreases fs@.len() - i,
        {
            let ghost m1 = mapping@;
            let ghost before = r@;
            proof {
                lemma_field_type_vars_prefix(xs, i + 1);
                assert(xs.take(i + 1).drop_last() =~= xs.take(i as int));
                assert(xs.take(i + 1).last() == xs[i as int]);
                assert(mapping@.dom().union(type_vars(fs@[i as int].1@)).subset_of(limit));
            }
            let name = fs[i].0.clone();
            let t = self.instantiate_type_with_mapping(&fs[i].1, mapping, Ghost(base), Ghost(limit));
            r.push((name, t));
            proof {
                assert(r@.drop_last() =~= before);
                lemma_rename_fields_extends(m1, mapping@, xs.take(i as int));
                assert forall|k: usize| #[trigger] m0.contains_key(k) implies mapping@.contains_key(k)
                    && mapping@[k] == m0[k] by {
                    assert(m1.contains_key(k));
                }
                assert(mapping@.dom() =~= m0.dom().union(field_type_vars(xs.take(i + 1))));
            }
            i = i + 1;
        }
        proof {
            assert(xs.take(i as int) =~= xs);
        }
        r
    }
}

} // verus!
