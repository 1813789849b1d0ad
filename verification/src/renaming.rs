use vstd::prelude::*;
use crate::token::TokenView;
use crate::types::TypeView;

verus! {

/// The type variables that occur in `t`: in its type arguments, parameter
/// and return types, element types, and the field types of the struct
/// declaration a named type carries.
pub open spec fn type_vars(t: TypeView) -> Set<usize>
    decreases t,
{
    match t {
        TypeView::Named { type_arguments, struct_fields, .. } => seq_type_vars(type_arguments).union(
            match struct_fields {
                Some(fs) => field_type_vars(fs),
                None => Set::empty(),
            },
        ),
        TypeView::Function { parameter_types, return_type } => seq_type_vars(parameter_types).union(
            type_vars(*return_type),
        ),
        TypeView::Tuple { element_types } => seq_type_vars(element_types),
        TypeView::TypeVar { id } => Set::empty().insert(id),
    }
}

pub open spec fn seq_type_vars(ts: Seq<TypeView>) -> Set<usize>
    decreases ts,
{
    if ts.len() == 0 {
        Set::empty()
    } else {
        seq_type_vars(ts.drop_last()).union(type_vars(ts.last()))
    }
}

pub open spec fn field_type_vars(fs: Seq<(TokenView, TypeView)>) -> Set<usize>
    decreases fs,
{
    if fs.len() == 0 {
        Set::empty()
    } else {
        field_type_vars(fs.drop_last()).union(type_vars(fs.last().1))
    }
}

/// `t` with every type variable in the domain of `m` replaced by the
/// variable `m` maps it to, wherever `type_vars` finds it.
pub open spec fn rename(m: Map<usize, usize>, t: TypeView) -> TypeView
    decreases t,
{
    match t {
        TypeView::Named { identifier, type_parameters, type_arguments, enum_variants, struct_fields } => TypeView::Named {
            identifier,
            type_parameters,
            type_arguments: rename_seq(m, type_arguments),
            enum_variants,
            struct_fields: match struct_fields {
                Some(fs) => Some(rename_fields(m, fs)),
                None => None,
            },
        },
        TypeView::Function { parameter_types, return_type } => TypeView::Function {
            parameter_types: rename_seq(m, parameter_types),
            return_type: Box::new(rename(m, *return_type)),
        },
        TypeView::Tuple { element_types } => TypeView::Tuple { element_types: rename_seq(m, element_types) },
        TypeView::TypeVar { id } => if m.contains_key(id) {
            TypeView::TypeVar { id: m[id] }
        } else {
            t
        },
    }
}

pub open spec fn rename_seq(m: Map<usize, usize>, ts: Seq<TypeView>) -> Seq<TypeView>
    decreases ts,
{
    if ts.len() == 0 {
        Seq::empty()
    } else {
        rename_seq(m, ts.drop_last()).push(rename(m, ts.last()))
    }
}

pub open spec fn rename_fields(m: Map<usize, usize>, fs: Seq<(TokenView, TypeView)>) -> Seq<(TokenView, TypeView)>
    decreases fs,
{
    if fs.len() == 0 {
        Seq::empty()
    } else {
        rename_fields(m, fs.drop_last()).push((fs.last().0, rename(m, fs.last().1)))
    }
}

/// `m` maps its domain one to one onto the ids from `lo` up to, not
/// including, `hi`.
pub open spec fn fresh_renaming(m: Map<usize, usize>, lo: nat, hi: nat) -> bool {
    &&& m.dom().finite()
    &&& hi == lo + m.dom().len()
    &&& forall|k: usize| #[trigger] m.contains_key(k) ==> lo <= m[k] < hi
    &&& forall|k1: usize, k2: usize|
        #[trigger] m.contains_key(k1) && #[trigger] m.contains_key(k2) && m[k1] == m[k2] ==> k1 == k2
}

pub proof fn lemma_type_vars_finite(t: TypeView)
    ensures
        type_vars(t).finite(),
    decreases t,
{
    match t {
        TypeView::Named { type_arguments, struct_fields, .. } => {
            lemma_seq_type_vars_finite(type_arguments);
            match struct_fields {
                Some(fs) => lemma_field_type_vars_finite(fs),
                None => {},
            }
        },
        TypeView::Function { parameter_types, return_type } => {
            lemma_seq_type_vars_finite(parameter_types);
            lemma_type_vars_finite(*return_type);
        },
        TypeView::Tuple { element_types } => lemma_seq_type_vars_finite(element_types),
        TypeView::TypeVar { id } => {},
    }
}

pub proof fn lemma_seq_type_vars_finite(ts: Seq<TypeView>)
    ensures
        seq_type_vars(ts).finite(),
    decreases ts,
{
    if ts.len() > 0 {
        lemma_seq_type_vars_finite(ts.drop_last());
        lemma_type_vars_finite(ts.last());
    }
}

pub proof fn lemma_field_type_vars_finite(fs: Seq<(TokenView, TypeView)>)
    ensures
        field_type_vars(fs).finite(),
    decreases fs,
{
    if fs.len() > 0 {
        lemma_field_type_vars_finite(fs.drop_last());
        lemma_type_vars_finite(fs.last().1);
    }
}

/// Renaming with a larger map changes nothing where the smaller one already
/// covers every variable.
pub proof fn lemma_rename_extends(m: Map<usize, usize>, m2: Map<usize, usize>, t: TypeView)
    requires
        m.submap_of(m2),
        type_vars(t).subset_of(m.dom()),
    ensures
        rename(m2, t) == rename(m, t),
    decreases t,
{
    match t {
        TypeView::Named { type_arguments, struct_fields, .. } => {
            lemma_rename_seq_extends(m, m2, type_arguments);
            match struct_fields {
                Some(fs) => lemma_rename_fields_extends(m, m2, fs),
                None => {},
            }
        },
        TypeView::Function { parameter_types, return_type } => {
            lemma_rename_seq_extends(m, m2, parameter_types);
            lemma_rename_extends(m, m2, *return_type);
        },
        TypeView::Tuple { element_types } => lemma_rename_seq_extends(m, m2, element_types),
        TypeView::TypeVar { id } => {
            assert(type_vars(t).contains(id));
        },
    }
}

/// A type with no type variable is its own renaming.
pub proof fn lemma_rename_ground(m: Map<usize, usize>, t: TypeView)
    requires
        type_vars(t) =~= Set::<usize>::empty(),
    ensures
        rename(m, t) == t,
    decreases t,
{
    match t {
        TypeView::Named { type_arguments, struct_fields, .. } => {
            assert(seq_type_vars(type_arguments) =~= Set::<usize>::empty());
            lemma_rename_seq_ground(m, type_arguments);
            match struct_fields {
                Some(fs) => {
                    assert(field_type_vars(fs) =~= Set::<usize>::empty());
                    lemma_rename_fields_ground(m, fs);
                },
                None => {},
            }
        },
        TypeView::Function { parameter_types, return_type } => {
            assert(seq_type_vars(parameter_types) =~= Set::<usize>::empty());
            assert(type_vars(*return_type) =~= Set::<usize>::empty());
            lemma_rename_seq_ground(m, parameter_types);
            lemma_rename_ground(m, *return_type);
        },
        TypeView::Tuple { element_types } => lemma_rename_seq_ground(m, element_types),
        TypeView::TypeVar { id } => {
            assert(type_vars(t).contains(id));
        },
    }
}

pub proof fn lemma_rename_seq_ground(m: Map<usize, usize>, ts: Seq<TypeView>)
    requires
        seq_type_vars(ts) =~= Set::<usize>::empty(),
    ensures
        rename_seq(m, ts) == ts,
    decreases ts,
{
    if ts.len() > 0 {
        assert(seq_type_vars(ts.drop_last()) =~= Set::<usize>::empty());
        assert(type_vars(ts.last()) =~= Set::<usize>::empty());
        lemma_rename_seq_ground(m, ts.drop_last());
        lemma_rename_ground(m, ts.last());
        assert(rename_seq(m, ts) =~= ts);
    }
}

pub proof fn lemma_rename_fields_ground(m: Map<usize, usize>, fs: Seq<(TokenView, TypeView)>)
    requires
        field_type_vars(fs) =~= Set::<usize>::empty(),
    ensures
        rename_fields(m, fs) == fs,
    decreases fs,
{
    if fs.len() > 0 {
        assert(field_type_vars(fs.drop_last()) =~= Set::<usize>::empty());
        assert(type_vars(fs.last().1) =~= Set::<usize>::empty());
        lemma_rename_fields_ground(m, fs.drop_last());
        lemma_rename_ground(m, fs.last().1);
        assert(rename_fields(m, fs) =~= fs);
    }
}

/// Renaming keeps the length of a list of types.
pub proof fn lemma_rename_seq_len(m: Map<usize, usize>, ts: Seq<TypeView>)
    ensures
        rename_seq(m, ts).len() == ts.len(),
    decreases ts,
{
    if ts.len() > 0 {
        lemma_rename_seq_len(m, ts.drop_last());
    }
}

pub proof fn lemma_rename_seq_extends(m: Map<usize, usize>, m2: Map<usize, usize>, ts: Seq<TypeView>)
    requires
        m.submap_of(m2),
        seq_type_vars(ts).subset_of(m.dom()),
    ensures
        rename_seq(m2, ts) == rename_seq(m, ts),
    decreases ts,
{
    if ts.len() > 0 {
        lemma_rename_seq_extends(m, m2, ts.drop_last());
        lemma_rename_extends(m, m2, ts.last());
    }
}

pub proof fn lemma_rename_fields_extends(m: Map<usize, usize>, m2: Map<usize, usize>, fs: Seq<(TokenView, TypeView)>)
    requires
        m.submap_of(m2),
        field_type_vars(fs).subset_of(m.dom()),
    ensures
        rename_fields(m2, fs) == rename_fields(m, fs),
    decreases fs,
{
    if fs.len() > 0 {
        lemma_rename_fields_extends(m, m2, fs.drop_last());
        lemma_rename_extends(m, m2, fs.last().1);
    }
}

/// The variables of a prefix of a list are among those of the whole list.
pub proof fn lemma_seq_type_vars_prefix(ts: Seq<TypeView>, i: int)
    requires
        0 <= i <= ts.len(),
    ensures
        seq_type_vars(ts.take(i)).subset_of(seq_type_vars(ts)),
    decreases ts.len(),
{
    if i < ts.len() {
        assert(ts.take(i) =~= ts.drop_last().take(i));
        lemma_seq_type_vars_prefix(ts.drop_last(), i);
    } else {
        assert(ts.take(i) =~= ts);
    }
}

pub proof fn lemma_field_type_vars_prefix(fs: Seq<(TokenView, TypeView)>, i: int)
    requires
        0 <= i <= fs.len(),
    ensures
        field_type_vars(fs.take(i)).subset_of(field_type_vars(fs)),
    decreases fs.len(),
{
    if i < fs.len() {
        assert(fs.take(i) =~= fs.drop_last().take(i));
        lemma_field_type_vars_prefix(fs.drop_last(), i);
    } else {
        assert(fs.take(i) =~= fs);
    }
}

} // verus!
