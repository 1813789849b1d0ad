use vstd::prelude::*;
use crate::token::{Token, TokenView};
use crate::text::{decimal, push_decimal, push_string};

verus! {

/// A variant of an enum declaration: its name and the types of its payload.
#[derive(Debug)]
pub struct EnumVariant {
    pub identifier: Token,
    pub payload_types: Vec<TypeExpr>,
}

/// A type.  A named type carries, besides its name and type arguments, the
/// type parameters, variants or fields of the declaration it names, where
/// the type checker has attached them.
#[derive(Debug)]
pub enum TypeExpr {
    Named {
        identifier: Token,
        type_parameters: Option<Vec<TypeExpr>>,
        type_arguments: Vec<TypeExpr>,
        enum_variants: Option<Vec<EnumVariant>>,
        struct_fields: Option<Vec<(Token, TypeExpr)>>,
    },
    Function { parameter_types: Vec<TypeExpr>, return_type: Box<TypeExpr> },
    Tuple { element_types: Vec<TypeExpr> },
    TypeVar { id: usize },
}

/// The mathematical value of a type.
pub enum TypeView {
    Named {
        identifier: TokenView,
        type_parameters: Option<Seq<TypeView>>,
        type_arguments: Seq<TypeView>,
        enum_variants: Option<Seq<VariantView>>,
        struct_fields: Option<Seq<(TokenView, TypeView)>>,
    },
    Function { parameter_types: Seq<TypeView>, return_type: Box<TypeView> },
    Tuple { element_types: Seq<TypeView> },
    TypeVar { id: usize },
}

/// The mathematical value of an enum variant.
pub struct VariantView {
    pub identifier: TokenView,
    pub payload_types: Seq<TypeView>,
}

pub open spec fn type_view(t: TypeExpr) -> TypeView
    decreases t,
{
    match t {
        TypeExpr::Named { identifier, type_parameters, type_arguments, enum_variants, struct_fields } => {
            TypeView::Named {
                identifier: identifier@,
                type_parameters: match type_parameters {
                    Some(ps) => Some(types_view(ps@)),
                    None => None,
                },
                type_arguments: types_view(type_arguments@),
                enum_variants: match enum_variants {
                    Some(vs) => Some(variants_view(vs@)),
                    None => None,
                },
                struct_fields: match struct_fields {
                    Some(fs) => Some(fields_view(fs@)),
                    None => None,
                },
            }
        },
        TypeExpr::Function { parameter_types, return_type } => TypeView::Function {
            parameter_types: types_view(parameter_types@),
            return_type: Box::new(type_view(*return_type)),
        },
        TypeExpr::Tuple { element_types } => TypeView::Tuple { element_types: types_view(element_types@) },
        TypeExpr::TypeVar { id } => TypeView::TypeVar { id },
    }
}

pub open spec fn types_view(ts: Seq<TypeExpr>) -> Seq<TypeView>
    decreases ts,
{
    if ts.len() == 0 {
        Seq::empty()
    } else {
        types_view(ts.drop_last()).push(type_view(ts.last()))
    }
}

pub open spec fn variants_view(vs: Seq<EnumVariant>) -> Seq<VariantView>
    decreases vs,
{
    if vs.len() == 0 {
        Seq::empty()
    } else {
        variants_view(vs.drop_last()).push(
            VariantView { identifier: vs.last().identifier@, payload_types: types_view(vs.last().payload_types@) },
        )
    }
}

pub open spec fn fields_view(fs: Seq<(Token, TypeExpr)>) -> Seq<(TokenView, TypeView)>
    decreases fs,
{
    if fs.len() == 0 {
        Seq::empty()
    } else {
        fields_view(fs.drop_last()).push((fs.last().0@, type_view(fs.last().1)))
    }
}

impl View for TypeExpr {
    type V = TypeView;

    open spec fn view(&self) -> TypeView {
        type_view(*self)
    }
}

} // verus!

verus! {

pub proof fn lemma_types_view_index(ts: Seq<TypeExpr>)
    ensures
        types_view(ts).len() == ts.len(),
        forall|i: int| 0 <= i < ts.len() ==> #[trigger] types_view(ts)[i] == type_view(ts[i]),
    decreases ts.len(),
{
    if ts.len() > 0 {
        lemma_types_view_index(ts.drop_last());
    }
}

pub proof fn lemma_variants_view_index(vs: Seq<EnumVariant>)
    ensures
        variants_view(vs).len() == vs.len(),
        forall|i: int| 0 <= i < vs.len() ==> #[trigger] variants_view(vs)[i] == (VariantView {
            identifier: vs[i].identifier@,
            payload_types: types_view(vs[i].payload_types@),
        }),
    decreases vs.len(),
{
    if vs.len() > 0 {
        lemma_variants_view_index(vs.drop_last());
    }
}

pub proof fn lemma_fields_view_index(fs: Seq<(Token, TypeExpr)>)
    ensures
        fields_view(fs).len() == fs.len(),
        forall|i: int| 0 <= i < fs.len() ==> #[trigger] fields_view(fs)[i] == (fs[i].0@, type_view(fs[i].1)),
    decreases fs.len(),
{
    if fs.len() > 0 {
        lemma_fields_view_index(fs.drop_last());
    }
}

/// A copy of a type.
pub fn copy_type(t: &TypeExpr) -> (r: TypeExpr)
    ensures
        r@ == t@,
    decreases t,
{
    match t {
        TypeExpr::Named { identifier, type_parameters, type_arguments, enum_variants, struct_fields } => {
            let type_parameters = match type_parameters {
                Some(ps) => Some(copy_types(ps)),
                None => None,
            };
            let enum_variants = match enum_variants {
                Some(vs) => Some(copy_variants(vs)),
                None => None,
            };
            let struct_fields = match struct_fields {
                Some(fs) => Some(copy_fields(fs)),
                None => None,
            };
            TypeExpr::Named {
                identifier: identifier.clone(),
                type_parameters,
                type_arguments: copy_types(type_arguments),
                enum_variants,
                struct_fields,
            }
        },
        TypeExpr::Function { parameter_types, return_type } => TypeExpr::Function {
            parameter_types: copy_types(parameter_types),
            return_type: Box::new(copy_type(return_type)),
        },
        TypeExpr::Tuple { element_types } => TypeExpr::Tuple { element_types: copy_types(element_types) },
        TypeExpr::TypeVar { id } => TypeExpr::TypeVar { id: *id },
    }
}

/// A copy of a list of types.
pub fn copy_types(ts: &Vec<TypeExpr>) -> (r: Vec<TypeExpr>)
    ensures
        types_view(r@) == types_view(ts@),
    decreases ts,
{
    let mut r: Vec<TypeExpr> = Vec::new();
    let mut i: usize = 0;
    while i < ts.len()
        invariant
            i <= ts@.len(),
            types_view(r@) == types_view(ts@.take(i as int)),
        decreases ts@.len() - i,
    {
        let t = copy_type(&ts[i]);
        let ghost before = r@;
        r.push(t);
        proof {
            assert(r@.drop_last() =~= before);
            assert(ts@.take(i + 1).drop_last() =~= ts@.take(i as int));
        }
        i = i + 1;
    }
    proof {
        assert(ts@.take(i as int) =~= ts@);
    }
    r
}

pub(crate) fn copy_variants(vs: &Vec<EnumVariant>) -> (r: Vec<EnumVariant>)
    ensures
        variants_view(r@) == variants_view(vs@),
    decreases vs,
{
    let mut r: Vec<EnumVariant> = Vec::new();
    let mut i: usize = 0;
    while i < vs.len()
        invariant
            i <= vs@.len(),
            variants_view(r@) == variants_view(vs@.take(i as int)),
        decreases vs@.len() - i,
    {
        let v = EnumVariant { identifier: vs[i].identifier.clone(), payload_types: copy_types(&vs[i].payload_types) };
        let ghost before = r@;
        r.push(v);
        proof {
            assert(r@.drop_last() =~= before);
            assert(vs@.take(i + 1).drop_last() =~= vs@.take(i as int));
        }
        i = i + 1;
    }
    proof {
        assert(vs@.take(i as int) =~= vs@);
    }
    r
}

pub(crate) fn copy_fields(fs: &Vec<(Token, TypeExpr)>) -> (r: Vec<(Token, TypeExpr)>)
    ensures
        fields_view(r@) == fields_view(fs@),
    decreases fs,
{
    let mut r: Vec<(Token, TypeExpr)> = Vec::new();
    let mut i: usize = 0;
    while i < fs.len()
        invariant
            i <= fs@.len(),
            fields_view(r@) == fields_view(fs@.take(i as int)),
        decreases fs@.len() - i,
    {
        let f = (fs[i].0.clone(), copy_type(&fs[i].1));
        let ghost before = r@;
        r.push(f);
        proof {
            assert(r@.drop_last() =~= before);
            assert(fs@.take(i + 1).drop_last() =~= fs@.take(i as int));
        }
        i = i + 1;
    }
    proof {
        assert(fs@.take(i as int) =~= fs@);
    }
    r
}

impl Clone for EnumVariant {
    fn clone(&self) -> (r: EnumVariant)
        ensures
            r.identifier@ == self.identifier@,
            types_view(r.payload_types@) == types_view(self.payload_types@),
    {
        EnumVariant { identifier: self.identifier.clone(), payload_types: copy_types(&self.payload_types) }
    }
}

impl Clone for TypeExpr {
    fn clone(&self) -> (r: TypeExpr)
        ensures
            r@ == self@,
    {
        copy_type(self)
    }
}

} // verus!

verus! {

/// How a type is written in messages: a named type as its name with its
/// type arguments in angle brackets, a function type as its parameter types
/// in parentheses, an arrow and its return type, a tuple type as its
/// element types in parentheses (with a trailing comma when there is one),
/// and a type variable as `?` and its id.
pub open spec fn type_text(t: TypeView) -> Seq<char>
    decreases t,
{
    match t {
        TypeView::Named { identifier, type_arguments, .. } => if type_arguments.len() == 0 {
            identifier.lexeme
        } else {
            identifier.lexeme + seq!['<'] + joined_text(type_arguments) + seq!['>']
        },
        TypeView::Function { parameter_types, return_type } => seq!['('] + joined_text(parameter_types) + seq![
            ')',
            ' ',
            '-',
            '>',
            ' ',
        ] + type_text(*return_type),
        TypeView::Tuple { element_types } => seq!['('] + joined_text(element_types) + (if element_types.len() == 1 {
            seq![',']
        } else {
            Seq::empty()
        }) + seq![')'],
        TypeView::TypeVar { id } => seq!['?'] + decimal(id as nat),
    }
}

/// The texts of `ts`, separated by a comma and a space.
pub open spec fn joined_text(ts: Seq<TypeView>) -> Seq<char>
    decreases ts,
{
    if ts.len() == 0 {
        Seq::empty()
    } else if ts.len() == 1 {
        type_text(ts[0])
    } else {
        joined_text(ts.drop_last()) + seq![',', ' '] + type_text(ts.last())
    }
}

/// Appends the text of `t` to `s`.
pub fn push_type_text(s: &mut String, t: &TypeExpr)
    ensures
        final(s)@ == old(s)@ + type_text(t@),
    decreases t,
{
    match t {
        TypeExpr::Named { identifier, type_arguments, .. } => {
            let ghost s0 = s@;
            proof {
                lemma_types_view_index(type_arguments@);
            }
            push_string(s, &identifier.lexeme);
            if type_arguments.len() > 0 {
                s.push('<');
                push_joined_text(s, type_arguments);
                s.push('>');
                proof {
                    assert(s@ =~= s0 + type_text(t@));
                }
            } else {
                proof {
                    assert(s@ =~= s0 + type_text(t@));
                }
            }
        },
        TypeExpr::Function { parameter_types, return_type } => {
            s.push('(');
            push_joined_text(s, parameter_types);
            s.push(')');
            s.push(' ');
            s.push('-');
            s.push('>');
            s.push(' ');
            push_type_text(s, return_type);
            proof {
                assert(s@ =~= old(s)@ + type_text(t@));
            }
        },
        TypeExpr::Tuple { element_types } => {
            proof {
                lemma_types_view_index(element_types@);
            }
            s.push('(');
            push_joined_text(s, element_types);
            if element_types.len() == 1 {
                s.push(',');
            }
            s.push(')');
            proof {
                assert(s@ =~= old(s)@ + type_text(t@));
            }
        },
        TypeExpr::TypeVar { id } => {
            s.push('?');
            push_decimal(s, *id as u64);
            proof {
                assert(s@ =~= old(s)@ + type_text(t@));
            }
        },
    }
}

fn push_joined_text(s: &mut String, ts: &Vec<TypeExpr>)
    ensures
        final(s)@ == old(s)@ + joined_text(types_view(ts@)),
    decreases ts,
{
    let ghost s0 = s@;
    let ghost xs = types_view(ts@);
    proof {
        lemma_types_view_index(ts@);
        assert(xs.take(0) =~= Seq::<TypeView>::empty());
        assert(s@ =~= s0 + joined_text(xs.take(0)));
    }
    let mut i: usize = 0;
    while i < ts.len()
        invariant
            i <= ts@.len(),
            xs == types_view(ts@),
            xs.len() == ts@.len(),
            forall|j: int| 0 <= j < ts@.len() ==> #[trigger] xs[j] == ts@[j]@,
            s@ == s0 + joined_text(xs.take(i as int)),
        decreases ts@.len() - i,
    {
        let ghost before = s@;
        if i > 0 {
            s.push(',');
            s.push(' ');
        }
        push_type_text(s, &ts[i]);
        proof {
            let p = xs.take(i + 1);
            assert(p.drop_last() =~= xs.take(i as int));
            assert(p.last() == xs[i as int]);
            if i == 0 {
                assert(p.len() == 1);
                assert(p[0] == xs[0]);
                assert(s@ =~= s0 + joined_text(p));
            } else {
                assert(joined_text(p) == joined_text(xs.take(i as int)) + seq![',', ' '] + type_text(xs[i as int]));
                assert(s@ =~= s0 + joined_text(p));
            }
        }
        i = i + 1;
    }
    proof {
        assert(xs.take(i as int) =~= xs);
    }
}

impl TypeExpr {
    /// How this type is written in messages.
    pub fn to_string(&self) -> (s: String)
        ensures
            s@ == type_text(self@),
    {
        let mut s = String::new();
        push_type_text(&mut s, self);
        proof {
            assert(s@ =~= type_text(self@));
        }
        s
    }
}

} // verus!
