use vstd::prelude::*;
use std::collections::HashMap;
use crate::error::TypeError;
use crate::token::{Token, TokenType, TokenView};
use crate::types::{copy_type, lemma_types_view_index, type_view, types_view, TypeExpr, TypeView};
use crate::unifier::{vars_below, Unifier};

verus! {

broadcast use vstd::std_specs::hash::group_hash_axioms;

/// The position of the first of `names` equal to `name`, if any.
pub open spec fn first_position(names: Seq<Seq<char>>, name: Seq<char>) -> Option<nat>
    decreases names.len(),
{
    if names.len() == 0 {
        None
    } else if names[0] == name {
        Some(0)
    } else {
        match first_position(names.skip(1), name) {
            Some(p) => Some(p + 1),
            None => None,
        }
    }
}

/// The lexemes of a list of tokens.
pub open spec fn lexemes(ts: Seq<Token>) -> Seq<Seq<char>> {
    ts.map_values(|t: Token| t.lexeme@)
}

/// `t` with each named type whose name is one of `params` replaced by the
/// argument at the position of the first such parameter.
pub open spec fn substituted(t: TypeView, params: Seq<Seq<char>>, args: Seq<TypeView>) -> TypeView
    decreases t,
{
    match t {
        TypeView::Named { identifier, type_parameters, type_arguments, enum_variants, struct_fields } => {
            match first_position(params, identifier.lexeme) {
                Some(p) => args[p as int],
                None => TypeView::Named {
                    identifier,
                    type_parameters,
                    type_arguments: substituted_seq(type_arguments, params, args),
                    enum_variants,
                    struct_fields,
                },
            }
        },
        TypeView::Function { parameter_types, return_type } => TypeView::Function {
            parameter_types: substituted_seq(parameter_types, params, args),
            return_type: Box::new(substituted(*return_type, params, args)),
        },
        TypeView::Tuple { element_types } => TypeView::Tuple { element_types: substituted_seq(element_types, params, args) },
        TypeView::TypeVar { .. } => t,
    }
}

pub open spec fn substituted_seq(ts: Seq<TypeView>, params: Seq<Seq<char>>, args: Seq<TypeView>) -> Seq<TypeView>
    decreases ts,
{
    if ts.len() == 0 {
        Seq::empty()
    } else {
        substituted_seq(ts.drop_last(), params, args).push(substituted(ts.last(), params, args))
    }
}

/// Every parameter the substitution reaches in `t` has an argument.
pub open spec fn arguments_cover(t: TypeView, params: Seq<Seq<char>>, n_args: nat) -> bool
    decreases t,
{
    match t {
        TypeView::Named { identifier, type_arguments, .. } => match first_position(params, identifier.lexeme) {
            Some(p) => p < n_args,
            None => arguments_cover_seq(type_arguments, params, n_args),
        },
        TypeView::Function { parameter_types, return_type } => arguments_cover_seq(parameter_types, params, n_args)
            && arguments_cover(*return_type, params, n_args),
        TypeView::Tuple { element_types } => arguments_cover_seq(element_types, params, n_args),
        TypeView::TypeVar { .. } => true,
    }
}

pub open spec fn arguments_cover_seq(ts: Seq<TypeView>, params: Seq<Seq<char>>, n_args: nat) -> bool
    decreases ts,
{
    if ts.len() == 0 {
        true
    } else {
        arguments_cover_seq(ts.drop_last(), params, n_args) && arguments_cover(ts.last(), params, n_args)
    }
}

proof fn lemma_cover_seq_index(ts: Seq<TypeView>, params: Seq<Seq<char>>, n_args: nat, i: int)
    requires
        arguments_cover_seq(ts, params, n_args),
        0 <= i < ts.len(),
    ensures
        arguments_cover(ts[i], params, n_args),
    decreases ts.len(),
{
    if i < ts.len() - 1 {
        lemma_cover_seq_index(ts.drop_last(), params, n_args, i);
    }
}

/// The position of the first of `params` whose lexeme is `name`.
fn position_of(params: &Vec<Token>, name: &String) -> (r: Option<usize>)
    ensures
        r matches Some(p) ==> first_position(lexemes(params@), name@) == Some(p as nat),
        r is None ==> first_position(lexemes(params@), name@) is None,
{
    let ghost names = lexemes(params@);
    proof {
        assert(names.skip(0) =~= names);
    }
    let mut i: usize = 0;
    while i < params.len()
        invariant
            i <= params@.len(),
            names == lexemes(params@),
            names.len() == params@.len(),
            first_position(names, name@) == (match first_position(names.skip(i as int), name@) {
                Some(p) => Some((p + i) as nat),
                None => None::<nat>,
            }),
        decreases params@.len() - i,
    {
        proof {
            assert(names.skip(i as int)[0] == params@[i as int].lexeme@);
            assert(names.skip(i as int).skip(1) =~= names.skip(i + 1));
        }
        if params[i].lexeme == *name {
            return Some(i);
        }
        i = i + 1;
    }
    proof {
        assert(names.skip(i as int).len() == 0);
    }
    None
}

/// `t` with each named type whose name is one of `type_parameters`
/// replaced by the type argument at the same position.
pub fn substitute_type_parameters(t: &TypeExpr, type_parameters: &Vec<Token>, type_arguments: &Vec<TypeExpr>) -> (r:
    TypeExpr)
    requires
        arguments_cover(t@, lexemes(type_parameters@), type_arguments@.len()),
    ensures
        r@ == substituted(t@, lexemes(type_parameters@), types_view(type_arguments@)),
    decreases t,
{
    proof {
        lemma_types_view_index(type_arguments@);
    }
    match t {
        TypeExpr::Named { identifier, type_arguments: inner, .. } => {
            match position_of(type_parameters, &identifier.lexeme) {
                Some(p) => copy_type(&type_arguments[p]),
                None => {
                    let args = substitute_all(inner, type_parameters, type_arguments);
                    let t2 = copy_type(t);
                    match t2 {
                        TypeExpr::Named { identifier, type_parameters, type_arguments: _, enum_variants, struct_fields } => {
                            TypeExpr::Named { identifier, type_parameters, type_arguments: args, enum_variants, struct_fields }
                        },
                        _ => {
                            proof {
                                assert(false);
                            }
                            t2
                        },
                    }
                },
            }
        },
        TypeExpr::Function { parameter_types, return_type } => TypeExpr::Function {
            parameter_types: substitute_all(parameter_types, type_parameters, type_arguments),
            return_type: Box::new(substitute_type_parameters(return_type, type_parameters, type_arguments)),
        },
        TypeExpr::Tuple { element_types } => TypeExpr::Tuple {
            element_types: substitute_all(element_types, type_parameters, type_arguments),
        },
        TypeExpr::TypeVar { id } => TypeExpr::TypeVar { id: *id },
    }
}

fn substitute_all(ts: &Vec<TypeExpr>, type_parameters: &Vec<Token>, type_arguments: &Vec<TypeExpr>) -> (r: Vec<TypeExpr>)
    requires
        arguments_cover_seq(types_view(ts@), lexemes(type_parameters@), type_arguments@.len()),
    ensures
        types_view(r@) == substituted_seq(types_view(ts@), lexemes(type_parameters@), types_view(type_arguments@)),
    decreases ts,
{
    let ghost xs = types_view(ts@);
    let ghost params = lexemes(type_parameters@);
    let ghost args = types_view(type_arguments@);
    proof {
        lemma_types_view_index(ts@);
        assert(xs.take(0) =~= Seq::<TypeView>::empty());
    }
    let mut r: Vec<TypeExpr> = Vec::new();
    let mut i: usize = 0;
    while i < ts.len()
        invariant
            i <= ts@.len(),
            xs == types_view(ts@),
            params == lexemes(type_parameters@),
            args == types_view(type_arguments@),
            xs.len() == ts@.len(),
            forall|j: int| 0 <= j < ts@.len() ==> #[trigger] xs[j] == ts@[j]@,
            arguments_cover_seq(xs, params, type_arguments@.len()),
            types_view(r@) == substituted_seq(xs.take(i as int), params, args),
        decreases ts@.len() - i,
    {
        proof {
            lemma_cover_seq_index(xs, params, type_arguments@.len(), i as int);
        }
        let t = substitute_type_parameters(&ts[i], type_parameters, type_arguments);
        let ghost before = r@;
        r.push(t);
        proof {
            let p = xs.take(i + 1);
            assert(p.drop_last() =~= xs.take(i as int));
            assert(p.last() == xs[i as int]);
            assert(r@.drop_last() =~= before);
        }
        i = i + 1;
    }
    proof {
        assert(xs.take(i as int) =~= xs);
    }
    r
}

/// `t` with each type variable that `subs` maps replaced by what it maps it
/// to (once, not over and over), inside type arguments, parameter and return
/// types and tuple elements.
pub open spec fn substituted_vars(t: TypeView, subs: Map<usize, TypeView>) -> TypeView
    decreases t,
{
    match t {
        TypeView::TypeVar { id } => if subs.contains_key(id) {
            subs[id]
        } else {
            t
        },
        TypeView::Named { identifier, type_parameters, type_arguments, enum_variants, struct_fields } => TypeView::Named {
            identifier,
            type_parameters,
            type_arguments: substituted_vars_seq(type_arguments, subs),
            enum_variants,
            struct_fields,
        },
        TypeView::Function { parameter_types, return_type } => TypeView::Function {
            parameter_types: substituted_vars_seq(parameter_types, subs),
            return_type: Box::new(substituted_vars(*return_type, subs)),
        },
        TypeView::Tuple { element_types } => TypeView::Tuple { element_types: substituted_vars_seq(element_types, subs) },
    }
}

pub open spec fn substituted_vars_seq(ts: Seq<TypeView>, subs: Map<usize, TypeView>) -> Seq<TypeView>
    decreases ts,
{
    if ts.len() == 0 {
        Seq::empty()
    } else {
        substituted_vars_seq(ts.drop_last(), subs).push(substituted_vars(ts.last(), subs))
    }
}

/// The types a map of substitutions maps to, by their values.
pub open spec fn subs_view(subs: Map<usize, TypeExpr>) -> Map<usize, TypeView> {
    subs.map_values(|t: TypeExpr| t@)
}

/// `t` with each type variable that `substitutions` maps replaced by what
/// it maps it to.
pub fn substitute_typevars(t: &TypeExpr, substitutions: &HashMap<usize, TypeExpr>) -> (r: TypeExpr)
    ensures
        r@ == substituted_vars(t@, subs_view(substitutions@)),
    decreases t,
{
    match t {
        TypeExpr::TypeVar { id } => match substitutions.get(id) {
            Some(s) => copy_type(s),
            None => TypeExpr::TypeVar { id: *id },
        },
        TypeExpr::Named { type_arguments, .. } => {
            let args = substitute_typevars_all(type_arguments, substitutions);
            let t2 = copy_type(t);
            match t2 {
                TypeExpr::Named { identifier, type_parameters, type_arguments: _, enum_variants, struct_fields } => {
                    TypeExpr::Named { identifier, type_parameters, type_arguments: args, enum_variants, struct_fields }
                },
                _ => {
                    proof {
                        assert(false);
                    }
                    t2
                },
            }
        },
        TypeExpr::Function { parameter_types, return_type } => TypeExpr::Function {
            parameter_types: substitute_typevars_all(parameter_types, substitutions),
            return_type: Box::new(substitute_typevars(return_type, substitutions)),
        },
        TypeExpr::Tuple { element_types } => TypeExpr::Tuple {
            element_types: substitute_typevars_all(element_types, substitutions),
        },
    }
}

fn substitute_typevars_all(ts: &Vec<TypeExpr>, substitutions: &HashMap<usize, TypeExpr>) -> (r: Vec<TypeExpr>)
    ensures
        types_view(r@) == substituted_vars_seq(types_view(ts@), subs_view(substitutions@)),
    decreases ts,
{
    let ghost xs = types_view(ts@);
    let ghost subs = subs_view(substitutions@);
    proof {
        lemma_types_view_index(ts@);
        assert(xs.take(0) =~= Seq::<TypeView>::empty());
    }
    let mut r: Vec<TypeExpr> = Vec::new();
    let mut i: usize = 0;
    while i < ts.len()
        invariant
            i <= ts@.len(),
            xs == types_view(ts@),
            subs == subs_view(substitutions@),
            xs.len() == ts@.len(),
            forall|j: int| 0 <= j < ts@.len() ==> #[trigger] xs[j] == ts@[j]@,
            types_view(r@) == substituted_vars_seq(xs.take(i as int), subs),
        decreases ts@.len() - i,
    {
        let t = substitute_typevars(&ts[i], substitutions);
        let ghost before = r@;
        r.push(t);
        proof {
            let p = xs.take(i + 1);
            assert(p.drop_last() =~= xs.take(i as int));
            assert(p.last() == xs[i as int]);
            assert(r@.drop_last() =~= before);
        }
        i = i + 1;
    }
    proof {
        assert(xs.take(i as int) =~= xs);
    }
    r
}

/// The named type `name` with the given type arguments, written at `line`
/// and `column`, carrying no declaration.
pub open spec fn named_type(name: Seq<char>, line: u32, column: u32, args: Seq<TypeView>) -> TypeView {
    TypeView::Named {
        identifier: TokenView { token_type: TokenType::Identifier, lexeme: name, literal: None, line, column },
        type_parameters: None,
        type_arguments: args,
        enum_variants: None,
        struct_fields: None,
    }
}

/// The named type `lexeme` with the given type arguments, written at
/// `line` and `column`.
pub fn create_type(lexeme: String, line: u32, column: u32, type_arguments: Vec<TypeExpr>) -> (r: TypeExpr)
    ensures
        r@ == named_type(lexeme@, line, column, types_view(type_arguments@)),
{
    TypeExpr::Named {
        identifier: Token { token_type: TokenType::Identifier, lexeme, literal: None, line, column },
        type_parameters: None,
        type_arguments,
        enum_variants: None,
        struct_fields: None,
    }
}

/// The type `Array` of elements of `element_type`.
pub fn create_array_type(line: u32, column: u32, element_type: TypeExpr) -> (r: TypeExpr)
    ensures
        r@ == named_type("Array"@, line, column, seq![element_type@]),
{
    let ghost e = element_type@;
    let mut args: Vec<TypeExpr> = Vec::new();
    args.push(element_type);
    proof {
        lemma_types_view_index(args@);
        assert(types_view(args@) =~= seq![e]);
    }
    create_type("Array".to_owned(), line, column, args)
}

/// The type `Map` from `key_type` to `value_type`.
pub fn create_map_type(line: u32, column: u32, key_type: TypeExpr, value_type: TypeExpr) -> (r: TypeExpr)
    ensures
        r@ == named_type("Map"@, line, column, seq![key_type@, value_type@]),
{
    let ghost k = key_type@;
    let ghost v = value_type@;
    let mut args: Vec<TypeExpr> = Vec::new();
    args.push(key_type);
    args.push(value_type);
    proof {
        lemma_types_view_index(args@);
        assert(types_view(args@) =~= seq![k, v]);
    }
    create_type("Map".to_owned(), line, column, args)
}

/// The type `Range` (or `InclusiveRange`) over bounds of `bounds_type`.
pub fn create_range_type(line: u32, column: u32, bounds_type: TypeExpr, inclusive: bool) -> (r: TypeExpr)
    ensures
        r@ == named_type(if inclusive { "InclusiveRange"@ } else { "Range"@ }, line, column, seq![bounds_type@]),
{
    let ghost b = bounds_type@;
    let mut args: Vec<TypeExpr> = Vec::new();
    args.push(bounds_type);
    proof {
        lemma_types_view_index(args@);
        assert(types_view(args@) =~= seq![b]);
    }
    let name = if inclusive { "InclusiveRange".to_owned() } else { "Range".to_owned() };
    create_type(name, line, column, args)
}

/// The primitive type `name` (`Int`, `Double`, `String`, `Bool` or `Void`).
pub fn create_primitive_type(name: &str, line: u32, column: u32) -> (r: TypeExpr)
    ensures
        r@ == named_type(name@, line, column, Seq::empty()),
{
    let args: Vec<TypeExpr> = Vec::new();
    proof {
        assert(types_view(args@) =~= Seq::<TypeView>::empty());
    }
    create_type(name.to_owned(), line, column, args)
}

/// Whether a type can key a map: `Int`, `Double`, `Bool` or `String`, with
/// no type arguments.
pub open spec fn valid_map_key(t: TypeView) -> bool {
    match t {
        TypeView::Named { identifier, type_arguments, .. } => type_arguments.len() == 0 && (identifier.lexeme == "Int"@
            || identifier.lexeme == "Double"@ || identifier.lexeme == "Bool"@ || identifier.lexeme == "String"@),
        _ => false,
    }
}

/// Checks that `key_type`, once the substitution is applied, can key a map;
/// the error is reported at `error_token` and carries the resolved type.
pub fn validate_map_key_type(unifier: &Unifier, key_type: &TypeExpr, error_token: &Token) -> (r: Result<(), TypeError>)
    requires
        unifier.wf(),
    ensures
        r is Ok <==> valid_map_key(unifier.resolved(key_type@)),
        r matches Err(e) ==> (e matches TypeError::InvalidMapKeyType { line, column, key_type: k } && line
            == error_token.line && column == error_token.column && k@ == unifier.resolved(key_type@)),
{
    let resolved = unifier.apply_substitutions(key_type);
    let ok = match &resolved {
        TypeExpr::Named { identifier, type_arguments, .. } => {
            proof {
                lemma_types_view_index(type_arguments@);
            }
            type_arguments.len() == 0 && (crate::c_names::same_text(&identifier.lexeme, "Int")
                || crate::c_names::same_text(&identifier.lexeme, "Double") || crate::c_names::same_text(
                &identifier.lexeme,
                "Bool",
            ) || crate::c_names::same_text(&identifier.lexeme, "String"))
        },
        _ => false,
    };
    if ok {
        Ok(())
    } else {
        Err(TypeError::InvalidMapKeyType { line: error_token.line, column: error_token.column, key_type: resolved })
    }
}

} // verus!

verus! {

/// The pairs of a list of bindings, by their values.
pub open spec fn bindings_view(m: Seq<(String, TypeExpr)>) -> Seq<(Seq<char>, TypeView)> {
    m.map_values(|b: (String, TypeExpr)| (b.0@, b.1@))
}

/// Whether `name` is bound in `m`.
pub open spec fn has_binding(m: Seq<(Seq<char>, TypeView)>, name: Seq<char>) -> bool {
    exists|i: int| 0 <= i < m.len() && #[trigger] m[i].0 == name
}

/// The bindings `m` extended, left to right, by matching the parameter type
/// `p` against the actual type `a`: a named type without type arguments
/// whose name is one of `params` is bound to `a` unless already bound; named
/// types match their type arguments pairwise, function types their
/// parameter types pairwise and then their return types; nothing else
/// matches.
pub open spec fn matched(m: Seq<(Seq<char>, TypeView)>, p: TypeView, a: TypeView, params: Seq<Seq<char>>) -> Seq<
    (Seq<char>, TypeView),
>
    decreases p,
{
    match p {
        TypeView::Named { identifier, type_arguments: pargs, .. } => {
            if pargs.len() == 0 && params.contains(identifier.lexeme) {
                if has_binding(m, identifier.lexeme) {
                    m
                } else {
                    m.push((identifier.lexeme, a))
                }
            } else {
                match a {
                    TypeView::Named { type_arguments: aargs, .. } => matched_seq(m, pargs, aargs, params),
                    _ => m,
                }
            }
        },
        TypeView::Function { parameter_types: pp, return_type: pr } => match a {
            TypeView::Function { parameter_types: ap, return_type: ar } => matched(
                matched_seq(m, pp, ap, params),
                *pr,
                *ar,
                params,
            ),
            _ => m,
        },
        _ => m,
    }
}

/// `m` extended by matching `ps` against `as_` pairwise, left to right, as
/// far as the shorter list goes.
pub open spec fn matched_seq(
    m: Seq<(Seq<char>, TypeView)>,
    ps: Seq<TypeView>,
    as_: Seq<TypeView>,
    params: Seq<Seq<char>>,
) -> Seq<(Seq<char>, TypeView)>
    decreases ps,
{
    if ps.len() == 0 || as_.len() == 0 {
        m
    } else {
        matched_seq(matched(m, ps[0], as_[0], params), ps.skip(1), as_.skip(1), params)
    }
}

fn has_binding_exec(m: &Vec<(String, TypeExpr)>, name: &String) -> (b: bool)
    ensures
        b == has_binding(bindings_view(m@), name@),
{
    let ghost mv = bindings_view(m@);
    let mut i: usize = 0;
    while i < m.len()
        invariant
            i <= m@.len(),
            mv == bindings_view(m@),
            mv.len() == m@.len(),
            forall|j: int| 0 <= j < i ==> #[trigger] mv[j].0 != name@,
        decreases m@.len() - i,
    {
        if m[i].0 == *name {
            proof {
                assert(mv[i as int].0 == name@);
            }
            return true;
        }
        i = i + 1;
    }
    false
}

fn contains_name(params: &[String], name: &String) -> (b: bool)
    ensures
        b == params@.map_values(|s: String| s@).contains(name@),
{
    let ghost ps = params@.map_values(|s: String| s@);
    let mut i: usize = 0;
    while i < params.len()
        invariant
            i <= params@.len(),
            ps == params@.map_values(|s: String| s@),
            forall|j: int| 0 <= j < i ==> #[trigger] ps[j] != name@,
        decreases params@.len() - i,
    {
        if params[i] == *name {
            proof {
                assert(ps[i as int] == name@);
            }
            return true;
        }
        i = i + 1;
    }
    false
}

/// Extends `mapping` by matching the parameter type `param_type` against
/// the actual type `actual_type`, binding the type parameters named in
/// `type_params` to the types they stand against.
pub fn match_type_params(
    param_type: &TypeExpr,
    actual_type: &TypeExpr,
    type_params: &[String],
    mapping: &mut Vec<(String, TypeExpr)>,
)
    ensures
        bindings_view(final(mapping)@) == matched(
            bindings_view(old(mapping)@),
            param_type@,
            actual_type@,
            type_params@.map_values(|s: String| s@),
        ),
    decreases param_type,
{
    let ghost params = type_params@.map_values(|s: String| s@);
    match param_type {
        TypeExpr::Named { identifier, type_arguments: pargs, .. } => {
            proof {
                lemma_types_view_index(pargs@);
            }
            if pargs.len() == 0 && contains_name(type_params, &identifier.lexeme) {
                if !has_binding_exec(mapping, &identifier.lexeme) {
                    let ghost before = mapping@;
                    mapping.push((identifier.lexeme.clone(), copy_type(actual_type)));
                    proof {
                        assert(bindings_view(mapping@) =~= bindings_view(before).push(
                            (identifier.lexeme@, actual_type@),
                        ));
                    }
                }
                return;
            }
            match actual_type {
                TypeExpr::Named { type_arguments: aargs, .. } => {
                    match_type_params_all(pargs, aargs, type_params, mapping);
                },
                _ => {},
            }
        },
        TypeExpr::Function { parameter_types: pp, return_type: pr } => {
            match actual_type {
                TypeExpr::Function { parameter_types: ap, return_type: ar } => {
                    match_type_params_all(pp, ap, type_params, mapping);
                    match_type_params(pr, ar, type_params, mapping);
                },
                _ => {},
            }
        },
        _ => {},
    }
}

fn match_type_params_all(ps: &Vec<TypeExpr>, as_: &Vec<TypeExpr>, type_params: &[String], mapping: &mut Vec<(String, TypeExpr)>)
    ensures
        bindings_view(final(mapping)@) == matched_seq(
            bindings_view(old(mapping)@),
            types_view(ps@),
            types_view(as_@),
            type_params@.map_values(|s: String| s@),
        ),
    decreases ps,
{
    let ghost params = type_params@.map_values(|s: String| s@);
    let ghost xs = types_view(ps@);
    let ghost ys = types_view(as_@);
    let ghost goal = matched_seq(bindings_view(mapping@), xs, ys, params);
    proof {
        lemma_types_view_index(ps@);
        lemma_types_view_index(as_@);
        assert(xs.skip(0) =~= xs);
        assert(ys.skip(0) =~= ys);
    }
    let mut i: usize = 0;
    while i < ps.len() && i < as_.len()
        invariant
            i <= ps@.len(),
            i <= as_@.len(),
            xs == types_view(ps@),
            ys == types_view(as_@),
            params == type_params@.map_values(|s: String| s@),
            xs.len() == ps@.len(),
            ys.len() == as_@.len(),
            forall|j: int| 0 <= j < ps@.len() ==> #[trigger] xs[j] == ps@[j]@,
            forall|j: int| 0 <= j < as_@.len() ==> #[trigger] ys[j] == as_@[j]@,
            matched_seq(bindings_view(mapping@), xs.skip(i as int), ys.skip(i as int), params) == goal,
        decreases ps@.len() - i,
    {
        proof {
            assert(xs.skip(i as int)[0] == xs[i as int]);
            assert(ys.skip(i as int)[0] == ys[i as int]);
            assert(xs.skip(i as int).skip(1) =~= xs.skip(i + 1));
            assert(ys.skip(i as int).skip(1) =~= ys.skip(i + 1));
        }
        match_type_params(&ps[i], &as_[i], type_params, mapping);
        i = i + 1;
    }
    proof {
        assert(xs.skip(i as int).len() == 0 || ys.skip(i as int).len() == 0);
    }
}

} // verus!

verus! {

/// The built-in calls the type checker recognizes by name.
#[derive(Debug, Clone, Copy, PartialEq, Eq, Structural)]
pub enum BuiltinCallType {
    ArrayLiteral,
    RangeLiteral { is_inclusive: bool },
    MapLiteral,
    MapCall,
    Filter,
    Foldl,
    Foldr,
    Print,
}

/// The built-in call a callee name denotes, if any.
pub open spec fn builtin_of(name: Seq<char>) -> Option<BuiltinCallType> {
    if name == "Array"@ {
        Some(BuiltinCallType::ArrayLiteral)
    } else if name == "Range"@ {
        Some(BuiltinCallType::RangeLiteral { is_inclusive: false })
    } else if name == "InclusiveRange"@ {
        Some(BuiltinCallType::RangeLiteral { is_inclusive: true })
    } else if name == "Map"@ {
        Some(BuiltinCallType::MapLiteral)
    } else if name == "print"@ {
        Some(BuiltinCallType::Print)
    } else if name == "map"@ {
        Some(BuiltinCallType::MapCall)
    } else if name == "filter"@ {
        Some(BuiltinCallType::Filter)
    } else if name == "foldl"@ {
        Some(BuiltinCallType::Foldl)
    } else if name == "foldr"@ {
        Some(BuiltinCallType::Foldr)
    } else {
        None
    }
}

/// The built-in call the callee name `name` denotes, if any.
pub fn builtin_call_type(name: &str) -> (r: Option<BuiltinCallType>)
    ensures
        r == builtin_of(name@),
{
    let t = name.to_owned();
    if crate::c_names::same_text(&t, "Array") {
        Some(BuiltinCallType::ArrayLiteral)
    } else if crate::c_names::same_text(&t, "Range") {
        Some(BuiltinCallType::RangeLiteral { is_inclusive: false })
    } else if crate::c_names::same_text(&t, "InclusiveRange") {
        Some(BuiltinCallType::RangeLiteral { is_inclusive: true })
    } else if crate::c_names::same_text(&t, "Map") {
        Some(BuiltinCallType::MapLiteral)
    } else if crate::c_names::same_text(&t, "print") {
        Some(BuiltinCallType::Print)
    } else if crate::c_names::same_text(&t, "map") {
        Some(BuiltinCallType::MapCall)
    } else if crate::c_names::same_text(&t, "filter") {
        Some(BuiltinCallType::Filter)
    } else if crate::c_names::same_text(&t, "foldl") {
        Some(BuiltinCallType::Foldl)
    } else if crate::c_names::same_text(&t, "foldr") {
        Some(BuiltinCallType::Foldr)
    } else {
        None
    }
}

/// The number of arguments a built-in call expects where it is wrong, for
/// `found` arguments: a range takes two, a map literal an even number,
/// `print` one, `map` and `filter` two, the folds three; an array literal
/// takes any number.
pub open spec fn expected_argument_count(kind: BuiltinCallType, found: nat) -> Option<nat> {
    match kind {
        BuiltinCallType::ArrayLiteral => None,
        BuiltinCallType::RangeLiteral { .. } => if found != 2 { Some(2) } else { None },
        BuiltinCallType::MapLiteral => if found % 2 != 0 { Some(found + 1) } else { None },
        BuiltinCallType::Print => if found != 1 { Some(1) } else { None },
        BuiltinCallType::MapCall | BuiltinCallType::Filter => if found != 2 { Some(2) } else { None },
        BuiltinCallType::Foldl | BuiltinCallType::Foldr => if found != 3 { Some(3) } else { None },
    }
}

/// The error for a built-in call of kind `kind` with `found` arguments,
/// reported at `paren`, if the count is wrong.
pub fn check_builtin_argument_count(kind: BuiltinCallType, found: usize, paren: &Token) -> (r: Option<TypeError>)
    requires
        found < usize::MAX,
    ensures
        match expected_argument_count(kind, found as nat) {
            None => r is None,
            Some(n) => r matches Some(TypeError::ArgumentCountMismatch { line, column, expected, found: f }) && line
                == paren.line && column == paren.column && expected == n && f == found,
        },
{
    let expected: Option<usize> = match kind {
        BuiltinCallType::ArrayLiteral => None,
        BuiltinCallType::RangeLiteral { .. } => if found != 2 { Some(2) } else { None },
        BuiltinCallType::MapLiteral => if found % 2 != 0 { Some(found + 1) } else { None },
        BuiltinCallType::Print => if found != 1 { Some(1) } else { None },
        BuiltinCallType::MapCall | BuiltinCallType::Filter => if found != 2 { Some(2) } else { None },
        BuiltinCallType::Foldl | BuiltinCallType::Foldr => if found != 3 { Some(3) } else { None },
    };
    match expected {
        None => None,
        Some(n) => Some(TypeError::ArgumentCountMismatch { line: paren.line, column: paren.column, expected: n, found }),
    }
}

} // verus!

verus! {

proof fn lemma_first_position_bound(names: Seq<Seq<char>>, name: Seq<char>)
    ensures
        first_position(names, name) matches Some(p) ==> p < names.len(),
    decreases names.len(),
{
    if names.len() > 0 && names[0] != name {
        lemma_first_position_bound(names.skip(1), name);
    }
}

/// With an argument for every parameter, every parameter the substitution
/// reaches has one.
pub proof fn lemma_full_arguments_cover(t: TypeView, params: Seq<Seq<char>>)
    ensures
        arguments_cover(t, params, params.len()),
    decreases t,
{
    match t {
        TypeView::Named { identifier, type_arguments, .. } => {
            lemma_first_position_bound(params, identifier.lexeme);
            lemma_full_arguments_cover_seq(type_arguments, params);
        },
        TypeView::Function { parameter_types, return_type } => {
            lemma_full_arguments_cover_seq(parameter_types, params);
            lemma_full_arguments_cover(*return_type, params);
        },
        TypeView::Tuple { element_types } => lemma_full_arguments_cover_seq(element_types, params),
        TypeView::TypeVar { .. } => {},
    }
}

proof fn lemma_full_arguments_cover_seq(ts: Seq<TypeView>, params: Seq<Seq<char>>)
    ensures
        arguments_cover_seq(ts, params, params.len()),
    decreases ts,
{
    if ts.len() > 0 {
        lemma_full_arguments_cover_seq(ts.drop_last(), params);
        lemma_full_arguments_cover(ts.last(), params);
    }
}

} // verus!
