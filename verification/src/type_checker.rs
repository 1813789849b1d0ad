use vstd::prelude::*;
use std::collections::HashMap;
use crate::ast::{Expr, FunctionStmt, MatchCase, Pattern, Stmt, VariableBinding};
use crate::c_names::same_text;
use crate::check_rules::{
    check_condition, check_literal, check_loop_control, field_access_type, for_in_element_type, if_expression_type,
    index_access_type, named_as, time_travel_type, variable_type,
};
use crate::error::TypeError;
use crate::renaming::{field_type_vars, seq_type_vars, type_vars};
use crate::token::{Token, TokenType};
use crate::type_env::{SymbolTable, TypeEnvironment};
use crate::type_ops::{
    builtin_call_type, builtin_of, check_builtin_argument_count, create_array_type, create_map_type,
    create_primitive_type, create_range_type, lemma_full_arguments_cover, lexemes, match_type_params,
    substitute_type_parameters, substitute_typevars, substituted, validate_map_key_type, named_type, BuiltinCallType,
};
use crate::type_rules::{check_binary_operation, check_logical_operation, check_unary_operation};
use crate::types::{
    copy_type, copy_types, copy_variants, fields_view, lemma_fields_view_index, lemma_types_view_index, types_view,
    variants_view, lemma_variants_view_index,
    EnumVariant, TypeExpr, TypeView,
};
use crate::unifier::{extends, heads_clash, lemma_ids_below_len, shape, var_in, var_in_seq, vars_below, Subst, Unifier};

verus! {

/// The most type variables a check may issue.  Twice this still fits in a
/// `usize`, so instantiating a type below it cannot overflow the counter.
const TYPE_VARIABLE_LIMIT: usize = usize::MAX / 4;

/// Some type variable of `t` is at or past the limit of type variables.
spec fn reaches_limit(t: TypeView) -> bool {
    exists|v: usize| #[trigger] type_vars(t).contains(v) && v >= TYPE_VARIABLE_LIMIT
}

/// Instantiating `t` after `issued` type variables would pass the limit:
/// some type variable `v` of `t` is past it, or the variables up to `v`
/// and the fresh ones for `t` would not fit under it.
spec fn instantiation_overflows(t: TypeView, issued: nat) -> bool {
    exists|v: usize|
        #[trigger] type_vars(t).contains(v) && (v + 1 > TYPE_VARIABLE_LIMIT || (if issued < v + 1 {
            (v + 1) as nat
        } else {
            issued
        }) + v + 1 > TYPE_VARIABLE_LIMIT)
}

/// Every type variable of `t`, wherever `type_vars` finds it, is below `n`.
pub open spec fn type_vars_below(t: TypeView, n: nat) -> bool {
    forall|v: usize| #[trigger] type_vars(t).contains(v) ==> v < n
}

proof fn lemma_var_in_type_vars(v: usize, t: TypeView)
    ensures
        var_in(v, t) ==> type_vars(t).contains(v),
    decreases t,
{
    match t {
        TypeView::Named { type_arguments, .. } => lemma_var_in_seq_type_vars(v, type_arguments),
        TypeView::Function { parameter_types, return_type } => {
            lemma_var_in_seq_type_vars(v, parameter_types);
            lemma_var_in_type_vars(v, *return_type);
        },
        TypeView::Tuple { element_types } => lemma_var_in_seq_type_vars(v, element_types),
        TypeView::TypeVar { .. } => {},
    }
}

proof fn lemma_var_in_seq_type_vars(v: usize, ts: Seq<TypeView>)
    ensures
        var_in_seq(v, ts) ==> seq_type_vars(ts).contains(v),
    decreases ts,
{
    if ts.len() > 0 {
        lemma_var_in_seq_type_vars(v, ts.drop_last());
        lemma_var_in_type_vars(v, ts.last());
    }
}

/// A type whose type variables are all below `n` has its variables, in the
/// unifier's sense, below `n` too.
proof fn lemma_below_vars(t: TypeView, n: nat)
    requires
        type_vars_below(t, n),
    ensures
        vars_below(t, n),
{
    assert forall|v: usize| var_in(v, t) implies v < n by {
        lemma_var_in_type_vars(v, t);
    }
}

fn larger(a: usize, b: usize) -> (r: usize)
    ensures
        r >= a,
        r >= b,
        r == a || r == b,
{
    if a < b {
        b
    } else {
        a
    }
}

/// One more than the greatest type variable of `t`, counting every
/// position `type_vars` counts (0 when there is none); `None` when that
/// number does not fit in a `usize`.
fn var_bound(t: &TypeExpr) -> (r: Option<usize>)
    ensures
        r matches Some(n) ==> type_vars_below(t@, n as nat) && (n == 0 || type_vars(t@).contains((n - 1) as usize)),
        r is None <==> type_vars(t@).contains(usize::MAX),
    decreases t,
{
    match t {
        TypeExpr::Named { type_arguments, struct_fields, .. } => {
            let a = match var_bound_all(type_arguments) {
                Some(a) => a,
                None => {
                    return None;
                },
            };
            let b = match struct_fields {
                Some(fs) => match var_bound_fields(fs) {
                    Some(b) => b,
                    None => {
                        return None;
                    },
                },
                None => 0,
            };
            let bound = larger(a, b);
            proof {
                let field_vars = match struct_fields {
                    Some(fs) => field_type_vars(fields_view(fs@)),
                    None => Set::<usize>::empty(),
                };
                assert(type_vars(t@) == seq_type_vars(types_view(type_arguments@)).union(field_vars));
                assert forall|v: usize| #[trigger] field_vars.contains(v) implies v < b by {}
                assert forall|v: usize| #[trigger] type_vars(t@).contains(v) implies v < bound by {
                    if seq_type_vars(types_view(type_arguments@)).contains(v) {
                    } else {
                        assert(field_vars.contains(v));
                    }
                }
                assert(type_vars_below(t@, bound as nat));
            }
            Some(bound)
        },
        TypeExpr::Function { parameter_types, return_type } => {
            let a = match var_bound_all(parameter_types) {
                Some(a) => a,
                None => {
                    return None;
                },
            };
            let b = match var_bound(return_type) {
                Some(b) => b,
                None => {
                    return None;
                },
            };
            let bound = larger(a, b);
            proof {
                assert(type_vars(t@) == seq_type_vars(types_view(parameter_types@)).union(type_vars((**return_type)@)));
                assert(type_vars_below(t@, bound as nat));
            }
            Some(bound)
        },
        TypeExpr::Tuple { element_types } => {
            let r = var_bound_all(element_types);
            proof {
                assert(type_vars(t@) == seq_type_vars(types_view(element_types@)));
            }
            r
        },
        TypeExpr::TypeVar { id } => {
            proof {
                assert(type_vars(t@) == Set::<usize>::empty().insert(*id));
            }
            if *id < usize::MAX {
                Some(*id + 1)
            } else {
                None
            }
        },
    }
}

fn var_bound_all(ts: &Vec<TypeExpr>) -> (r: Option<usize>)
    ensures
        r matches Some(n) ==> (forall|v: usize| #[trigger] seq_type_vars(types_view(ts@)).contains(v) ==> v < n) && (n
            == 0 || seq_type_vars(types_view(ts@)).contains((n - 1) as usize)),
        r is None <==> seq_type_vars(types_view(ts@)).contains(usize::MAX),
    decreases ts,
{
    let ghost xs = types_view(ts@);
    proof {
        lemma_types_view_index(ts@);
        assert(xs.take(0) =~= Seq::<TypeView>::empty());
    }
    let mut acc: usize = 0;
    let mut i: usize = 0;
    while i < ts.len()
        invariant
            i <= ts@.len(),
            xs == types_view(ts@),
            xs.len() == ts@.len(),
            forall|j: int| 0 <= j < ts@.len() ==> #[trigger] xs[j] == ts@[j]@,
            forall|v: usize| #[trigger] seq_type_vars(xs.take(i as int)).contains(v) ==> v < acc,
            acc == 0 || seq_type_vars(xs.take(i as int)).contains((acc - 1) as usize),
        decreases ts@.len() - i,
    {
        proof {
            assert(xs.take(i + 1).drop_last() =~= xs.take(i as int));
            assert(xs.take(i + 1).last() == ts@[i as int]@);
            assert(seq_type_vars(xs.take(i + 1)) == seq_type_vars(xs.take(i as int)).union(type_vars(ts@[i as int]@)));
            crate::renaming::lemma_seq_type_vars_prefix(xs, i + 1);
        }
        let b = match var_bound(&ts[i]) {
            Some(b) => b,
            None => {
                proof {
                    assert(seq_type_vars(xs.take(i + 1)).contains(usize::MAX));
                }
                return None;
            },
        };
        let ghost old_acc = acc;
        acc = larger(acc, b);
        proof {
            assert(xs.take(i + 1).drop_last() =~= xs.take(i as int));
            assert(xs.take(i + 1).last() == ts@[i as int]@);
            assert(seq_type_vars(xs.take(i + 1)) == seq_type_vars(xs.take(i as int)).union(type_vars(ts@[i as int]@)));
        }
        i = i + 1;
    }
    proof {
        assert(xs.take(i as int) =~= xs);
        if seq_type_vars(xs).contains(usize::MAX) {
            assert(usize::MAX < acc);
        }
    }
    Some(acc)
}

fn var_bound_fields(fs: &Vec<(Token, TypeExpr)>) -> (r: Option<usize>)
    ensures
        r matches Some(n) ==> (forall|v: usize| #[trigger] field_type_vars(fields_view(fs@)).contains(v) ==> v < n) && (n
            == 0 || field_type_vars(fields_view(fs@)).contains((n - 1) as usize)),
        r is None <==> field_type_vars(fields_view(fs@)).contains(usize::MAX),
    decreases fs,
{
    let ghost xs = fields_view(fs@);
    proof {
        lemma_fields_view_index(fs@);
        assert(xs.take(0) =~= Seq::<(crate::token::TokenView, TypeView)>::empty());
    }
    let mut acc: usize = 0;
    let mut i: usize = 0;
    while i < fs.len()
        invariant
            i <= fs@.len(),
            xs == fields_view(fs@),
            xs.len() == fs@.len(),
            forall|j: int| 0 <= j < fs@.len() ==> #[trigger] xs[j] == (fs@[j].0@, fs@[j].1@),
            forall|v: usize| #[trigger] field_type_vars(xs.take(i as int)).contains(v) ==> v < acc,
            acc == 0 || field_type_vars(xs.take(i as int)).contains((acc - 1) as usize),
        decreases fs@.len() - i,
    {
        proof {
            assert(xs.take(i + 1).drop_last() =~= xs.take(i as int));
            assert(xs.take(i + 1).last() == xs[i as int]);
            assert(field_type_vars(xs.take(i + 1)) == field_type_vars(xs.take(i as int)).union(type_vars(fs@[i as int].1@)));
            crate::renaming::lemma_field_type_vars_prefix(xs, i + 1);
        }
        let b = match var_bound(&fs[i].1) {
            Some(b) => b,
            None => {
                proof {
                    assert(field_type_vars(xs.take(i + 1)).contains(usize::MAX));
                }
                return None;
            },
        };
        acc = larger(acc, b);
        proof {
            assert(xs.take(i + 1).drop_last() =~= xs.take(i as int));
            assert(xs.take(i + 1).last() == xs[i as int]);
            assert(field_type_vars(xs.take(i + 1)) == field_type_vars(xs.take(i as int)).union(type_vars(fs@[i as int].1@)));
        }
        i = i + 1;
    }
    proof {
        assert(xs.take(i as int) =~= xs);
        if field_type_vars(xs).contains(usize::MAX) {
            assert(usize::MAX < acc);
        }
    }
    Some(acc)
}

/// What the checker learned of a program: the type of each expression it
/// checked, the type of each function, what each lambda captures, which
/// calls are built-in calls, the type arguments of each call of a generic
/// function, and the variables whose past values are read or written.
///
/// Expressions are numbered in the order their checks complete: the type
/// of expression `i` is `expr_types[i]`, and the other tables are keyed by
/// the same numbers. The type of the initializer of each variable
/// declaration is also kept by the line and column at which the declared
/// binding starts.
#[derive(Debug)]
pub struct TypeInfo {
    pub expr_types: Vec<TypeExpr>,
    pub function_types: Vec<(String, TypeExpr)>,
    pub lambda_captures: Vec<(usize, Vec<(String, TypeExpr)>)>,
    pub builtin_calls: Vec<(usize, BuiltinCallType)>,
    pub call_type_arguments: Vec<(usize, Vec<TypeExpr>)>,
    pub tracked_vars: Vec<String>,
    pub initializer_types: Vec<((u32, u32), TypeExpr)>,
}

impl TypeInfo {
    /// Nothing learned yet.
    pub fn new() -> (r: Self)
        ensures
            r.expr_types@.len() == 0,
            r.function_types@.len() == 0,
            r.lambda_captures@.len() == 0,
            r.builtin_calls@.len() == 0,
            r.call_type_arguments@.len() == 0,
            r.tracked_vars@.len() == 0,
            r.initializer_types@.len() == 0,
    {
        TypeInfo {
            expr_types: Vec::new(),
            function_types: Vec::new(),
            lambda_captures: Vec::new(),
            builtin_calls: Vec::new(),
            call_type_arguments: Vec::new(),
            tracked_vars: Vec::new(),
            initializer_types: Vec::new(),
        }
    }
}

/// Checks the types of a program statement by statement, inferring the
/// types it does not state.
pub struct TypeChecker {
    environment: TypeEnvironment,
    enum_variants: SymbolTable,
    loop_depth: usize,
    lambda_captures_stack: Vec<Vec<(String, TypeExpr)>>,
    lambda_locals_stack: Vec<Vec<String>>,
    user_functions: Vec<(String, Signature)>,
    unifier: Unifier,
    types: TypeInfo,
    errors: Vec<TypeError>,
}

/// A named token with no place in the source, for the built-in types.
fn builtin_identifier(name: &str) -> (t: Token)
    ensures
        t.lexeme@ == name@,
        t.token_type == TokenType::Identifier,
        t.literal is None,
        t.line == 0,
        t.column == 0,
{
    Token { token_type: TokenType::Identifier, lexeme: name.to_owned(), literal: None, line: 0, column: 0 }
}

/// A name at no place in the source.
pub open spec fn builtin_token_view(name: Seq<char>) -> crate::token::TokenView {
    crate::token::TokenView { token_type: TokenType::Identifier, lexeme: name, literal: None, line: 0, column: 0 }
}

/// The variant `name` of a built-in enum, with the given payload types.
pub open spec fn builtin_variant_view(name: Seq<char>, payload: Seq<TypeView>) -> crate::types::VariantView {
    crate::types::VariantView { identifier: builtin_token_view(name), payload_types: payload }
}

/// The built-in `Bool`: the variants `True` and `False`, no payload.
pub open spec fn bool_enum_view() -> TypeView {
    builtin_enum_view(
        "Bool"@,
        Seq::empty(),
        seq![builtin_variant_view("True"@, Seq::empty()), builtin_variant_view("False"@, Seq::empty())],
    )
}

/// The built-in `Optional<T>`, with the first type variable for `T`: the
/// variants `Some(T)` and `None`.
pub open spec fn optional_enum_view() -> TypeView {
    let t = TypeView::TypeVar { id: 0 };
    builtin_enum_view(
        "Optional"@,
        seq![t],
        seq![builtin_variant_view("Some"@, seq![t]), builtin_variant_view("None"@, Seq::empty())],
    )
}

/// The type variables numbered `base` to `base + n - 1`, in that order.
pub open spec fn fresh_vars(base: nat, n: nat) -> Seq<TypeView> {
    Seq::new(n, |i: int| TypeView::TypeVar { id: (base + i) as usize })
}

/// The fields `fields`, each type with the type parameters `names`
/// replaced by the types `args`.
spec fn instantiated_fields_view(fields: Seq<(Token, TypeExpr)>, names: Seq<Seq<char>>, args: Seq<TypeView>) -> Seq<
    (crate::token::TokenView, TypeView),
> {
    Seq::new(fields.len(), |i: int| (fields[i].0@, substituted(fields[i].1@, names, args)))
}

/// One of `names` is `name`.
spec fn names_hold(names: Seq<String>, name: Seq<char>) -> bool {
    exists|i: int| 0 <= i < names.len() && #[trigger] names[i]@ == name
}

/// The type a call of the built-in `kind` with `n` arguments gives, its
/// parenthesis at `paren`, after `issued` type variables: an array, range
/// or map literal has the matching type (with fresh element, key and value
/// types when empty), `print` is `Void`, `map` gives an array of its
/// function's result type, `filter` an array of its element type, and a
/// fold its accumulator's type.
pub open spec fn builtin_result(kind: BuiltinCallType, paren: Token, issued: nat, n: nat, t: TypeView) -> bool {
    let fresh0 = TypeView::TypeVar { id: issued as usize };
    let fresh1 = TypeView::TypeVar { id: (issued + 1) as usize };
    match kind {
        BuiltinCallType::ArrayLiteral => if n == 0 {
            t == named_type("Array"@, paren.line, paren.column, seq![fresh0])
        } else {
            exists|e: TypeView| t == named_type("Array"@, paren.line, paren.column, seq![e])
        },
        BuiltinCallType::RangeLiteral { is_inclusive } => exists|b: TypeView|
            t == named_type(
                if is_inclusive {
                    "InclusiveRange"@
                } else {
                    "Range"@
                },
                paren.line,
                paren.column,
                seq![b],
            ),
        BuiltinCallType::MapLiteral => if n == 0 {
            t == named_type("Map"@, paren.line, paren.column, seq![fresh0, fresh1])
        } else {
            exists|k: TypeView, v: TypeView| t == named_type("Map"@, paren.line, paren.column, seq![k, v])
        },
        BuiltinCallType::Print => t == void_at(paren.line, paren.column),
        BuiltinCallType::MapCall => t == named_type("Array"@, paren.line, paren.column, seq![fresh1]),
        BuiltinCallType::Filter => t == named_type("Array"@, paren.line, paren.column, seq![fresh0]),
        BuiltinCallType::Foldl | BuiltinCallType::Foldr => t == fresh1,
    }
}

/// Where a condition is a literal, which is never `Bool`: the error that
/// says so at `token`, or the literal's own error.
pub open spec fn literal_condition_outcome<T>(token: Token, condition: Expr, r: Result<T, TypeError>) -> bool {
    match condition {
        Expr::Literal(l) => match crate::check_rules::literal_type(l) {
            Some(t) => r matches Err(TypeError::ConditionNotBoolean { line, column, condition_type }) && line
                == token.line && column == token.column && condition_type@ == t,
            None => r is Err,
        },
        _ => true,
    }
}

/// Where an indexing's target and index are literals (a target that is
/// never an `Array` or a `Map`): the invalid-target error at the bracket, or
/// a literal's own error.
pub open spec fn literal_index_outcome(left_bracket: Token, target: Expr, index: Expr, r: Result<TypeExpr, TypeError>) -> bool {
    match (target, index) {
        (Expr::Literal(a), Expr::Literal(b)) => match (
            crate::check_rules::literal_type(a),
            crate::check_rules::literal_type(b),
        ) {
            (Some(t), Some(_)) => r matches Err(TypeError::InvalidIndexTarget { line, column, target_type }) && line
                == left_bracket.line && column == left_bracket.column && target_type@ == t,
            _ => r is Err,
        },
        _ => true,
    }
}

/// The variants of the enum type `t`; none for any other type.
pub open spec fn variants_of(t: TypeView) -> Seq<crate::types::VariantView> {
    match t {
        TypeView::Named { enum_variants: Some(vs), .. } => vs,
        _ => Seq::empty(),
    }
}

/// `name` is one of the variants of the enum type `t`.
pub open spec fn has_variant(t: TypeView, name: Seq<char>) -> bool {
    exists|i: int| 0 <= i < variants_of(t).len() && #[trigger] variants_of(t)[i].identifier.lexeme == name
}

/// The first variant named `name` among `vs` has the payload types `ps`.
pub open spec fn first_payload(vs: Seq<crate::types::VariantView>, name: Seq<char>, ps: Seq<TypeView>) -> bool {
    exists|i: int|
        0 <= i < vs.len() && #[trigger] vs[i].identifier.lexeme == name && vs[i].payload_types == ps && forall|j: int|
            0 <= j < i ==> vs[j].identifier.lexeme != name
}

/// The first variant of a name has one payload.
proof fn lemma_first_payload_unique(vs: Seq<crate::types::VariantView>, name: Seq<char>, p1: Seq<TypeView>, p2: Seq<TypeView>)
    requires
        first_payload(vs, name, p1),
        first_payload(vs, name, p2),
    ensures
        p1 == p2,
{
    let i = choose|i: int|
        0 <= i < vs.len() && #[trigger] vs[i].identifier.lexeme == name && vs[i].payload_types == p1 && forall|j: int|
            0 <= j < i ==> vs[j].identifier.lexeme != name;
    let k = choose|k: int|
        0 <= k < vs.len() && #[trigger] vs[k].identifier.lexeme == name && vs[k].payload_types == p2 && forall|j: int|
            0 <= j < k ==> vs[j].identifier.lexeme != name;
    if i < k {
        assert(vs[i].identifier.lexeme != name);
    } else if k < i {
        assert(vs[k].identifier.lexeme != name);
    }
}

/// The type of the value of a variant with payload types `ps` of the enum
/// type `e`: `e` itself with no payload, else a function from the payload
/// types to `e`.
pub open spec fn variant_value_type(ps: Seq<TypeView>, e: TypeView) -> TypeView {
    if ps.len() == 0 {
        e
    } else {
        TypeView::Function { parameter_types: ps, return_type: Box::new(e) }
    }
}

/// `x` is what a variant of the enum type `e` is as a value: `e` itself
/// for a variant with no payload, otherwise a function from the payload
/// types to `e`.
pub open spec fn constructor_type(x: TypeView, e: TypeView) -> bool {
    x == e || (x matches TypeView::Function { return_type, .. } && *return_type == e)
}

/// What reading the past state picked by an index of type `it` of a
/// variable of type `tt` gives: the variable's type when the index is an
/// `Int`, otherwise the invalid-index error at `at`.
pub open spec fn time_travel_outcome(tt: TypeView, it: TypeView, at: Token, r: Result<TypeExpr, TypeError>) -> bool {
    if crate::type_rules::is_named(it, "Int"@) {
        r matches Ok(x) && x@ == tt
    } else {
        r matches Err(TypeError::InvalidIndexType { line, column, target_type, index_type }) && line == at.line
            && column == at.column && target_type@ == tt && index_type@ == it
    }
}

/// `print` called on one literal with a value, the name `print` bound to
/// nothing.
pub open spec fn print_literal_call(before: TypeChecker, callee: Expr, arguments: Seq<Expr>) -> bool {
    &&& callee matches Expr::Variable(id) && id.lexeme@ == "print"@
    &&& before.bound("print"@) is None
    &&& arguments.len() == 1
    &&& arguments[0] matches Expr::Literal(l) && l.literal is Some
}

/// `print` names the built-in printing call.
proof fn lemma_print_is_builtin()
    ensures
        builtin_of("print"@) == Some(BuiltinCallType::Print),
{
    reveal_strlit("print");
    reveal_strlit("Array");
    reveal_strlit("Range");
    reveal_strlit("InclusiveRange");
    reveal_strlit("Map");
    assert("print"@ != "Array"@ && "print"@ != "Range"@ && "print"@ != "InclusiveRange"@ && "print"@ != "Map"@) by {
        assert("print"@[0] != "Array"@[0] && "print"@[0] != "Range"@[0] && "print"@[0] != "InclusiveRange"@[0]
            && "print"@[0] != "Map"@[0]);
    }
}

/// The name a declaration of a single name declares; nothing for any other
/// statement.
pub open spec fn declared_name(s: Stmt) -> Seq<char> {
    match s {
        Stmt::Variable { binding: VariableBinding::Identifier(t), .. } => t.lexeme@,
        _ => Seq::empty(),
    }
}

/// A statement that type checks in any state that leaves `print` unbound,
/// and keeps it unbound: a literal statement that declares no `print`, or
/// `print` called on one literal.
pub open spec fn simple_statement(s: Stmt) -> bool {
    ||| literal_statement(s) && declared_name(s) != "print"@
    ||| s matches Stmt::Expression(Expr::Call { callee, arguments, .. }) && (*callee matches Expr::Variable(id)
        && id.lexeme@ == "print"@) && arguments@.len() == 1 && (arguments@[0] matches Expr::Literal(l) && l.literal is Some)
}

/// Literals with values, all of one kind (all numbers of one type, or all
/// strings).
pub open spec fn uniform_literals(es: Seq<Expr>) -> bool {
    &&& all_literal_values(es)
    &&& forall|i: int| 0 <= i < es.len() ==> #[trigger] literal_types(es)[i] == crate::type_ops::named_type(
        literal_types(es)[0]->Named_identifier.lexeme,
        literal_types(es)[i]->Named_identifier.line,
        literal_types(es)[i]->Named_identifier.column,
        Seq::empty(),
    )
}

/// At least one expression, each a literal with a value.
pub open spec fn all_literal_values(es: Seq<Expr>) -> bool {
    &&& es.len() > 0
    &&& forall|i: int| 0 <= i < es.len() ==> (#[trigger] es[i] matches Expr::Literal(l) && l.literal is Some)
}

/// The types of the literals `es`.
pub open spec fn literal_types(es: Seq<Expr>) -> Seq<TypeView> {
    Seq::new(es.len(), |i: int| crate::check_rules::literal_type(es[i]->Literal_0).unwrap())
}

/// A statement that fails to type check outside any loop, wherever it
/// stands: `break` or `continue`, a loop or `if` whose condition is a
/// literal (never `Bool`), an `if` with a branch (then or else) that surely
/// fails, a declaration with neither type nor value, or a literal with no
/// value.
pub open spec fn surely_fails(s: Stmt) -> bool
    decreases s,
{
    match s {
        Stmt::Break(_) => true,
        Stmt::Continue(_) => true,
        Stmt::While { condition: Expr::Literal(_), .. } => true,
        Stmt::If { condition, then_branch, else_branch, .. } => {
            ||| condition is Literal
            ||| surely_fails(*then_branch)
            ||| (else_branch matches Some(e) && surely_fails(*e))
        },
        Stmt::Variable { type_annotation: None, initializer: None, .. } => true,
        Stmt::Expression(Expr::Literal(l)) => l.literal is None,
        _ => false,
    }
}

/// Each `break` among `stmts` has its error, at its token, among `errors`.
pub open spec fn breaks_reported(stmts: Seq<Stmt>, errors: Seq<TypeError>) -> bool {
    forall|i: int|
        0 <= i < stmts.len() ==> (#[trigger] stmts[i] matches Stmt::Break(t) ==> exists|j: int|
            0 <= j < errors.len() && errors[j] == (TypeError::BreakOutsideLoop { line: t.line, column: t.column }))
}

/// The type of the literal a literal statement holds.
pub open spec fn statement_literal_type(s: Stmt) -> TypeView {
    match s {
        Stmt::Variable { initializer: Some(Expr::Literal(l)), .. } => crate::check_rules::literal_type(l).unwrap(),
        Stmt::Expression(Expr::Literal(l)) => crate::check_rules::literal_type(l).unwrap(),
        _ => arbitrary(),
    }
}

/// `a` names the type `t` of a literal plainly: the same name, with no
/// type arguments and no fields.
pub open spec fn plain_annotation(a: TypeView, t: TypeView) -> bool {
    &&& a matches TypeView::Named { identifier, type_arguments, struct_fields: None, .. }
    &&& a->Named_type_arguments.len() == 0
    &&& t matches TypeView::Named { .. }
    &&& a->Named_identifier.lexeme == t->Named_identifier.lexeme
}

/// A statement that type checks wherever it stands: a declaration of a
/// name with a literal value and either no annotation or one that names the
/// literal's type plainly, or a literal on its own.
pub open spec fn literal_statement(s: Stmt) -> bool {
    match s {
        Stmt::Variable {
            binding: VariableBinding::Identifier(_),
            type_annotation: None,
            initializer: Some(Expr::Literal(l)),
        } => l.literal is Some,
        Stmt::Variable {
            binding: VariableBinding::Identifier(_),
            type_annotation: Some(a),
            initializer: Some(Expr::Literal(l)),
        } => crate::check_rules::literal_type(l) matches Some(t) && plain_annotation(a@, t),
        Stmt::Expression(Expr::Literal(l)) => l.literal is Some,
        _ => false,
    }
}

/// `Void`, written at `line` and `column`.
pub open spec fn void_at(line: u32, column: u32) -> TypeView {
    named_type("Void"@, line, column, Seq::empty())
}

/// The declared types of `parameters`, in order.
spec fn parameter_types_view(parameters: Seq<(Token, TypeExpr)>) -> Seq<TypeView> {
    Seq::new(parameters.len(), |i: int| parameters[i].1@)
}

/// The type of the built-in enum `name`, with the given type parameters
/// and variants, named at no place in the source.
pub open spec fn builtin_enum_view(name: Seq<char>, parameters: Seq<TypeView>, variants: Seq<crate::types::VariantView>) -> TypeView {
    TypeView::Named {
        identifier: builtin_token_view(name),
        type_parameters: Some(parameters),
        type_arguments: Seq::empty(),
        enum_variants: Some(variants),
        struct_fields: None,
    }
}

impl TypeChecker {
    /// The scopes, the table of enum variants and the unifier are well
    /// formed, and the unifier has issued fewer type variables than the
    /// limit allows.
    closed spec fn inv(&self) -> bool {
        &&& self.environment.wf()
        &&& self.enum_variants.wf()
        &&& self.unifier.wf()
        &&& self.unifier.next_id() <= TYPE_VARIABLE_LIMIT
    }

    /// Ready to check a program: well formed, with no errors pending.
    pub closed spec fn wf(&self) -> bool {
        &&& self.inv()
        &&& self.errors@.len() == 0
    }

    /// Nothing learned about the program is held: no expression type,
    /// function type, capture, built-in call, type argument list, variable
    /// with history or initializer type.
    pub closed spec fn nothing_recorded(&self) -> bool {
        &&& self.types.expr_types@.len() == 0
        &&& self.types.function_types@.len() == 0
        &&& self.types.lambda_captures@.len() == 0
        &&& self.types.builtin_calls@.len() == 0
        &&& self.types.call_type_arguments@.len() == 0
        &&& self.types.tracked_vars@.len() == 0
        &&& self.types.initializer_types@.len() == 0
    }

    /// Checking happens inside a loop.
    pub closed spec fn in_loop(&self) -> bool {
        self.loop_depth > 0
    }

    /// The type that `name` is bound to, in the innermost scope that binds
    /// it.
    pub closed spec fn bound(&self, name: Seq<char>) -> Option<TypeView> {
        self.environment.bound(name)
    }

    /// The number of open scopes.
    pub closed spec fn depth(&self) -> nat {
        self.environment.depth()
    }

    /// The enum type that has a variant named `name`, if any.
    pub closed spec fn variant_owner(&self, name: Seq<char>) -> Option<TypeView> {
        self.enum_variants.bound(name)
    }

    /// What each type variable bound so far stands for.
    pub closed spec fn substitution(&self) -> Subst {
        self.unifier.subst()
    }

    /// `t` with every bound type variable replaced, throughout, by what it
    /// stands for.
    pub closed spec fn resolved(&self, t: TypeView) -> TypeView {
        self.unifier.resolved(t)
    }

    /// `after` is a later state of the checker in `before`: still well
    /// formed, with every type variable binding of `before` kept.
    closed spec fn advances(before: TypeChecker, after: TypeChecker) -> bool {
        &&& after.inv()
        &&& before.unifier.next_id() <= after.unifier.next_id()
        &&& extends(before.unifier.subst(), after.unifier.subst())
    }

    /// A checker that knows the built-in enums `Bool` (`True`, `False`)
    /// and `Optional<T>` (`Some(T)`, `None`), with one scope open.
    pub fn new() -> (r: Self)
        ensures
            r.wf(),
            r.depth() == 1,
            r.bound("Bool"@) == Some(bool_enum_view()),
            r.bound("Optional"@) == Some(optional_enum_view()),
            r.variant_owner("True"@) == Some(bool_enum_view()),
            r.variant_owner("False"@) == Some(bool_enum_view()),
            r.variant_owner("Some"@) == Some(optional_enum_view()),
            r.variant_owner("None"@) == Some(optional_enum_view()),
            forall|name: Seq<char>| name != "Bool"@ && name != "Optional"@ ==> #[trigger] r.bound(name) is None,
            !r.in_loop(),
    {
        let mut environment = TypeEnvironment::new();
        environment.push_scope();
        let mut type_checker = TypeChecker {
            environment,
            enum_variants: SymbolTable::new(),
            loop_depth: 0,
            lambda_captures_stack: Vec::new(),
            lambda_locals_stack: Vec::new(),
            user_functions: Vec::new(),
            unifier: Unifier::new(),
            types: TypeInfo::new(),
            errors: Vec::new(),
        };
        type_checker.inject_builtin_enums();
        type_checker
    }

    fn inject_builtin_enums(&mut self)
        requires
            old(self).inv(),
            old(self).unifier.next_id() == 0,
        ensures
            Self::advances(*old(self), *final(self)),
            final(self).errors == old(self).errors,
            final(self).loop_depth == old(self).loop_depth,
            final(self).depth() == old(self).depth(),
            old(self).depth() > 0 ==> final(self).bound("Bool"@) == Some(bool_enum_view()),
            old(self).depth() > 0 ==> final(self).bound("Optional"@) == Some(optional_enum_view()),
            final(self).variant_owner("True"@) == Some(bool_enum_view()),
            final(self).variant_owner("False"@) == Some(bool_enum_view()),
            final(self).variant_owner("Some"@) == Some(optional_enum_view()),
            final(self).variant_owner("None"@) == Some(optional_enum_view()),
            forall|name: Seq<char>| name != "Bool"@ && name != "Optional"@ ==> #[trigger] final(self).bound(name) == old(
                self,
            ).bound(name),
    {
        proof {
            reveal_strlit("Bool");
            reveal_strlit("Optional");
            reveal_strlit("True");
            reveal_strlit("False");
            reveal_strlit("Some");
            reveal_strlit("None");
            assert("Bool"@[0] != "Optional"@[0]);
            assert("True"@[0] != "Some"@[0]);
            assert("True"@[0] != "None"@[0]);
            assert("False"@[0] != "Some"@[0]);
            assert("False"@[0] != "None"@[0]);
        }
        let mut bool_variants: Vec<EnumVariant> = Vec::new();
        bool_variants.push(EnumVariant { identifier: builtin_identifier("True"), payload_types: Vec::new() });
        bool_variants.push(EnumVariant { identifier: builtin_identifier("False"), payload_types: Vec::new() });
        proof {
            lemma_variants_view_index(bool_variants@);
            assert(types_view(Seq::<TypeExpr>::empty()) =~= Seq::<TypeView>::empty());
            assert(bool_variants@[0].identifier@ == builtin_token_view("True"@));
            assert(bool_variants@[1].identifier@ == builtin_token_view("False"@));
            assert(variants_view(bool_variants@) =~= seq![
                builtin_variant_view("True"@, Seq::empty()),
                builtin_variant_view("False"@, Seq::empty()),
            ]);
        }
        let ghost bv = bool_variants@;
        let ghost s0 = *self;
        self.inject_builtin_enum("Bool", Vec::new(), bool_variants);
        let ghost s1 = *self;
        proof {
            assert(self.variant_owner(bv[0].identifier.lexeme@) == Some(bool_enum_view()));
            assert(self.variant_owner(bv[1].identifier.lexeme@) == Some(bool_enum_view()));
        }

        let t_type = self.unifier.new_type_var();
        let mut some_payload: Vec<TypeExpr> = Vec::new();
        some_payload.push(copy_type(&t_type));
        let mut type_parameters: Vec<TypeExpr> = Vec::new();
        type_parameters.push(t_type);
        let mut optional_variants: Vec<EnumVariant> = Vec::new();
        optional_variants.push(EnumVariant { identifier: builtin_identifier("Some"), payload_types: some_payload });
        optional_variants.push(EnumVariant { identifier: builtin_identifier("None"), payload_types: Vec::new() });
        proof {
            lemma_variants_view_index(optional_variants@);
            lemma_types_view_index(type_parameters@);
            lemma_types_view_index(optional_variants@[0].payload_types@);
            let t = TypeView::TypeVar { id: 0 };
            assert(optional_variants@[0].identifier@ == builtin_token_view("Some"@));
            assert(optional_variants@[1].identifier@ == builtin_token_view("None"@));
            assert(types_view(type_parameters@) =~= seq![t]);
            assert(types_view(optional_variants@[0].payload_types@) =~= seq![t]);
            assert(variants_view(optional_variants@) =~= seq![
                builtin_variant_view("Some"@, seq![t]),
                builtin_variant_view("None"@, Seq::empty()),
            ]);
            assert(optional_variants@[0].identifier.lexeme@ != "True"@);
            assert(optional_variants@[1].identifier.lexeme@ != "True"@);
            assert(optional_variants@[0].identifier.lexeme@ != "False"@);
            assert(optional_variants@[1].identifier.lexeme@ != "False"@);
        }
        let ghost ov = optional_variants@;
        let ghost mid = *self;
        self.inject_builtin_enum("Optional", type_parameters, optional_variants);
        proof {
            assert(mid.environment == s1.environment);
            assert forall|name: Seq<char>| name != "Bool"@ && name != "Optional"@ implies #[trigger] self.bound(name)
                == s0.bound(name) by {
                assert(self.bound(name) == mid.bound(name));
                assert(s1.bound(name) == s0.bound(name));
            }
        }
        proof {
            assert(self.variant_owner("True"@) == mid.variant_owner("True"@));
            assert(self.variant_owner("False"@) == mid.variant_owner("False"@));
            assert(self.variant_owner(ov[0].identifier.lexeme@) == Some(optional_enum_view()));
            assert(self.variant_owner(ov[1].identifier.lexeme@) == Some(optional_enum_view()));
        }
    }

    /// Declares a built-in enum: its name is bound to its type, and each of
    /// its variants to it in the table of variants.  The built-in variant
    /// names are distinct, so no duplicate can arise here.
    fn inject_builtin_enum(&mut self, enum_identifier: &str, type_parameters: Vec<TypeExpr>, variants: Vec<EnumVariant>)
        requires
            old(self).inv(),
        ensures
            Self::advances(*old(self), *final(self)),
            final(self).unifier == old(self).unifier,
            final(self).errors == old(self).errors,
            final(self).loop_depth == old(self).loop_depth,
            final(self).depth() == old(self).depth(),
            old(self).depth() > 0 ==> final(self).bound(enum_identifier@) == Some(
                builtin_enum_view(enum_identifier@, types_view(type_parameters@), variants_view(variants@)),
            ),
            forall|name: Seq<char>| name != enum_identifier@ ==> #[trigger] final(self).bound(name) == old(self).bound(name),
            forall|i: int| 0 <= i < variants@.len() ==> #[trigger] final(self).variant_owner(variants@[i].identifier.lexeme@)
                == Some(builtin_enum_view(enum_identifier@, types_view(type_parameters@), variants_view(variants@))),
            forall|name: Seq<char>| (forall|i: int| 0 <= i < variants@.len() ==> #[trigger] variants@[i].identifier.lexeme@ != name)
                ==> #[trigger] final(self).variant_owner(name) == old(self).variant_owner(name),
    {
        let identifier = builtin_identifier(enum_identifier);
        let ghost ev = builtin_enum_view(enum_identifier@, types_view(type_parameters@), variants_view(variants@));
        let mut i: usize = 0;
        while i < variants.len()
            invariant
                self.inv(),
                self.unifier == old(self).unifier,
                self.errors == old(self).errors,
                self.loop_depth == old(self).loop_depth,
                self.environment == old(self).environment,
                i <= variants@.len(),
                identifier@.lexeme == enum_identifier@,
                identifier.token_type == TokenType::Identifier,
                identifier.literal is None,
                identifier.line == 0,
                identifier.column == 0,
                ev == builtin_enum_view(enum_identifier@, types_view(type_parameters@), variants_view(variants@)),
                forall|j: int| 0 <= j < i ==> #[trigger] self.variant_owner(variants@[j].identifier.lexeme@) == Some(ev),
                forall|name: Seq<char>| (forall|j: int| 0 <= j < i ==> #[trigger] variants@[j].identifier.lexeme@ != name)
                    ==> #[trigger] self.variant_owner(name) == old(self).variant_owner(name),
            decreases variants@.len() - i,
        {
            let enum_type = TypeExpr::Named {
                identifier: identifier.clone(),
                type_parameters: Some(crate::types::copy_types(&type_parameters)),
                type_arguments: Vec::new(),
                enum_variants: Some(crate::types::copy_variants(&variants)),
                struct_fields: None,
            };
            proof {
                assert(identifier@ == ev->identifier);
                assert(types_view(Seq::<TypeExpr>::empty()) =~= Seq::<TypeView>::empty());
                assert(enum_type@ =~= ev);
            }
            let ghost before = *self;
            let ghost key = variants@[i as int].identifier.lexeme@;
            self.enum_variants.insert(variants[i].identifier.lexeme.clone(), enum_type);
            proof {
                assert forall|j: int| 0 <= j < i + 1 implies #[trigger] self.variant_owner(variants@[j].identifier.lexeme@)
                    == Some(ev) by {
                    if variants@[j].identifier.lexeme@ != key {
                        assert(before.variant_owner(variants@[j].identifier.lexeme@) == Some(ev));
                    }
                }
                assert forall|name: Seq<char>| (forall|j: int| 0 <= j < i + 1 ==> #[trigger] variants@[j].identifier.lexeme@ != name)
                    implies #[trigger] self.variant_owner(name) == old(self).variant_owner(name) by {
                    assert(variants@[i as int].identifier.lexeme@ != name);
                    assert(before.variant_owner(name) == old(self).variant_owner(name));
                }
            }
            i = i + 1;
        }
        let enum_type = TypeExpr::Named {
            identifier: identifier.clone(),
            type_parameters: Some(type_parameters),
            type_arguments: Vec::new(),
            enum_variants: Some(variants),
            struct_fields: None,
        };
        proof {
            assert(identifier@ == ev->identifier);
            assert(types_view(Seq::<TypeExpr>::empty()) =~= Seq::<TypeView>::empty());
            assert(enum_type@ =~= ev);
        }
        let ghost before = *self;
        self.environment.insert(&identifier, enum_type);
        proof {
            assert(self.enum_variants == before.enum_variants);
            assert forall|k: int| 0 <= k < variants@.len() implies #[trigger] self.variant_owner(variants@[k].identifier.lexeme@)
                == Some(ev) by {
                assert(before.variant_owner(variants@[k].identifier.lexeme@) == Some(ev));
            }
            assert forall|name: Seq<char>| (forall|k: int| 0 <= k < variants@.len() ==> #[trigger] variants@[k].identifier.lexeme@ != name)
                implies #[trigger] self.variant_owner(name) == old(self).variant_owner(name) by {
                assert(before.variant_owner(name) == old(self).variant_owner(name));
            }
        }
    }

    /// The error for running out of type variables, at `token`.
    fn limit_error(token: &Token) -> (e: TypeError)
        ensures
            e == (TypeError::TypeVariableLimit { line: token.line, column: token.column }),
    {
        TypeError::TypeVariableLimit { line: token.line, column: token.column }
    }

    /// A fresh type variable; an error at `token` when the limit is reached.
    fn fresh(&mut self, token: &Token) -> (r: Result<TypeExpr, TypeError>)
        requires
            old(self).inv(),
        ensures
            Self::advances(*old(self), *final(self)),
            final(self).types == old(self).types,
            final(self).unifier.subst() == old(self).unifier.subst(),
            final(self).errors == old(self).errors,
            final(self).loop_depth == old(self).loop_depth,
            final(self).environment == old(self).environment,
            final(self).enum_variants == old(self).enum_variants,
            r matches Ok(t) ==> t@ == (TypeView::TypeVar { id: old(self).unifier.next_id() as usize }),
            r is Ok ==> !final(self).unifier.subst().contains_key(old(self).unifier.next_id() as usize),
            r matches Err(e) ==> e == Self::limit_error_at(*token),
            r is Ok <==> old(self).unifier.next_id() < TYPE_VARIABLE_LIMIT,
            final(self).unifier.next_id() == if r is Ok {
                old(self).unifier.next_id() + 1
            } else {
                old(self).unifier.next_id()
            },
    {
        if self.unifier.issued() >= TYPE_VARIABLE_LIMIT {
            Err(Self::limit_error(token))
        } else {
            Ok(self.unifier.new_type_var())
        }
    }

    closed spec fn limit_error_at(token: Token) -> TypeError {
        TypeError::TypeVariableLimit { line: token.line, column: token.column }
    }

    /// Makes sure the unifier never issues a type variable that `t` already
    /// holds; an error at `token` when that would pass the limit.
    fn reserve_vars_of(&mut self, t: &TypeExpr, token: &Token) -> (r: Result<(), TypeError>)
        requires
            old(self).inv(),
        ensures
            Self::advances(*old(self), *final(self)),
            final(self).types == old(self).types,
            final(self).environment == old(self).environment,
            final(self).enum_variants == old(self).enum_variants,
            final(self).unifier.subst() == old(self).unifier.subst(),
            final(self).errors == old(self).errors,
            final(self).loop_depth == old(self).loop_depth,
            r is Ok ==> type_vars_below(t@, final(self).unifier.next_id()) && vars_below(
                t@,
                final(self).unifier.next_id(),
            ),
            r matches Err(e) ==> e == Self::limit_error_at(*token),
            r is Err <==> reaches_limit(t@),
            final(self).unifier.ranking() == old(self).unifier.ranking(),
    {
        match var_bound(t) {
            Some(n) => {
                if n <= TYPE_VARIABLE_LIMIT {
                    self.unifier.reserve(n);
                    proof {
                        lemma_below_vars(t@, self.unifier.next_id());
                    }
                    Ok(())
                } else {
                    proof {
                        assert(type_vars(t@).contains((n - 1) as usize));
                    }
                    Err(Self::limit_error(token))
                }
            },
            None => {
                proof {
                    assert(type_vars(t@).contains(usize::MAX));
                }
                Err(Self::limit_error(token))
            },
        }
    }

    /// Unifies `a` with `b`, reporting a failure at `token`.
    fn unify(&mut self, a: &TypeExpr, b: &TypeExpr, token: &Token) -> (r: Result<TypeExpr, TypeError>)
        requires
            old(self).inv(),
        ensures
            Self::advances(*old(self), *final(self)),
            final(self).types == old(self).types,
            final(self).errors == old(self).errors,
            final(self).loop_depth == old(self).loop_depth,
            r matches Ok(t) ==> vars_below(t@, final(self).unifier.next_id()),
            reaches_limit(a@) || reaches_limit(b@) ==> r == Err::<TypeExpr, TypeError>(Self::limit_error_at(*token)),
            !reaches_limit(a@) && !reaches_limit(b@) ==> {
                &&& r matches Ok(t) ==> {
                    &&& shape(final(self).unifier.resolved(a@)) == shape(final(self).unifier.resolved(b@))
                    &&& shape(final(self).unifier.resolved(t@)) == shape(final(self).unifier.resolved(a@))
                }
                &&& r matches Err(e) ==> match e {
                    TypeError::MismatchedTypes { line, column, expected, found } => {
                        &&& line == token.line && column == token.column
                        &&& heads_clash(expected@, found@)
                    },
                    TypeError::InfiniteType { line, column, type_var_id, type_expr } => {
                        &&& line == token.line && column == token.column
                        &&& type_expr@ != (TypeView::TypeVar { id: type_var_id })
                        &&& var_in(type_var_id, final(self).unifier.resolved(type_expr@))
                    },
                    _ => false,
                }
                &&& heads_clash(
                    crate::unifier::resolve(old(self).unifier.subst(), old(self).unifier.ranking(), a@),
                    crate::unifier::resolve(old(self).unifier.subst(), old(self).unifier.ranking(), b@),
                ) ==> (r matches Err(TypeError::MismatchedTypes { line, column, expected, found }) && line == token.line
                    && column == token.column && expected@
                    == crate::unifier::resolve(old(self).unifier.subst(), old(self).unifier.ranking(), a@) && found@
                    == crate::unifier::resolve(old(self).unifier.subst(), old(self).unifier.ranking(), b@))
                &&& (crate::unifier::ground(a@) && shape(a@) == shape(b@) ==> (r matches Ok(t) && t@ == a@))
                &&& (crate::unifier::resolve(old(self).unifier.subst(), old(self).unifier.ranking(), a@) matches TypeView::TypeVar {
                    id,
                } ==> crate::unifier::var_unify_at_outcome(
                    old(self).unifier,
                    final(self).unifier,
                    id,
                    crate::unifier::resolve(old(self).unifier.subst(), old(self).unifier.ranking(), b@),
                    *token,
                    r,
                ))
            },
    {
        let ra = self.reserve_vars_of(a, token);
        if ra.is_err() {
            return Err(Self::limit_error(token));
        }
        let rb = self.reserve_vars_of(b, token);
        if rb.is_err() {
            return Err(Self::limit_error(token));
        }
        self.unifier.unify_at(a, b, token)
    }

    /// A copy of `t` with fresh type variables in place of its own.
    fn instantiate(&mut self, t: &TypeExpr, token: &Token) -> (r: Result<TypeExpr, TypeError>)
        requires
            old(self).inv(),
        ensures
            Self::advances(*old(self), *final(self)),
            final(self).types == old(self).types,
            final(self).unifier.subst() == old(self).unifier.subst(),
            final(self).errors == old(self).errors,
            final(self).loop_depth == old(self).loop_depth,
            r matches Ok(i) ==> exists|m: Map<usize, usize>, lo: nat|
                {
                    &&& m.dom() == type_vars(t@)
                    &&& lo >= old(self).unifier.next_id()
                    &&& #[trigger] crate::renaming::fresh_renaming(m, lo, final(self).unifier.next_id())
                    &&& i@ == crate::renaming::rename(m, t@)
                },
            r matches Err(e) ==> e == Self::limit_error_at(*token),
            r is Err <==> instantiation_overflows(t@, old(self).unifier.next_id()),
            final(self).environment == old(self).environment,
            final(self).enum_variants == old(self).enum_variants,
    {
        let ghost issued = self.unifier.next_id();
        let n = match var_bound(t) {
            Some(n) => n,
            None => {
                proof {
                    assert(type_vars(t@).contains(usize::MAX));
                }
                return Err(Self::limit_error(token));
            },
        };
        if n > TYPE_VARIABLE_LIMIT {
            proof {
                assert(type_vars(t@).contains((n - 1) as usize));
            }
            return Err(Self::limit_error(token));
        }
        self.unifier.reserve(n);
        if self.unifier.issued() > TYPE_VARIABLE_LIMIT - n {
            proof {
                assert(n > 0);
                assert(type_vars(t@).contains((n - 1) as usize));
            }
            return Err(Self::limit_error(token));
        }
        proof {
            crate::renaming::lemma_type_vars_finite(t@);
            lemma_ids_below_len(type_vars(t@), n as nat);
            if instantiation_overflows(t@, issued) {
                let v = choose|v: usize|
                    #[trigger] type_vars(t@).contains(v) && (v + 1 > TYPE_VARIABLE_LIMIT || (if issued < v + 1 {
                        (v + 1) as nat
                    } else {
                        issued
                    }) + v + 1 > TYPE_VARIABLE_LIMIT);
                assert(v < n);
            }
        }
        let ghost lo = self.unifier.next_id();
        let r = self.unifier.instantiate_type(t);
        proof {
            let m = choose|m: Map<usize, usize>|
                {
                    &&& #[trigger] m.dom() == type_vars(t@)
                    &&& crate::renaming::fresh_renaming(m, lo, self.unifier.next_id())
                    &&& r@ == crate::renaming::rename(m, t@)
                };
            assert(m.dom() == type_vars(t@) && lo >= old(self).unifier.next_id() && crate::renaming::fresh_renaming(
                m,
                lo,
                self.unifier.next_id(),
            ) && r@ == crate::renaming::rename(m, t@));
        }
        Ok(r)
    }
}

} // verus!


verus! {

/// A copy of a list of type/name bindings.
fn copy_bindings(bs: &Vec<(String, TypeExpr)>) -> (r: Vec<(String, TypeExpr)>)
    ensures
        r@.len() == bs@.len(),
        forall|i: int| 0 <= i < bs@.len() ==> #[trigger] r@[i].0@ == bs@[i].0@ && r@[i].1@ == bs@[i].1@,
{
    let mut r: Vec<(String, TypeExpr)> = Vec::new();
    let mut i: usize = 0;
    while i < bs.len()
        invariant
            i <= bs@.len(),
            r@.len() == i,
            forall|j: int| 0 <= j < i ==> #[trigger] r@[j].0@ == bs@[j].0@ && r@[j].1@ == bs@[j].1@,
        decreases bs@.len() - i,
    {
        r.push((bs[i].0.clone(), copy_type(&bs[i].1)));
        i = i + 1;
    }
    r
}

/// Whether `names` holds `name`.
pub(crate) fn holds_name(names: &Vec<String>, name: &String) -> (b: bool)
    ensures
        b == exists|i: int| 0 <= i < names@.len() && #[trigger] names@[i]@ == name@,
{
    let mut i: usize = 0;
    while i < names.len()
        invariant
            i <= names@.len(),
            forall|j: int| 0 <= j < i ==> #[trigger] names@[j]@ != name@,
        decreases names@.len() - i,
    {
        if names[i] == *name {
            return true;
        }
        i = i + 1;
    }
    false
}

/// The values of a list of names with types.
spec fn typed_names_view(v: Seq<(String, TypeExpr)>) -> Seq<(Seq<char>, TypeView)> {
    v.map_values(|p: (String, TypeExpr)| (p.0@, p.1@))
}

/// Whether one of the bindings binds `name`.
fn binds_name(bindings: &Vec<(String, TypeExpr)>, name: &String) -> (b: bool)
    ensures
        b == exists|i: int| 0 <= i < bindings@.len() && #[trigger] bindings@[i].0@ == name@,
{
    let mut i: usize = 0;
    while i < bindings.len()
        invariant
            i <= bindings@.len(),
            forall|j: int| 0 <= j < i ==> #[trigger] bindings@[j].0@ != name@,
        decreases bindings@.len() - i,
    {
        if bindings[i].0 == *name {
            return true;
        }
        i = i + 1;
    }
    false
}

/// The type the first of the bindings of `name` binds it to, if any.
pub open spec fn first_binding(bs: Seq<(String, TypeExpr)>, name: Seq<char>) -> Option<TypeView>
    decreases bs.len(),
{
    if bs.len() == 0 {
        None
    } else if bs[0].0@ == name {
        Some(bs[0].1@)
    } else {
        first_binding(bs.drop_first(), name)
    }
}

/// The type bound to `name` among the bindings, the first binding winning.
fn binding_named(bindings: &Vec<(String, TypeExpr)>, name: &String) -> (r: Option<TypeExpr>)
    ensures
        match r {
            Some(t) => first_binding(bindings@, name@) == Some(t@),
            None => first_binding(bindings@, name@) is None,
        },
{
    let mut i: usize = 0;
    proof {
        assert(bindings@.skip(0) =~= bindings@);
    }
    while i < bindings.len()
        invariant
            i <= bindings@.len(),
            first_binding(bindings@.skip(i as int), name@) == first_binding(bindings@, name@),
        decreases bindings@.len() - i,
    {
        proof {
            assert(bindings@.skip(i as int)[0] == bindings@[i as int]);
        }
        if bindings[i].0 == *name {
            return Some(copy_type(&bindings[i].1));
        }
        proof {
            assert(bindings@.skip(i as int).drop_first() =~= bindings@.skip(i + 1));
        }
        i = i + 1;
    }
    proof {
        assert(bindings@.skip(i as int) =~= Seq::<(String, TypeExpr)>::empty());
    }
    None
}

/// What a generic call needs of a function declaration: its type
/// parameters, its parameters and its declared return type.
struct Signature {
    type_parameters: Vec<Token>,
    parameters: Vec<(Token, TypeExpr)>,
    return_type: Option<TypeExpr>,
}

impl TypeChecker {
    /// A check leaves the checker well formed, keeps every type variable
    /// binding, adds no error to the pending ones and leaves the loop depth
    /// as it found it.
    closed spec fn keeps(before: TypeChecker, after: TypeChecker) -> bool {
        &&& Self::advances(before, after)
        &&& after.errors == before.errors
        &&& after.loop_depth == before.loop_depth
        &&& before.types.tracked_vars@.len() <= after.types.tracked_vars@.len()
        &&& forall|i: int| 0 <= i < before.types.tracked_vars@.len() ==> #[trigger] before.types.tracked_vars@[i]
            == after.types.tracked_vars@[i]
    }

    /// The past states of the variable `name` are read or written somewhere
    /// in what was checked.
    spec fn tracks(&self, name: Seq<char>) -> bool {
        names_hold(self.types.tracked_vars@, name)
    }

    /// Only bookkeeping changed: the scopes, the variants, the unifier, the
    /// errors and the loop depth are as they were.
    closed spec fn same_core(before: TypeChecker, after: TypeChecker) -> bool {
        &&& after.environment == before.environment
        &&& after.enum_variants == before.enum_variants
        &&& after.unifier == before.unifier
        &&& after.errors == before.errors
        &&& after.loop_depth == before.loop_depth
    }

    /// The names local to each lambda being checked, innermost last.
    spec fn locals_view(&self) -> Seq<Seq<Seq<char>>> {
        self.lambda_locals_stack@.map_values(|v: Vec<String>| crate::c_names::strings_view(v@))
    }

    /// What each lambda being checked captures, innermost last.
    spec fn captures_view(&self) -> Seq<Seq<(Seq<char>, TypeView)>> {
        self.lambda_captures_stack@.map_values(|v: Vec<(String, TypeExpr)>| typed_names_view(v@))
    }

    /// Records `name` as a local of the innermost lambda being checked.
    fn add_lambda_local(&mut self, name: &String)
        ensures
            Self::same_core(*old(self), *final(self)),
            final(self).lambda_captures_stack == old(self).lambda_captures_stack,
            final(self).types == old(self).types,
            final(self).user_functions == old(self).user_functions,
            final(self).locals_view() == ({
                let o = old(self).locals_view();
                if o.len() == 0 || o.last().contains(name@) {
                    o
                } else {
                    o.update(o.len() - 1, o.last().push(name@))
                }
            }),
    {
        let ghost o = self.locals_view();
        match self.lambda_locals_stack.pop() {
            Some(mut locals) => {
                let ghost l0 = crate::c_names::strings_view(locals@);
                proof {
                    assert(o.last() == l0);
                    assert(self.locals_view() =~= o.drop_last());
                }
                let held = holds_name(&locals, name);
                proof {
                    if held {
                        let i = choose|i: int| 0 <= i < locals@.len() && #[trigger] locals@[i]@ == name@;
                        assert(l0[i] == name@);
                    }
                    if l0.contains(name@) {
                        let i = choose|i: int| 0 <= i < l0.len() && l0[i] == name@;
                        assert(locals@[i]@ == name@);
                    }
                }
                if !held {
                    let ghost before = locals@;
                    locals.push(name.clone());
                    proof {
                        assert(crate::c_names::strings_view(locals@) =~= l0.push(name@));
                    }
                }
                let ghost l1 = crate::c_names::strings_view(locals@);
                let ghost mid = self.locals_view();
                self.lambda_locals_stack.push(locals);
                proof {
                    assert(self.locals_view() =~= mid.push(l1));
                    assert(self.locals_view() =~= (if l0.contains(name@) {
                        o
                    } else {
                        o.update(o.len() - 1, o.last().push(name@))
                    }));
                }
            },
            None => {},
        }
    }

    /// Records that the innermost lambda being checked captures `name`, of
    /// type `t`, unless `name` is local to it or already captured.
    fn note_capture(&mut self, name: &String, t: &TypeExpr)
        ensures
            Self::same_core(*old(self), *final(self)),
            final(self).lambda_locals_stack == old(self).lambda_locals_stack,
            final(self).types == old(self).types,
            final(self).user_functions == old(self).user_functions,
            final(self).captures_view() == ({
                let c = old(self).captures_view();
                let l = old(self).locals_view();
                if c.len() > 0 && l.len() > 0 && !l.last().contains(name@) && !(exists|i: int|
                    0 <= i < c.last().len() && #[trigger] c.last()[i].0 == name@) {
                    c.update(c.len() - 1, c.last().push((name@, t@)))
                } else {
                    c
                }
            }),
    {
        let ghost c = self.captures_view();
        let ghost l = self.locals_view();
        let n = self.lambda_captures_stack.len();
        let m = self.lambda_locals_stack.len();
        if n > 0 && m > 0 {
            let local = holds_name(&self.lambda_locals_stack[m - 1], name);
            proof {
                let lv = self.lambda_locals_stack@[m - 1];
                assert(l.last() == crate::c_names::strings_view(lv@));
                if local {
                    let i = choose|i: int| 0 <= i < lv@.len() && #[trigger] lv@[i]@ == name@;
                    assert(l.last()[i] == name@);
                }
                if l.last().contains(name@) {
                    let i = choose|i: int| 0 <= i < l.last().len() && l.last()[i] == name@;
                    assert(lv@[i]@ == name@);
                }
            }
            if !local {
                let mut captures = self.lambda_captures_stack.pop().unwrap();
                let ghost c0 = typed_names_view(captures@);
                proof {
                    assert(c.last() == c0);
                    assert(self.captures_view() =~= c.drop_last());
                }
                let bound = binds_name(&captures, name);
                proof {
                    if bound {
                        let i = choose|i: int| 0 <= i < captures@.len() && #[trigger] captures@[i].0@ == name@;
                        assert(c0[i].0 == name@);
                    }
                    if exists|i: int| 0 <= i < c0.len() && #[trigger] c0[i].0 == name@ {
                        let i = choose|i: int| 0 <= i < c0.len() && #[trigger] c0[i].0 == name@;
                        assert(captures@[i].0@ == name@);
                    }
                }
                if !bound {
                    let entry = (name.clone(), copy_type(t));
                    captures.push(entry);
                    proof {
                        assert(typed_names_view(captures@) =~= c0.push((name@, t@)));
                    }
                }
                let ghost c1 = typed_names_view(captures@);
                let ghost mid = self.captures_view();
                self.lambda_captures_stack.push(captures);
                proof {
                    assert(self.captures_view() =~= mid.push(c1));
                }
            }
        }
    }

    /// Each remembered function, by name, with its signature.
    spec fn functions_view(&self) -> Seq<(Seq<char>, SignatureView)> {
        self.user_functions@.map_values(|p: (String, Signature)| (p.0@, signature_view(p.1)))
    }

    /// Remembers the signature of the function `name`, replacing an earlier
    /// function of that name.
    fn remember_function(&mut self, name: &String, function: &FunctionStmt)
        ensures
            Self::same_core(*old(self), *final(self)),
            final(self).types == old(self).types,
            final(self).lambda_locals_stack == old(self).lambda_locals_stack,
            final(self).lambda_captures_stack == old(self).lambda_captures_stack,
            replaced_or_added(old(self).functions_view(), final(self).functions_view(), name@, function_signature_view(*function)),
    {
        let signature = Signature {
            type_parameters: crate::ast::copy_tokens(&function.type_parameters),
            parameters: crate::types::copy_fields(&function.parameters),
            return_type: match &function.return_type {
                Some(t) => Some(copy_type(t)),
                None => None,
            },
        };
        let ghost o = self.functions_view();
        let ghost sv = function_signature_view(*function);
        proof {
            assert(signature_view(signature) == sv);
        }
        let mut i: usize = 0;
        while i < self.user_functions.len()
            invariant
                Self::same_core(*old(self), *self),
                *self == *old(self),
                o == old(self).functions_view(),
                i <= o.len(),
                o.len() == self.user_functions@.len(),
                forall|j: int| 0 <= j < i ==> #[trigger] o[j].0 != name@,
                signature_view(signature) == sv,
                sv == function_signature_view(*function),
            decreases self.user_functions@.len() - i,
        {
            proof {
                assert(o[i as int].0 == self.user_functions@[i as int].0@);
            }
            if self.user_functions[i].0 == *name {
                let entry = (name.clone(), signature);
                self.user_functions.set(i, entry);
                proof {
                    assert(self.functions_view() =~= o.update(i as int, (name@, sv)));
                    assert(first_named(o, name@, i as int));
                }
                return;
            }
            i = i + 1;
        }
        let entry = (name.clone(), signature);
        self.user_functions.push(entry);
        proof {
            assert(self.functions_view() =~= o.push((name@, sv)));
        }
    }

    /// The signature of the function `name`, when it has type parameters.
    fn generic_function(&self, name: &String) -> (r: Option<&Signature>)
        ensures
            match r {
                Some(sig) => exists|i: int|
                    0 <= i < self.functions_view().len() && #[trigger] first_named(self.functions_view(), name@, i)
                        && signature_view(*sig) == self.functions_view()[i].1 && sig.type_parameters@.len() > 0,
                None => forall|i: int|
                    0 <= i < self.functions_view().len() && #[trigger] first_named(self.functions_view(), name@, i)
                        ==> self.functions_view()[i].1.0.len() == 0,
            },
    {
        let ghost o = self.functions_view();
        let mut i: usize = 0;
        while i < self.user_functions.len()
            invariant
                o == self.functions_view(),
                i <= o.len(),
                o.len() == self.user_functions@.len(),
                forall|j: int| 0 <= j < i ==> #[trigger] o[j].0 != name@,
            decreases self.user_functions@.len() - i,
        {
            proof {
                assert(o[i as int] == (self.user_functions@[i as int].0@, signature_view(self.user_functions@[i as int].1)));
            }
            if self.user_functions[i].0 == *name {
                proof {
                    assert(first_named(o, name@, i as int));
                    assert forall|k: int| 0 <= k < o.len() && #[trigger] first_named(o, name@, k) implies k == i by {
                        if k < i {
                            assert(o[k].0 != name@);
                        } else if k > i {
                            assert(o[i as int].0 != name@);
                        }
                    }
                    assert(crate::token::tokens_view(self.user_functions@[i as int].1.type_parameters@).len()
                        == self.user_functions@[i as int].1.type_parameters@.len());
                }
                if self.user_functions[i].1.type_parameters.len() > 0 {
                    return Some(&self.user_functions[i].1);
                } else {
                    return None;
                }
            }
            i = i + 1;
        }
        proof {
            assert forall|k: int| 0 <= k < o.len() && #[trigger] first_named(o, name@, k) implies o[k].1.0.len() == 0 by {
                assert(o[k].0 != name@);
            }
        }
        None
    }

    /// Records the type of the function `name`, replacing an earlier one.
    fn record_function_type(&mut self, name: &String, t: TypeExpr)
        ensures
            Self::same_core(*old(self), *final(self)),
            final(self).user_functions == old(self).user_functions,
            final(self).lambda_locals_stack == old(self).lambda_locals_stack,
            final(self).lambda_captures_stack == old(self).lambda_captures_stack,
            final(self).types.tracked_vars == old(self).types.tracked_vars,
            final(self).types.expr_types == old(self).types.expr_types,
            replaced_or_added(
                typed_names_view(old(self).types.function_types@),
                typed_names_view(final(self).types.function_types@),
                name@,
                t@,
            ),
    {
        let ghost o = typed_names_view(self.types.function_types@);
        let ghost tv = t@;
        let mut i: usize = 0;
        while i < self.types.function_types.len()
            invariant
                Self::same_core(*old(self), *self),
                *self == *old(self),
                o == typed_names_view(old(self).types.function_types@),
                i <= o.len(),
                o.len() == self.types.function_types@.len(),
                forall|j: int| 0 <= j < i ==> #[trigger] o[j].0 != name@,
                t@ == tv,
            decreases self.types.function_types@.len() - i,
        {
            proof {
                assert(o[i as int].0 == self.types.function_types@[i as int].0@);
            }
            if self.types.function_types[i].0 == *name {
                let entry = (name.clone(), t);
                self.types.function_types.set(i, entry);
                proof {
                    assert(typed_names_view(self.types.function_types@) =~= o.update(i as int, (name@, tv)));
                    assert(first_named(o, name@, i as int));
                }
                return;
            }
            i = i + 1;
        }
        let entry = (name.clone(), t);
        self.types.function_types.push(entry);
        proof {
            assert(typed_names_view(self.types.function_types@) =~= o.push((name@, tv)));
        }
    }

    /// Records that the past states of the variable `target` names, if it
    /// is a variable, are read or written.
    fn track_target_var(&mut self, target: &crate::ast::Expr)
        ensures
            Self::same_core(*old(self), *final(self)),
            final(self).user_functions == old(self).user_functions,
            final(self).lambda_locals_stack == old(self).lambda_locals_stack,
            final(self).lambda_captures_stack == old(self).lambda_captures_stack,
            final(self).types.function_types == old(self).types.function_types,
            final(self).types.expr_types == old(self).types.expr_types,
            old(self).types.tracked_vars@.len() <= final(self).types.tracked_vars@.len(),
            forall|i: int| 0 <= i < old(self).types.tracked_vars@.len() ==> #[trigger] final(self).types.tracked_vars@[i]
                == old(self).types.tracked_vars@[i],
            crate::c_names::strings_view(final(self).types.tracked_vars@) == (match *target {
                crate::ast::Expr::Variable(token) => if crate::c_names::strings_view(
                    old(self).types.tracked_vars@,
                ).contains(token.lexeme@) {
                    crate::c_names::strings_view(old(self).types.tracked_vars@)
                } else {
                    crate::c_names::strings_view(old(self).types.tracked_vars@).push(token.lexeme@)
                },
                _ => crate::c_names::strings_view(old(self).types.tracked_vars@),
            }),
    {
        let ghost o = crate::c_names::strings_view(self.types.tracked_vars@);
        if let crate::ast::Expr::Variable(token) = target {
            let held = holds_name(&self.types.tracked_vars, &token.lexeme);
            proof {
                if held {
                    let i = choose|i: int|
                        0 <= i < self.types.tracked_vars@.len() && #[trigger] self.types.tracked_vars@[i]@ == token.lexeme@;
                    assert(o[i] == token.lexeme@);
                }
                if o.contains(token.lexeme@) {
                    let i = choose|i: int| 0 <= i < o.len() && o[i] == token.lexeme@;
                    assert(self.types.tracked_vars@[i]@ == token.lexeme@);
                }
            }
            if !held {
                self.types.tracked_vars.push(token.lexeme.clone());
                proof {
                    assert(crate::c_names::strings_view(self.types.tracked_vars@) =~= o.push(token.lexeme@));
                }
            }
        }
    }
}

} // verus!

verus! {

/// `t` with its type parameters as its type arguments, when it is a named
/// type that has parameters and no arguments yet.
pub open spec fn parameters_as_arguments(t: TypeView) -> TypeView {
    match t {
        TypeView::Named { identifier, type_parameters, type_arguments, enum_variants, struct_fields } => {
            if type_arguments.len() == 0 && type_parameters is Some {
                TypeView::Named {
                    identifier,
                    type_parameters,
                    type_arguments: type_parameters.unwrap(),
                    enum_variants,
                    struct_fields,
                }
            } else {
                t
            }
        },
        _ => t,
    }
}

/// `t` with its type parameters as its type arguments, when it is a named
/// type that has parameters and no arguments yet.
fn with_parameters_as_arguments(t: TypeExpr) -> (r: TypeExpr)
    ensures
        r@ == parameters_as_arguments(t@),
{
    match t {
        TypeExpr::Named { identifier, type_parameters, type_arguments, enum_variants, struct_fields } => {
            proof {
                lemma_types_view_index(type_arguments@);
            }
            let arguments = if type_arguments.len() == 0 {
                match &type_parameters {
                    Some(parameters) => copy_types(parameters),
                    None => type_arguments,
                }
            } else {
                type_arguments
            };
            TypeExpr::Named { identifier, type_parameters, type_arguments: arguments, enum_variants, struct_fields }
        },
        other => other,
    }
}

/// The value of a signature: its type parameters, its parameters and its
/// declared return type.
type SignatureView = (Seq<crate::token::TokenView>, Seq<(crate::token::TokenView, TypeView)>, Option<TypeView>);

/// The value of a signature.
spec fn signature_view(s: Signature) -> SignatureView {
    (
        crate::token::tokens_view(s.type_parameters@),
        fields_view(s.parameters@),
        match s.return_type {
            Some(t) => Some(t@),
            None => None,
        },
    )
}

/// The value of a function declaration's signature.
spec fn function_signature_view(f: FunctionStmt) -> SignatureView {
    (
        crate::token::tokens_view(f.type_parameters@),
        fields_view(f.parameters@),
        match f.return_type {
            Some(t) => Some(t@),
            None => None,
        },
    )
}

/// Position `i` of `v` is the first with the name `name`.
spec fn first_named<X>(v: Seq<(Seq<char>, X)>, name: Seq<char>, i: int) -> bool {
    &&& 0 <= i < v.len()
    &&& v[i].0 == name
    &&& forall|j: int| 0 <= j < i ==> v[j].0 != name
}

/// `after` is `before` with the first entry named `name` given the value
/// `x`, or with `(name, x)` added at the end where there is none.
spec fn replaced_or_added<X>(before: Seq<(Seq<char>, X)>, after: Seq<(Seq<char>, X)>, name: Seq<char>, x: X) -> bool {
    if exists|i: int| 0 <= i < before.len() && before[i].0 == name {
        exists|i: int| #[trigger] first_named(before, name, i) && after == before.update(i, (name, x))
    } else {
        after == before.push((name, x))
    }
}

proof fn lemma_replaced_or_added_finds<X>(before: Seq<(Seq<char>, X)>, after: Seq<(Seq<char>, X)>, name: Seq<char>, x: X)
    requires
        replaced_or_added(before, after, name, x),
    ensures
        exists|i: int| #[trigger] first_named(after, name, i) && after[i].1 == x,
{
    if exists|i: int| 0 <= i < before.len() && before[i].0 == name {
        let i = choose|i: int| #[trigger] first_named(before, name, i) && after == before.update(i, (name, x));
        assert(first_named(after, name, i));
    } else {
        assert(first_named(after, name, before.len() as int));
    }
}

fn copy_signature(s: &Signature) -> (r: Signature)
    ensures
        signature_view(r) == signature_view(*s),
{
    Signature {
        type_parameters: crate::ast::copy_tokens(&s.type_parameters),
        parameters: crate::types::copy_fields(&s.parameters),
        return_type: match &s.return_type {
            Some(t) => Some(copy_type(t)),
            None => None,
        },
    }
}

impl TypeChecker {
    /// Binds the names of `binding` to the parts of `var_type` in the
    /// innermost scope: a name to the whole type, a tuple of bindings
    /// element by element to a tuple type of the same size.
    fn bind_variable(&mut self, binding: &VariableBinding, var_type: &TypeExpr) -> (r: Result<(), TypeError>)
        requires
            old(self).inv(),
        ensures
            Self::keeps(*old(self), *final(self)),
            final(self).unifier == old(self).unifier,
            final(self).enum_variants == old(self).enum_variants,
            final(self).types.expr_types == old(self).types.expr_types,
            binding matches VariableBinding::Identifier(token) ==> r is Ok && Self::declared(
                *old(self),
                *final(self),
                token.lexeme@,
                var_type@,
            ),
            binding matches VariableBinding::Tuple { elements, left_paren } ==> Self::destructured(
                old(self).resolved(var_type@),
                elements@.len(),
                *left_paren,
                r,
            ),
        decreases binding,
    {
        match binding {
            VariableBinding::Identifier(token) => {
                self.environment.insert(token, copy_type(var_type));
                self.add_lambda_local(&token.lexeme);
                Ok(())
            },
            VariableBinding::Tuple { elements, left_paren } => {
                let resolved = self.unifier.apply_substitutions(var_type);
                let ghost rv = resolved@;
                proof {
                    assert(rv == old(self).resolved(var_type@));
                }
                match resolved {
                    TypeExpr::Tuple { element_types } => {
                        proof {
                            lemma_types_view_index(element_types@);
                        }
                        if element_types.len() != elements.len() {
                            return Err(
                                TypeError::TupleArityMismatch {
                                    line: left_paren.line,
                                    column: left_paren.column,
                                    expected: element_types.len(),
                                    found: elements.len(),
                                },
                            );
                        }
                        let mut i: usize = 0;
                        while i < elements.len()
                            invariant
                                Self::keeps(*old(self), *self),
                                self.unifier == old(self).unifier,
                                self.enum_variants == old(self).enum_variants,
                                self.types.expr_types == old(self).types.expr_types,
                                old(self).resolved(var_type@) == (TypeView::Tuple { element_types: types_view(element_types@) }),
                                types_view(element_types@).len() == element_types@.len(),
                                element_types@.len() == elements@.len(),
                                *binding matches VariableBinding::Tuple { elements: es, .. } && es == *elements,
                            decreases elements@.len() - i,
                        {
                            self.bind_variable(&elements[i], &element_types[i])?;
                            i = i + 1;
                        }
                        Ok(())
                    },
                    other => Err(
                        TypeError::DestructureRequiresTuple {
                            line: left_paren.line,
                            column: left_paren.column,
                            target_type: other,
                        },
                    ),
                }
            },
        }
    }

    /// The outcome of destructuring a value of type `t` into a tuple of
    /// `n` bindings opened at `left_paren`, where `t` is no tuple or a tuple
    /// of another size.
    spec fn destructured(t: TypeView, n: nat, left_paren: Token, r: Result<(), TypeError>) -> bool {
        match t {
            TypeView::Tuple { element_types } => element_types.len() != n ==> r == Err::<(), TypeError>(
                TypeError::TupleArityMismatch {
                    line: left_paren.line,
                    column: left_paren.column,
                    expected: element_types.len() as usize,
                    found: n as usize,
                },
            ),
            other => r matches Err(TypeError::DestructureRequiresTuple { line, column, target_type }) && line
                == left_paren.line && column == left_paren.column && target_type@ == other,
        }
    }

    /// Enters each variant of `enum_type` in the table of variants; a
    /// variant name already there is a duplicate.
    fn register_enum_variants(&mut self, enum_type: &TypeExpr) -> (r: Result<(), TypeError>)
        requires
            old(self).inv(),
        ensures
            Self::keeps(*old(self), *final(self)),
            final(self).unifier == old(self).unifier,
            final(self).environment == old(self).environment,
            match *enum_type {
                TypeExpr::Named { enum_variants: Some(vs), .. } => Self::registered(
                    old(self).enum_variants,
                    final(self).enum_variants,
                    variants_view(vs@),
                    enum_type@,
                    r,
                ),
                _ => r is Ok && *final(self) == *old(self),
            },
    {
        if let TypeExpr::Named { enum_variants: Some(variants), .. } = enum_type {
            let ghost vs = variants_view(variants@);
            proof {
                lemma_variants_view_index(variants@);
            }
            let mut i: usize = 0;
            while i < variants.len()
                invariant
                    Self::keeps(*old(self), *self),
                    self.unifier == old(self).unifier,
                    self.environment == old(self).environment,
                    vs == variants_view(variants@),
                    vs.len() == variants@.len(),
                    forall|k: int| 0 <= k < vs.len() ==> #[trigger] vs[k].identifier == variants@[k].identifier@,
                    *enum_type matches TypeExpr::Named { enum_variants: Some(w), .. } && variants_view(w@) == vs,
                    i <= vs.len(),
                    forall|k: int| 0 <= k < i ==> !#[trigger] Self::variant_taken(old(self).enum_variants, vs, k),
                    forall|k: int| 0 <= k < i ==> #[trigger] self.variant_owner(vs[k].identifier.lexeme) == Some(enum_type@),
                    forall|name: Seq<char>| (forall|k: int| 0 <= k < i ==> #[trigger] vs[k].identifier.lexeme != name)
                        ==> #[trigger] self.variant_owner(name) == old(self).variant_owner(name),
                decreases variants@.len() - i,
            {
                let v = &variants[i];
                let ghost name = v.identifier.lexeme@;
                proof {
                    if exists|j: int| 0 <= j < i && vs[j].identifier.lexeme == name {
                        let j = choose|j: int| 0 <= j < i && vs[j].identifier.lexeme == name;
                        assert(self.variant_owner(vs[j].identifier.lexeme) == Some(enum_type@));
                        assert(self.variant_owner(name) is Some);
                    } else {
                        assert(self.variant_owner(name) == old(self).variant_owner(name));
                    }
                }
                if self.enum_variants.lookup(&v.identifier).is_some() {
                    let e = TypeError::DuplicateEnumVariant {
                        line: v.identifier.line,
                        column: v.identifier.column,
                        variant_identifier: v.identifier.lexeme.clone(),
                    };
                    proof {
                        assert(Self::variant_taken(old(self).enum_variants, vs, i as int));
                        assert(Self::duplicate_variant_error(e, vs[i as int].identifier));
                        assert(Self::registered(old(self).enum_variants, self.enum_variants, vs, enum_type@, Err(e)));
                    }
                    return Err(e);
                }
                proof {
                    assert(!Self::variant_taken(old(self).enum_variants, vs, i as int));
                }
                let ghost before = *self;
                self.enum_variants.insert(v.identifier.lexeme.clone(), copy_type(enum_type));
                proof {
                    assert forall|k: int| 0 <= k < i + 1 implies #[trigger] self.variant_owner(vs[k].identifier.lexeme)
                        == Some(enum_type@) by {
                        if vs[k].identifier.lexeme != name {
                            assert(before.variant_owner(vs[k].identifier.lexeme) == Some(enum_type@));
                        }
                    }
                    assert forall|nm: Seq<char>| (forall|k: int| 0 <= k < i + 1 ==> #[trigger] vs[k].identifier.lexeme != nm)
                        implies #[trigger] self.variant_owner(nm) == old(self).variant_owner(nm) by {
                        assert(vs[i as int].identifier.lexeme != nm);
                        assert(before.variant_owner(nm) == old(self).variant_owner(nm));
                    }
                }
                i = i + 1;
            }
            proof {
                assert forall|k: int| 0 <= k < vs.len() implies !#[trigger] Self::variant_taken(old(self).enum_variants, vs, k) by {}
                assert forall|k: int| 0 <= k < vs.len() implies #[trigger] self.enum_variants.bound(vs[k].identifier.lexeme)
                    == Some(enum_type@) by {
                    assert(self.variant_owner(vs[k].identifier.lexeme) == Some(enum_type@));
                }
                assert forall|nm: Seq<char>| (forall|k: int| 0 <= k < vs.len() ==> #[trigger] vs[k].identifier.lexeme != nm)
                    implies #[trigger] self.enum_variants.bound(nm) == old(self).enum_variants.bound(nm) by {
                    assert(self.variant_owner(nm) == old(self).variant_owner(nm));
                }
            }
        }
        Ok(())
    }

    /// The outcome of entering the variants `vs` of the enum type `t`: an
    /// error for the first variant whose name is taken, if there is one;
    /// else each name of `vs` belongs to `t`, and no other changed owner.
    spec fn registered(
        before: SymbolTable,
        after: SymbolTable,
        vs: Seq<crate::types::VariantView>,
        t: TypeView,
        r: Result<(), TypeError>,
    ) -> bool {
        &&& (r is Err <==> exists|i: int| 0 <= i < vs.len() && #[trigger] Self::variant_taken(before, vs, i))
        &&& (r matches Err(e) ==> exists|i: int|
            0 <= i < vs.len() && #[trigger] Self::variant_taken(before, vs, i) && (forall|k: int|
                0 <= k < i ==> !#[trigger] Self::variant_taken(before, vs, k)) && Self::duplicate_variant_error(
                e,
                vs[i].identifier,
            ))
        &&& (r is Ok ==> forall|i: int| 0 <= i < vs.len() ==> #[trigger] after.bound(vs[i].identifier.lexeme) == Some(t))
        &&& (r is Ok ==> forall|name: Seq<char>| (forall|i: int| 0 <= i < vs.len() ==> #[trigger] vs[i].identifier.lexeme != name)
            ==> #[trigger] after.bound(name) == before.bound(name))
    }

    /// The variant at `i` of `vs` has a name that the table of variants
    /// already holds, or that an earlier variant of `vs` has.
    spec fn variant_taken(table: SymbolTable, vs: Seq<crate::types::VariantView>, i: int) -> bool {
        ||| table.bound(vs[i].identifier.lexeme) is Some
        ||| exists|j: int| 0 <= j < i && vs[j].identifier.lexeme == vs[i].identifier.lexeme
    }

    /// `e` reports `identifier` as a duplicate enum variant.
    spec fn duplicate_variant_error(e: TypeError, identifier: crate::token::TokenView) -> bool {
        e matches TypeError::DuplicateEnumVariant { line, column, variant_identifier } && line == identifier.line
            && column == identifier.column && variant_identifier@ == identifier.lexeme
    }

    /// Fresh type variables, one for each of `type_parameters`.
    fn fresh_parameters(&mut self, type_parameters: &Vec<Token>, token: &Token) -> (r: Result<Vec<TypeExpr>, TypeError>)
        requires
            old(self).inv(),
        ensures
            Self::keeps(*old(self), *final(self)),
            final(self).environment == old(self).environment,
            final(self).enum_variants == old(self).enum_variants,
            r matches Ok(ps) ==> ps@.len() == type_parameters@.len() && forall|i: int|
                0 <= i < ps@.len() ==> #[trigger] ps@[i]@ == (TypeView::TypeVar {
                    id: (old(self).unifier.next_id() + i) as usize,
                }),
            r is Ok <==> old(self).unifier.next_id() + type_parameters@.len() <= TYPE_VARIABLE_LIMIT,
            r matches Err(e) ==> e == Self::limit_error_at(*token),
    {
        let mut parameters: Vec<TypeExpr> = Vec::new();
        let mut i: usize = 0;
        while i < type_parameters.len()
            invariant
                Self::keeps(*old(self), *self),
                self.environment == old(self).environment,
                self.enum_variants == old(self).enum_variants,
                i <= type_parameters@.len(),
                parameters@.len() == i,
                self.unifier.next_id() == old(self).unifier.next_id() + i,
                old(self).unifier.next_id() + i <= TYPE_VARIABLE_LIMIT,
                forall|j: int| 0 <= j < i ==> #[trigger] parameters@[j]@ == (TypeView::TypeVar {
                    id: (old(self).unifier.next_id() + j) as usize,
                }),
            decreases type_parameters@.len() - i,
        {
            let p = self.fresh(token)?;
            parameters.push(p);
            i = i + 1;
        }
        Ok(parameters)
    }

    /// An enum declaration binds its name to its type, with a fresh type
    /// variable for each type parameter, and enters its variants.
    fn check_enum(&mut self, identifier: &Token, type_parameters: &Vec<Token>, variants: &Vec<EnumVariant>) -> (r:
        Result<(), TypeError>)
        requires
            old(self).inv(),
        ensures
            Self::keeps(*old(self), *final(self)),
            old(self).unifier.next_id() + type_parameters@.len() > TYPE_VARIABLE_LIMIT ==> r == Err::<(), TypeError>(
                Self::limit_error_at(*identifier),
            ),
            old(self).unifier.next_id() + type_parameters@.len() <= TYPE_VARIABLE_LIMIT ==> {
                let t = TypeView::Named {
                    identifier: identifier@,
                    type_parameters: Some(fresh_vars(old(self).unifier.next_id(), type_parameters@.len())),
                    type_arguments: Seq::empty(),
                    enum_variants: Some(variants_view(variants@)),
                    struct_fields: None,
                };
                &&& Self::registered(old(self).enum_variants, final(self).enum_variants, variants_view(variants@), t, r)
                &&& (r is Ok ==> Self::declared(*old(self), *final(self), identifier.lexeme@, t))
            },
    {
        let ghost base = self.unifier.next_id();
        let parameters = self.fresh_parameters(type_parameters, identifier)?;
        let ghost mid = *self;
        let ghost ps = fresh_vars(base, type_parameters@.len());
        proof {
            lemma_types_view_index(parameters@);
            assert(parameters@.len() == type_parameters@.len());
            assert forall|k: int| 0 <= k < ps.len() implies #[trigger] types_view(parameters@)[k] == ps[k] by {
                assert(parameters@[k]@ == (TypeView::TypeVar { id: (base + k) as usize }));
            }
            assert(types_view(parameters@) =~= ps);
            assert(types_view(Seq::<TypeExpr>::empty()) =~= Seq::<TypeView>::empty());
            assert(mid.enum_variants == old(self).enum_variants);
        }
        let enum_type = TypeExpr::Named {
            identifier: identifier.clone(),
            type_parameters: Some(parameters),
            type_arguments: Vec::new(),
            enum_variants: Some(copy_variants(variants)),
            struct_fields: None,
        };
        let ghost t = TypeView::Named {
            identifier: identifier@,
            type_parameters: Some(ps),
            type_arguments: Seq::empty(),
            enum_variants: Some(variants_view(variants@)),
            struct_fields: None,
        };
        proof {
            assert(enum_type@ =~= t);
        }
        let rr = self.register_enum_variants(&enum_type);
        let ghost vv = variants_view(variants@);
        proof {
            assert(Self::registered(old(self).enum_variants, self.enum_variants, vv, t, rr));
        }
        if rr.is_err() {
            return rr;
        }
        let ghost before = *self;
        self.environment.insert(identifier, enum_type);
        proof {
            assert(self.enum_variants == before.enum_variants);

        }
        Ok(())
    }

    /// `after` binds `name` to `t` in the innermost scope of `before`, when
    /// a scope is open, and binds every other name as `before` did.
    spec fn declared(before: TypeChecker, after: TypeChecker, name: Seq<char>, t: TypeView) -> bool {
        &&& after.depth() == before.depth()
        &&& before.depth() > 0 ==> after.bound(name) == Some(t)
        &&& forall|other: Seq<char>| other != name ==> #[trigger] after.bound(other) == before.bound(other)
    }

    /// A struct declaration binds its name to its type, whose field types
    /// name fresh type variables in place of its type parameters.
    fn check_struct(&mut self, identifier: &Token, type_parameters: &Vec<Token>, fields: &Vec<(Token, TypeExpr)>) -> (r:
        Result<(), TypeError>)
        requires
            old(self).inv(),
        ensures
            Self::keeps(*old(self), *final(self)),
            final(self).enum_variants == old(self).enum_variants,
            r is Ok <==> old(self).unifier.next_id() + type_parameters@.len() <= TYPE_VARIABLE_LIMIT,
            r matches Err(e) ==> e == Self::limit_error_at(*identifier),
            r is Ok ==> {
                let ps = fresh_vars(old(self).unifier.next_id(), type_parameters@.len());
                Self::declared(
                    *old(self),
                    *final(self),
                    identifier.lexeme@,
                    TypeView::Named {
                        identifier: identifier@,
                        type_parameters: Some(ps),
                        type_arguments: Seq::empty(),
                        enum_variants: None,
                        struct_fields: Some(instantiated_fields_view(fields@, lexemes(type_parameters@), ps)),
                    },
                )
            },
    {
        let ghost base = self.unifier.next_id();
        let new_type_parameters = self.fresh_parameters(type_parameters, identifier)?;
        let ghost ps = fresh_vars(base, type_parameters@.len());
        let ghost names = lexemes(type_parameters@);
        proof {
            lemma_types_view_index(new_type_parameters@);
            assert forall|k: int| 0 <= k < ps.len() implies #[trigger] types_view(new_type_parameters@)[k] == ps[k] by {
                assert(new_type_parameters@[k]@ == (TypeView::TypeVar { id: (base + k) as usize }));
            }
            assert(types_view(new_type_parameters@) =~= ps);
        }
        let mut instantiated_fields: Vec<(Token, TypeExpr)> = Vec::new();
        let mut i: usize = 0;
        while i < fields.len()
            invariant
                new_type_parameters@.len() == type_parameters@.len(),
                types_view(new_type_parameters@) == ps,
                names == lexemes(type_parameters@),
                i <= fields@.len(),
                instantiated_fields@.len() == i,
                forall|j: int| 0 <= j < i ==> #[trigger] instantiated_fields@[j].0@ == fields@[j].0@
                    && instantiated_fields@[j].1@ == substituted(fields@[j].1@, names, ps),
            decreases fields@.len() - i,
        {
            proof {
                lemma_full_arguments_cover(fields@[i as int].1@, lexemes(type_parameters@));
            }
            instantiated_fields.push(
                (fields[i].0.clone(), substitute_type_parameters(&fields[i].1, type_parameters, &new_type_parameters)),
            );
            i = i + 1;
        }
        proof {
            lemma_fields_view_index(instantiated_fields@);
            assert(fields_view(instantiated_fields@) =~= instantiated_fields_view(fields@, names, ps));
            assert(types_view(Seq::<TypeExpr>::empty()) =~= Seq::<TypeView>::empty());
        }
        let struct_type = TypeExpr::Named {
            identifier: identifier.clone(),
            type_parameters: Some(new_type_parameters),
            type_arguments: Vec::new(),
            enum_variants: None,
            struct_fields: Some(instantiated_fields),
        };
        self.environment.insert(identifier, struct_type);
        Ok(())
    }

    /// Checks a statement.
    fn check_stmt(&mut self, stmt: &Stmt) -> (r: Result<(), TypeError>)
        requires
            old(self).inv(),
        ensures
            Self::keeps(*old(self), *final(self)),
            stmt matches Stmt::Break(t) ==> (r is Ok <==> old(self).loop_depth > 0) && (r matches Err(e) ==> e
                == (TypeError::BreakOutsideLoop { line: t.line, column: t.column })),
            stmt matches Stmt::Continue(t) ==> (r is Ok <==> old(self).loop_depth > 0) && (r matches Err(e) ==> e
                == (TypeError::ContinueOutsideLoop { line: t.line, column: t.column })),
            stmt matches Stmt::While { while_token, condition, .. } ==> literal_condition_outcome(*while_token, *condition, r),
            literal_statement(*stmt) ==> r is Ok,
            literal_statement(*stmt) ==> forall|other: Seq<char>| other != declared_name(*stmt)
                ==> #[trigger] final(self).bound(other) == old(self).bound(other),
            stmt matches Stmt::Expression(Expr::Call { callee, arguments, .. }) ==> (print_literal_call(
                *old(self),
                **callee,
                arguments@,
            ) ==> r is Ok && final(self).environment == old(self).environment),
            literal_statement(*stmt) ==> final(self).types.expr_types@.len() == old(self).types.expr_types@.len() + 1 && (forall|k: int|
                0 <= k < old(self).types.expr_types@.len() ==> #[trigger] final(self).types.expr_types@[k] == old(
                self,
            ).types.expr_types@[k]) && final(self).types.expr_types@.last()@ == statement_literal_type(*stmt),
            Self::trivial_loop(*old(self), *stmt) ==> r is Ok,
            old(self).loop_depth == 0 && surely_fails(*stmt) ==> r is Err,
            stmt matches Stmt::If { if_token, condition, .. } ==> literal_condition_outcome(*if_token, *condition, r),
        decreases stmt, 2nat,
    {
        match stmt {
            Stmt::Variable { binding, type_annotation, initializer } => self.check_var(
                binding,
                type_annotation,
                initializer,
                Ghost(*stmt),
            ),
            Stmt::Enum { identifier, type_parameters, variants } => self.check_enum(identifier, type_parameters, variants),
            Stmt::Struct { identifier, type_parameters, fields } => self.check_struct(identifier, type_parameters, fields),
            Stmt::If { if_token, condition, then_branch, else_branch } => self.check_if(
                if_token,
                condition,
                then_branch,
                else_branch,
                Ghost(*stmt),
            ),
            Stmt::While { while_token, condition, body } => self.check_while(while_token, condition, body, Ghost(*stmt)),
            Stmt::ForIn { binding, iterable, body } => self.check_for_in(binding, iterable, body, Ghost(*stmt)),
            Stmt::Function(function) => {
                let f: &FunctionStmt = function;
                self.check_function(f, Ghost(*stmt))
            },
            Stmt::Block(statements) => self.check_block(statements, Ghost(*stmt)),
            Stmt::Expression(expr) => {
                self.check_expr(expr)?;
                Ok(())
            },
            Stmt::Break(token) => check_loop_control(token, self.loop_depth, true),
            Stmt::Continue(token) => check_loop_control(token, self.loop_depth, false),
        }
    }

    /// A variable declaration: the initializer is checked, unified with
    /// the annotation, and the binding bound to the result.
    fn check_var(
        &mut self,
        binding: &VariableBinding,
        type_annotation: &Option<TypeExpr>,
        initializer: &Option<Expr>,
        Ghost(node): Ghost<Stmt>,
    ) -> (r: Result<(), TypeError>)
        requires
            old(self).inv(),
            node matches Stmt::Variable { initializer: i, .. } && i == *initializer,
        ensures
            Self::keeps(*old(self), *final(self)),
            literal_statement(Stmt::Variable { binding: *binding, type_annotation: *type_annotation, initializer: *initializer })
                ==> r is Ok,
            literal_statement(Stmt::Variable { binding: *binding, type_annotation: *type_annotation, initializer: *initializer })
                ==> forall|other: Seq<char>| other != binding->Identifier_0.lexeme@ ==> #[trigger] final(self).bound(other)
                == old(self).bound(other),
            literal_statement(Stmt::Variable { binding: *binding, type_annotation: *type_annotation, initializer: *initializer })
                ==> final(self).types.expr_types@.len() == old(self).types.expr_types@.len() + 1 && (forall|k: int|
                0 <= k < old(self).types.expr_types@.len() ==> #[trigger] final(self).types.expr_types@[k] == old(
                self,
            ).types.expr_types@[k]) && final(self).types.expr_types@.last()@ == statement_literal_type(
                Stmt::Variable { binding: *binding, type_annotation: *type_annotation, initializer: *initializer },
            ),
            initializer is None ==> match *type_annotation {
                None => r matches Err(TypeError::MissingTypeAnnotationAndInitializer { line, column, identifier })
                    && line == crate::ast::first_token_of(*binding).line && column == crate::ast::first_token_of(
                    *binding,
                ).column && identifier@ == crate::check_rules::binding_name(*binding),
                Some(a) => {
                    &&& (reaches_limit(a@) ==> r == Err::<(), TypeError>(
                        Self::limit_error_at(crate::ast::first_token_of(*binding)),
                    ))
                    &&& (binding is Identifier ==> (r is Ok <==> !reaches_limit(a@)))
                    &&& (binding is Identifier && r is Ok ==> Self::declared(
                        *old(self),
                        *final(self),
                        binding->Identifier_0.lexeme@,
                        a@,
                    ))
                },
            },
        decreases node, 1nat,
    {
        let first_token = binding.first_token();
        let initializer_type = match initializer {
            Some(initializer_expr) => {
                let t = self.check_expr(initializer_expr)?;
                self.types.initializer_types.push(((first_token.line, first_token.column), copy_type(&t)));
                Some(t)
            },
            None => None,
        };
        let annotation = match type_annotation {
            Some(t) => Some(copy_type(t)),
            None => None,
        };
        if let Some(a) = &annotation {
            proof {
                if let Some(Expr::Literal(l)) = initializer {
                    if crate::check_rules::literal_type(*l) matches Some(t) && plain_annotation(a@, t) {
                        assert(seq_type_vars(Seq::<TypeView>::empty()) =~= Set::<usize>::empty());
                        assert(a@->Named_type_arguments =~= Seq::<TypeView>::empty());
                        assert(type_vars(a@) =~= Set::<usize>::empty());
                    }
                }
            }
            self.reserve_vars_of(a, first_token)?;
        }
        if let Some(i) = &initializer_type {
            proof {
                if let Some(Expr::Literal(l)) = initializer {
                    assert(seq_type_vars(Seq::<TypeView>::empty()) =~= Set::<usize>::empty());
                    assert(type_vars(i@) =~= Set::<usize>::empty());
                }
            }
            self.reserve_vars_of(i, first_token)?;
        }
        proof {
            if let (Some(a), Some(i), Some(Expr::Literal(l))) = (&annotation, &initializer_type, initializer) {
                if crate::check_rules::literal_type(*l) matches Some(t) && plain_annotation(a@, t) {
                    assert forall|v: usize| !#[trigger] var_in(v, i@) by {
                        assert(!var_in_seq(v, Seq::<TypeView>::empty()));
                    }
                    assert(crate::unifier::shapes(Seq::<TypeView>::empty()) =~= Seq::<crate::unifier::Shape>::empty());
                    assert(a@->Named_type_arguments =~= Seq::<TypeView>::empty());
                    assert(shape(i@) == shape(a@));
                }
            }
        }
        let var_type = variable_type(&mut self.unifier, annotation, initializer_type, binding)?;
        self.bind_variable(binding, &var_type)
    }

    /// An `if` statement: a `Bool` condition and well-typed branches.
    fn check_if(
        &mut self,
        if_token: &Token,
        condition: &Expr,
        then_branch: &Stmt,
        else_branch: &Option<Box<Stmt>>,
        Ghost(node): Ghost<Stmt>,
    ) -> (r: Result<(), TypeError>)
        requires
            old(self).inv(),
            node matches Stmt::If { condition: c, then_branch: t, else_branch: e, .. } && c == *condition && *t
                == *then_branch && e == *else_branch,
        ensures
            Self::keeps(*old(self), *final(self)),
            literal_condition_outcome(*if_token, *condition, r),
            old(self).loop_depth == 0 && surely_fails(*then_branch) ==> r is Err,
            old(self).loop_depth == 0 && (else_branch matches Some(e) && surely_fails(**e)) ==> r is Err,
        decreases node, 1nat,
    {
        let condition_type = self.check_expr(condition)?;
        proof {
            if let Expr::Literal(l) = condition {
                crate::check_rules::lemma_literal_type_names(*l);
            }
        }
        match check_condition(if_token, condition_type) {
            Ok(()) => {},
            Err(e) => {
                return Err(e);
            },
        }
        self.check_stmt(then_branch)?;
        if let Some(else_stmt) = else_branch {
            self.check_stmt(else_stmt)?;
        }
        Ok(())
    }

    /// Checks a loop body one loop deeper, then restores the depth.
    fn check_loop_body(&mut self, body: &Stmt, Ghost(node): Ghost<Stmt>) -> (r: Result<(), TypeError>)
        requires
            old(self).inv(),
            (node matches Stmt::While { body: b, .. } && *b == *body) || (node matches Stmt::ForIn { body: b, .. } && *b
                == *body),
        ensures
            Self::keeps(*old(self), *final(self)),
            body matches Stmt::Break(_) ==> r is Ok,
            body matches Stmt::Continue(_) ==> r is Ok,
        decreases node, 0nat,
    {
        let saved = self.loop_depth;
        if saved < usize::MAX {
            self.loop_depth = saved + 1;
        }
        let result = self.check_stmt(body);
        self.loop_depth = saved;
        result
    }

    /// A `while` loop: a `Bool` condition and a well-typed body, checked
    /// inside the loop.
    fn check_while(&mut self, while_token: &Token, condition: &Expr, body: &Stmt, Ghost(node): Ghost<Stmt>) -> (r:
        Result<(), TypeError>)
        requires
            old(self).inv(),
            node matches Stmt::While { condition: c, body: b, .. } && c == *condition && *b == *body,
        ensures
            Self::keeps(*old(self), *final(self)),
            literal_condition_outcome(*while_token, *condition, r),
            Self::bool_variant_condition(*old(self), *condition) && (*body is Break || *body is Continue) ==> r is Ok,
        decreases node, 1nat,
    {
        let condition_type = self.check_expr(condition)?;
        proof {
            if Self::bool_variant_condition(*old(self), *condition) {
                let id = condition->Variable_0;
                let t = old(self).variant_owner(id.lexeme@).unwrap();
                assert(has_variant(t, id.lexeme@));
                let (m, lo, ps) = choose|m: Map<usize, usize>, lo: nat, ps: Seq<TypeView>|
                    {
                        &&& m.dom() == type_vars(t)
                        &&& lo >= old(self).unifier.next_id()
                        &&& #[trigger] crate::renaming::fresh_renaming(m, lo, self.unifier.next_id())
                        &&& #[trigger] first_payload(variants_of(t), id.lexeme@, ps)
                        &&& condition_type@ == variant_value_type(ps, parameters_as_arguments(crate::renaming::rename(m, t)))
                    };
                lemma_first_payload_unique(variants_of(t), id.lexeme@, ps, Seq::empty());
                assert(crate::type_rules::is_named(condition_type@, "Bool"@));
            }
        }
        proof {
            if let Expr::Literal(l) = condition {
                crate::check_rules::lemma_literal_type_names(*l);
            }
        }
        match check_condition(while_token, condition_type) {
            Ok(()) => {},
            Err(e) => {
                return Err(e);
            },
        }
        self.check_loop_body(body, Ghost(node))
    }

    /// A for-in loop: the binding, in a new scope, takes the element type
    /// of the iterable, and the body is checked inside the loop.
    fn check_for_in(&mut self, binding: &VariableBinding, iterable: &Expr, body: &Stmt, Ghost(node): Ghost<Stmt>) -> (r:
        Result<(), TypeError>)
        requires
            old(self).inv(),
            node matches Stmt::ForIn { iterable: i, body: b, .. } && i == *iterable && *b == *body,
        ensures
            Self::keeps(*old(self), *final(self)),
        decreases node, 1nat,
    {
        let iterable_type = self.check_expr(iterable)?;
        let first_token = binding.first_token();
        let element_type = for_in_element_type(iterable_type, first_token)?;
        self.environment.push_scope();
        self.bind_variable(binding, &element_type)?;
        let result = self.check_loop_body(body, Ghost(node));
        self.environment.pop_scope();
        result
    }

    /// A function declaration: its type, with fresh type variables for its
    /// type parameters, is bound before its body is checked (so that it can
    /// call itself) and again, with the return type inferred from its body,
    /// after.
    fn check_function(&mut self, function: &FunctionStmt, Ghost(node): Ghost<Stmt>) -> (r: Result<(), TypeError>)
        requires
            old(self).inv(),
            node matches Stmt::Function(f) && *f == *function,
        ensures
            Self::keeps(*old(self), *final(self)),
            old(self).unifier.next_id() + function.type_parameters@.len() > TYPE_VARIABLE_LIMIT ==> r == Err::<
                (),
                TypeError,
            >(Self::limit_error_at(function.identifier)),
            r is Ok ==> exists|i: int|
                #[trigger] first_named(typed_names_view(final(self).types.function_types@), function.identifier.lexeme@, i)
                    && (typed_names_view(final(self).types.function_types@)[i].1 matches TypeView::Function {
                    parameter_types,
                    ..
                } && parameter_types.len() == function.parameters@.len()),
        decreases node, 1nat,
    {
        self.remember_function(&function.identifier.lexeme, function);
        let new_type_parameters = self.fresh_parameters(&function.type_parameters, &function.identifier)?;
        let ghost names = lexemes(function.type_parameters@);
        let mut parameter_types: Vec<TypeExpr> = Vec::new();
        let mut i: usize = 0;
        while i < function.parameters.len()
            invariant
                new_type_parameters@.len() == function.type_parameters@.len(),
                names == lexemes(function.type_parameters@),
                i <= function.parameters@.len(),
                parameter_types@.len() == i,
            decreases function.parameters@.len() - i,
        {
            proof {
                lemma_full_arguments_cover(function.parameters@[i as int].1@, names);
            }
            parameter_types.push(
                substitute_type_parameters(&function.parameters[i].1, &function.type_parameters, &new_type_parameters),
            );
            i = i + 1;
        }
        let annotated_return_type = match &function.return_type {
            Some(t) => {
                proof {
                    lemma_full_arguments_cover(t@, names);
                }
                Some(substitute_type_parameters(t, &function.type_parameters, &new_type_parameters))
            },
            None => None,
        };
        let recursion_return_type = match &annotated_return_type {
            Some(t) => copy_type(t),
            None => create_primitive_type("Void", function.identifier.line, function.identifier.column),
        };
        self.environment.insert(
            &function.identifier,
            TypeExpr::Function {
                parameter_types: copy_types(&parameter_types),
                return_type: Box::new(recursion_return_type),
            },
        );
        self.environment.push_scope();
        let mut j: usize = 0;
        while j < function.parameters.len()
            invariant
                Self::keeps(*old(self), *self),
                new_type_parameters@.len() == function.type_parameters@.len(),
                names == lexemes(function.type_parameters@),
            decreases function.parameters@.len() - j,
        {
            proof {
                lemma_full_arguments_cover(function.parameters@[j as int].1@, names);
            }
            let instantiated = substitute_type_parameters(
                &function.parameters[j].1,
                &function.type_parameters,
                &new_type_parameters,
            );
            self.environment.insert(&function.parameters[j].0, instantiated);
            j = j + 1;
        }
        let inferred_return_type = self.infer_block_return_type(
            &function.body,
            function.identifier.line,
            function.identifier.column,
        )?;
        let unified_return_type = match annotated_return_type {
            Some(annotation) => self.unify(&inferred_return_type, &annotation, &function.identifier)?,
            None => inferred_return_type,
        };
        self.environment.pop_scope();
        self.environment.insert(
            &function.identifier,
            TypeExpr::Function {
                parameter_types: copy_types(&parameter_types),
                return_type: Box::new(copy_type(&unified_return_type)),
            },
        );
        proof {
            lemma_types_view_index(parameter_types@);
        }
        let function_type = TypeExpr::Function { parameter_types, return_type: Box::new(unified_return_type) };
        let ghost ft = function_type@;
        let ghost before = self.types.function_types@;
        self.record_function_type(&function.identifier.lexeme, function_type);
        proof {
            lemma_replaced_or_added_finds(
                typed_names_view(before),
                typed_names_view(self.types.function_types@),
                function.identifier.lexeme@,
                ft,
            );
        }
        Ok(())
    }

    /// A block: its statements, in a new scope.  A failing statement ends
    /// the check with the scope still open.
    fn check_block(&mut self, statements: &Vec<Stmt>, Ghost(node): Ghost<Stmt>) -> (r: Result<(), TypeError>)
        requires
            old(self).inv(),
            node matches Stmt::Block(ss) && ss == *statements,
        ensures
            Self::keeps(*old(self), *final(self)),
            statements@.len() == 0 ==> r is Ok && final(self).depth() == old(self).depth() && forall|name: Seq<char>|
                #[trigger] final(self).bound(name) == old(self).bound(name),
        decreases node, 1nat,
    {
        self.environment.push_scope();
        let ghost pushed = self.environment.scopes();
        let mut i: usize = 0;
        while i < statements.len()
            invariant
                Self::keeps(*old(self), *self),
                node matches Stmt::Block(ss) && ss == *statements,
                statements@.len() == 0 ==> self.environment.scopes() == pushed,
                pushed == old(self).environment.scopes().push(pushed.last()),
            decreases statements@.len() - i,
        {
            self.check_stmt(&statements[i])?;
            i = i + 1;
        }
        self.environment.pop_scope();
        proof {
            if statements@.len() == 0 {
                assert(self.environment.scopes() =~= old(self).environment.scopes());
            }
        }
        Ok(())
    }

    /// Checks the statements of a body and gives the type of its value: the
    /// type of its last statement when that is an expression (checked a
    /// second time for it), `Void` written at `void_line` and `void_column`
    /// otherwise.
    fn infer_block_return_type(&mut self, body: &Vec<Stmt>, void_line: u32, void_column: u32) -> (r: Result<
        TypeExpr,
        TypeError,
    >)
        requires
            old(self).inv(),
        ensures
            Self::keeps(*old(self), *final(self)),
            body@.len() == 0 ==> (r matches Ok(t) && t@ == void_at(void_line, void_column)),
            body@.len() > 0 && !(body@.last() is Expression) ==> (r matches Ok(t) ==> t@ == void_at(void_line, void_column)),
        decreases body, 1nat,
    {
        let mut i: usize = 0;
        while i < body.len()
            invariant
                Self::keeps(*old(self), *self),
            decreases body@.len() - i,
        {
            self.check_stmt(&body[i])?;
            i = i + 1;
        }
        let n = body.len();
        if n > 0 {
            match &body[n - 1] {
                Stmt::Expression(expr) => self.check_expr(expr),
                _ => Ok(create_primitive_type("Void", void_line, void_column)),
            }
        } else {
            Ok(create_primitive_type("Void", void_line, void_column))
        }
    }

    /// Checks an expression and records its type.
    fn check_expr(&mut self, expr: &Expr) -> (r: Result<TypeExpr, TypeError>)
        requires
            old(self).inv(),
        ensures
            Self::keeps(*old(self), *final(self)),
            r matches Ok(t) ==> final(self).types.expr_types@.len() > 0 && final(self).types.expr_types@.last()@ == t@,
            expr matches Expr::Literal(l) ==> (r is Ok <==> l.literal is Some),
            expr matches Expr::Literal(l) ==> (l.literal is Some ==> final(self).types.expr_types@.len() == old(self).types.expr_types@.len() + 1 && (forall|k: int|
                0 <= k < old(self).types.expr_types@.len() ==> #[trigger] final(self).types.expr_types@[k] == old(
                self,
            ).types.expr_types@[k]) && final(self).types.expr_types@.last()@
                == crate::check_rules::literal_type(*l).unwrap()),
            expr matches Expr::Call { callee, arguments, .. } ==> (print_literal_call(*old(self), **callee, arguments@) ==> r is Ok
                && final(self).environment == old(self).environment),
            expr matches Expr::TupleLiteral { elements, .. } ==> (all_literal_values(elements@) ==> (r matches Ok(t) && t@
                == (TypeView::Tuple { element_types: literal_types(elements@) }))),
            expr is Literal || expr is Variable ==> final(self).environment == old(self).environment
                && final(self).enum_variants == old(self).enum_variants && final(self).unifier.subst() == old(
                self,
            ).unifier.subst(),
            expr matches Expr::Variable(id) ==> match old(self).bound(id.lexeme@) {
                Some(t) => {
                    &&& (r is Err <==> instantiation_overflows(t, old(self).unifier.next_id()))
                    &&& (r matches Ok(x) ==> exists|m: Map<usize, usize>, lo: nat|
                        {
                            &&& m.dom() == type_vars(t)
                            &&& lo >= old(self).unifier.next_id()
                            &&& #[trigger] crate::renaming::fresh_renaming(m, lo, final(self).unifier.next_id())
                            &&& x@ == crate::renaming::rename(m, t)
                        })
                },
                None => match old(self).variant_owner(id.lexeme@) {
                    Some(t) => {
                        &&& (r matches Ok(x) ==> exists|m: Map<usize, usize>, lo: nat|
                            {
                                &&& m.dom() == type_vars(t)
                                &&& lo >= old(self).unifier.next_id()
                                &&& #[trigger] crate::renaming::fresh_renaming(m, lo, final(self).unifier.next_id())
                                &&& constructor_type(x@, parameters_as_arguments(crate::renaming::rename(m, t)))
                            })
                        &&& (has_variant(t, id.lexeme@) ==> (r is Ok <==> !instantiation_overflows(
                            t,
                            old(self).unifier.next_id(),
                        )))
                        &&& (r matches Ok(x) ==> exists|m: Map<usize, usize>, lo: nat, ps: Seq<TypeView>|
                            {
                                &&& m.dom() == type_vars(t)
                                &&& lo >= old(self).unifier.next_id()
                                &&& #[trigger] crate::renaming::fresh_renaming(m, lo, final(self).unifier.next_id())
                                &&& #[trigger] first_payload(variants_of(t), id.lexeme@, ps)
                                &&& x@ == variant_value_type(ps, parameters_as_arguments(crate::renaming::rename(m, t)))
                            })
                    },
                    None => true,
                },
            },
            expr matches Expr::Literal(l) ==> final(self).unifier == old(self).unifier && match crate::check_rules::literal_type(*l) {
                Some(t) => r matches Ok(x) && x@ == t,
                None => r is Err,
            },
        decreases expr, 2nat,
    {
        let result = match expr {
            Expr::Literal(literal) => check_literal(literal),
            Expr::ArrayLiteral { elements, left_bracket } => self.check_array_literal_expr(
                elements,
                left_bracket,
                Ghost(*expr),
            ),
            Expr::MapLiteral { elements, left_brace } => self.check_map_literal_expr(elements, left_brace, Ghost(*expr)),
            Expr::TupleLiteral { elements, .. } => self.check_tuple_literal_expr(elements, Ghost(*expr)),
            Expr::RangeLiteral { start, end, is_inclusive, range_token } => self.check_range_literal_expr(
                start,
                end,
                *is_inclusive,
                range_token,
                Ghost(*expr),
            ),
            Expr::Variable(identifier) => self.check_variable_expr(identifier),
            Expr::StructInstantiation { identifier, fields } => self.check_struct_instantiation_expr(
                identifier,
                fields,
                Ghost(*expr),
            ),
            Expr::Assign { identifier, value } => self.check_assign_expr(identifier, value, Ghost(*expr)),
            Expr::AssignIndex { target, index, value, left_bracket } => self.check_assign_index_expr(
                target,
                index,
                value,
                left_bracket,
                Ghost(*expr),
            ),
            Expr::AssignTimeTravelAbsolute { target, index, value, at_token } => self.check_assign_time_travel_expr(
                target,
                index,
                value,
                at_token,
                Ghost(*expr),
            ),
            Expr::AssignTimeTravelRelative { target, offset, value, at_token } => self.check_assign_time_travel_expr(
                target,
                offset,
                value,
                at_token,
                Ghost(*expr),
            ),
            Expr::Grouping(inner) => self.check_expr(inner),
            Expr::Unary { operator, right } => self.check_unary_expr(operator, right, Ghost(*expr)),
            Expr::Binary { left, operator, right } => self.check_binary_expr(left, operator, right, Ghost(*expr)),
            Expr::Logical { left, operator, right } => self.check_logical_expr(left, operator, right, Ghost(*expr)),
            Expr::Call { callee, paren, arguments } => self.check_call_expr(callee, paren, arguments, Ghost(*expr)),
            Expr::If { if_token, condition, then_branch, else_branch } => self.check_if_expr(
                if_token,
                condition,
                then_branch,
                else_branch,
                Ghost(*expr),
            ),
            Expr::Match { match_token, subject, cases } => self.check_match_expr(
                match_token,
                subject,
                cases,
                Ghost(*expr),
            ),
            Expr::Lambda { parameters, return_type, body } => self.check_lambda_expr(
                parameters,
                return_type,
                body,
                Ghost(*expr),
            ),
            Expr::Block { stmts, left_brace } => self.check_block_expr_expr(stmts, left_brace, Ghost(*expr)),
            Expr::IndexAccess { target, index, left_bracket } => self.check_index_access_expr(
                target,
                index,
                left_bracket,
                Ghost(*expr),
            ),
            Expr::FieldAccess { target, field } => self.check_field_access_expr(target, field, Ghost(*expr)),
            Expr::TimeTravelAbsolute { target, index, at_token } => self.check_time_travel_expr(
                target,
                index,
                at_token,
                Ghost(*expr),
            ),
            Expr::TimeTravelRelative { target, offset, at_token } => self.check_time_travel_expr(
                target,
                offset,
                at_token,
                Ghost(*expr),
            ),
        };
        let expr_type = result?;
        self.types.expr_types.push(copy_type(&expr_type));
        proof {
            assert(self.types.expr_types@.last()@ == expr_type@);
        }
        Ok(expr_type)
    }
}

} // verus!

verus! {

impl TypeChecker {
    /// An array literal: its elements unified into one element type; an
    /// empty one gets a fresh element type.
    fn check_array_literal_expr(&mut self, elements: &Vec<Expr>, left_bracket: &Token, Ghost(node): Ghost<Expr>) -> (r:
        Result<TypeExpr, TypeError>)
        requires
            old(self).inv(),
            node matches Expr::ArrayLiteral { elements: es, .. } && es == *elements,
        ensures
            Self::keeps(*old(self), *final(self)),
            r matches Ok(t) ==> exists|e: TypeView| t@ == named_type("Array"@, left_bracket.line, left_bracket.column, seq![e]),
            elements@.len() == 0 ==> {
                &&& (r is Ok <==> old(self).unifier.next_id() < TYPE_VARIABLE_LIMIT)
                &&& (r matches Ok(t) ==> t@ == named_type(
                    "Array"@,
                    left_bracket.line,
                    left_bracket.column,
                    seq![TypeView::TypeVar { id: old(self).unifier.next_id() as usize }],
                ))
                &&& (r matches Err(e) ==> e == Self::limit_error_at(*left_bracket))
            },
        decreases node, 1nat,
    {
        if elements.len() == 0 {
            let element_type = self.fresh(left_bracket)?;
            return Ok(create_array_type(left_bracket.line, left_bracket.column, element_type));
        }
        let mut element_type = self.check_expr(&elements[0])?;
        let mut i: usize = 1;
        while i < elements.len()
            invariant
                Self::keeps(*old(self), *self),
                node matches Expr::ArrayLiteral { elements: es, .. } && es == *elements,
            decreases elements@.len() - i,
        {
            let current_type = self.check_expr(&elements[i])?;
            element_type = self.unify(&element_type, &current_type, left_bracket)?;
            i = i + 1;
        }
        let ghost e = element_type@;
        let t = create_array_type(left_bracket.line, left_bracket.column, element_type);
        proof {
            assert(t@ == named_type("Array"@, left_bracket.line, left_bracket.column, seq![e]));
        }
        Ok(t)
    }

    /// A map literal: its keys unified into one key type, which must be
    /// able to key a map, and its values into one value type; an empty one
    /// gets fresh key and value types.
    fn check_map_literal_expr(&mut self, elements: &Vec<(Expr, Expr)>, left_brace: &Token, Ghost(node): Ghost<Expr>) -> (r:
        Result<TypeExpr, TypeError>)
        requires
            old(self).inv(),
            node matches Expr::MapLiteral { elements: es, .. } && es == *elements,
        ensures
            Self::keeps(*old(self), *final(self)),
            r matches Ok(t) ==> exists|k: TypeView, v: TypeView| t@ == named_type(
                "Map"@,
                left_brace.line,
                left_brace.column,
                seq![k, v],
            ),
            elements@.len() == 0 ==> {
                &&& (r is Ok <==> old(self).unifier.next_id() + 2 <= TYPE_VARIABLE_LIMIT)
                &&& (r matches Ok(t) ==> t@ == named_type(
                    "Map"@,
                    left_brace.line,
                    left_brace.column,
                    seq![
                        TypeView::TypeVar { id: old(self).unifier.next_id() as usize },
                        TypeView::TypeVar { id: (old(self).unifier.next_id() + 1) as usize },
                    ],
                ))
                &&& (r matches Err(e) ==> e == Self::limit_error_at(*left_brace))
            },
        decreases node, 1nat,
    {
        if elements.len() == 0 {
            let key_type = self.fresh(left_brace)?;
            let value_type = self.fresh(left_brace)?;
            return Ok(create_map_type(left_brace.line, left_brace.column, key_type, value_type));
        }
        let mut key_type = self.check_expr(&elements[0].0)?;
        let mut value_type = self.check_expr(&elements[0].1)?;
        let mut i: usize = 1;
        while i < elements.len()
            invariant
                Self::keeps(*old(self), *self),
                node matches Expr::MapLiteral { elements: es, .. } && es == *elements,
            decreases elements@.len() - i,
        {
            let current_key_type = self.check_expr(&elements[i].0)?;
            let current_value_type = self.check_expr(&elements[i].1)?;
            key_type = self.unify(&key_type, &current_key_type, left_brace)?;
            value_type = self.unify(&value_type, &current_value_type, left_brace)?;
            i = i + 1;
        }
        validate_map_key_type(&self.unifier, &key_type, left_brace)?;
        let ghost kv = key_type@;
        let ghost vv = value_type@;
        let t = create_map_type(left_brace.line, left_brace.column, key_type, value_type);
        proof {
            assert(t@ == named_type("Map"@, left_brace.line, left_brace.column, seq![kv, vv]));
        }
        Ok(t)
    }

    /// A tuple literal: the tuple of its elements' types; the empty tuple
    /// is `Void`.
    fn check_tuple_literal_expr(&mut self, elements: &Vec<Expr>, Ghost(node): Ghost<Expr>) -> (r: Result<
        TypeExpr,
        TypeError,
    >)
        requires
            old(self).inv(),
            node matches Expr::TupleLiteral { elements: es, .. } && es == *elements,
        ensures
            Self::keeps(*old(self), *final(self)),
            elements@.len() == 0 ==> (r matches Ok(t) && t@ == named_type("Void"@, 0, 0, Seq::empty())),
            elements@.len() > 0 ==> (r matches Ok(t) ==> (t@ matches TypeView::Tuple { element_types }
                && element_types.len() == elements@.len())),
            all_literal_values(elements@) ==> (r matches Ok(t) && t@ == (TypeView::Tuple {
                element_types: literal_types(elements@),
            })),
        decreases node, 1nat,
    {
        if elements.len() == 0 {
            return Ok(create_primitive_type("Void", 0, 0));
        }
        let mut element_types: Vec<TypeExpr> = Vec::new();
        let mut i: usize = 0;
        while i < elements.len()
            invariant
                Self::keeps(*old(self), *self),
                node matches Expr::TupleLiteral { elements: es, .. } && es == *elements,
                i <= elements@.len(),
                element_types@.len() == i,
                all_literal_values(elements@) ==> forall|j: int| 0 <= j < i ==> #[trigger] element_types@[j]@
                    == literal_types(elements@)[j],
            decreases elements@.len() - i,
        {
            let ghost before = element_types@;
            element_types.push(self.check_expr(&elements[i])?);
            proof {
                if all_literal_values(elements@) {
                    assert(elements@[i as int] is Literal);
                    assert forall|j: int| 0 <= j < i + 1 implies #[trigger] element_types@[j]@ == literal_types(elements@)[j] by {
                        if j < i {
                            assert(element_types@[j] == before[j]);
                        }
                    }
                }
            }
            i = i + 1;
        }
        proof {
            lemma_types_view_index(element_types@);
            if all_literal_values(elements@) {
                assert(element_types@.len() == elements@.len());
                assert forall|j: int| 0 <= j < elements@.len() implies #[trigger] types_view(element_types@)[j]
                    == literal_types(elements@)[j] by {
                    assert(element_types@[j]@ == literal_types(elements@)[j]);
                }
                assert(types_view(element_types@) =~= literal_types(elements@));
            }
        }
        Ok(TypeExpr::Tuple { element_types })
    }

    /// A range literal: its bounds unified.
    fn check_range_literal_expr(
        &mut self,
        start: &Expr,
        end: &Expr,
        is_inclusive: bool,
        range_token: &Token,
        Ghost(node): Ghost<Expr>,
    ) -> (r: Result<TypeExpr, TypeError>)
        requires
            old(self).inv(),
            node matches Expr::RangeLiteral { start: s, end: e, .. } && *s == *start && *e == *end,
        ensures
            Self::keeps(*old(self), *final(self)),
            r matches Ok(t) ==> exists|b: TypeView| t@ == named_type(
                if is_inclusive {
                    "InclusiveRange"@
                } else {
                    "Range"@
                },
                range_token.line,
                range_token.column,
                seq![b],
            ),
        decreases node, 1nat,
    {
        let start_type = self.check_expr(start)?;
        let end_type = self.check_expr(end)?;
        let unified_type = self.unify(&start_type, &end_type, range_token)?;
        let ghost b = unified_type@;
        let t = create_range_type(range_token.line, range_token.column, unified_type, is_inclusive);
        proof {
            assert(t@ == named_type(if is_inclusive { "InclusiveRange"@ } else { "Range"@ }, range_token.line, range_token.column, seq![b]));
        }
        Ok(t)
    }

    /// A variable: a fresh instance of the type it is bound to (noted as a
    /// capture of the lambda being checked, unless local to it); failing
    /// that, a variant of an enum, which is an instance of the enum type or,
    /// with a payload, a function from the payload to it.
    fn check_variable_expr(&mut self, identifier: &Token) -> (r: Result<TypeExpr, TypeError>)
        requires
            old(self).inv(),
        ensures
            Self::keeps(*old(self), *final(self)),
            final(self).types == old(self).types,
            final(self).environment == old(self).environment,
            final(self).enum_variants == old(self).enum_variants,
            final(self).unifier.subst() == old(self).unifier.subst(),
            old(self).bound(identifier.lexeme@) matches Some(t) ==> {
                &&& (r is Err <==> instantiation_overflows(t, old(self).unifier.next_id()))
                &&& (r matches Err(e) ==> e == Self::limit_error_at(*identifier))
                &&& (r matches Ok(i) ==> exists|m: Map<usize, usize>, lo: nat|
                    {
                        &&& m.dom() == type_vars(t)
                        &&& lo >= old(self).unifier.next_id()
                        &&& #[trigger] crate::renaming::fresh_renaming(m, lo, final(self).unifier.next_id())
                        &&& i@ == crate::renaming::rename(m, t)
                    })
            },
            old(self).bound(identifier.lexeme@) is None ==> match old(self).variant_owner(identifier.lexeme@) {
                Some(t) => {
                    &&& (instantiation_overflows(t, old(self).unifier.next_id()) ==> r == Err::<TypeExpr, TypeError>(
                        Self::limit_error_at(*identifier),
                    ))
                    &&& (r matches Ok(x) ==> exists|m: Map<usize, usize>, lo: nat|
                        {
                            &&& m.dom() == type_vars(t)
                            &&& lo >= old(self).unifier.next_id()
                            &&& #[trigger] crate::renaming::fresh_renaming(m, lo, final(self).unifier.next_id())
                            &&& constructor_type(x@, parameters_as_arguments(crate::renaming::rename(m, t)))
                        })
                    &&& (has_variant(t, identifier.lexeme@) ==> (r is Ok <==> !instantiation_overflows(
                        t,
                        old(self).unifier.next_id(),
                    )))
                    &&& (r matches Ok(x) ==> exists|m: Map<usize, usize>, lo: nat, ps: Seq<TypeView>|
                        {
                            &&& m.dom() == type_vars(t)
                            &&& lo >= old(self).unifier.next_id()
                            &&& #[trigger] crate::renaming::fresh_renaming(m, lo, final(self).unifier.next_id())
                            &&& #[trigger] first_payload(variants_of(t), identifier.lexeme@, ps)
                            &&& x@ == variant_value_type(ps, parameters_as_arguments(crate::renaming::rename(m, t)))
                        })
                },
                None => true,
            },
            old(self).bound(identifier.lexeme@) is None && old(self).variant_owner(identifier.lexeme@) is None ==> (r matches Err(
                TypeError::UndefinedVariable { line, column, identifier: name },
            ) && line == identifier.line && column == identifier.column && name@ == identifier.lexeme@),
    {
        let bound = match self.environment.lookup(identifier) {
            Some(t) => Some(copy_type(t)),
            None => None,
        };
        if let Some(type_expression) = bound {
            self.note_capture(&identifier.lexeme, &type_expression);
            return self.instantiate(&type_expression, identifier);
        }
        let template = match self.enum_variants.lookup(identifier) {
            Some(t) => Some(copy_type(t)),
            None => None,
        };
        if let Some(enum_template) = template {
            let instantiated = self.instantiate(&enum_template, identifier)?;
            let enum_type = with_parameters_as_arguments(instantiated);
            let ghost tt = enum_template@;
            proof {
                assert(variants_of(enum_type@) == variants_of(tt));
            }
            let payload: Option<Vec<TypeExpr>> = match &enum_type {
                TypeExpr::Named { enum_variants: Some(variants), .. } => {
                    proof {
                        crate::types::lemma_variants_view_index(variants@);
                        assert(variants_of(tt) == variants_view(variants@));
                    }
                    let mut found: Option<Vec<TypeExpr>> = None;
                    let mut i: usize = 0;
                    while i < variants.len()
                        invariant_except_break
                            found is None,
                        invariant
                            i <= variants@.len(),
                            forall|j: int| 0 <= j < i ==> #[trigger] variants@[j].identifier.lexeme@ != identifier.lexeme@,
                        ensures
                            found is None ==> forall|j: int|
                                0 <= j < variants@.len() ==> #[trigger] variants@[j].identifier.lexeme@ != identifier.lexeme@,
                            found matches Some(p) ==> i < variants@.len() && variants@[i as int].identifier.lexeme@
                                == identifier.lexeme@ && types_view(p@) == types_view(variants@[i as int].payload_types@)
                                && forall|j: int| 0 <= j < i ==> #[trigger] variants@[j].identifier.lexeme@ != identifier.lexeme@,
                        decreases variants@.len() - i,
                    {
                        if variants[i].identifier.lexeme == identifier.lexeme {
                            found = Some(copy_types(&variants[i].payload_types));
                            break;
                        }
                        i = i + 1;
                    }
                    proof {
                        let vs = variants_view(variants@);
                        if found is Some {
                            let p = found->Some_0;
                            assert(vs[i as int].identifier.lexeme == identifier.lexeme@);
                            assert(first_payload(vs, identifier.lexeme@, types_view(p@)));
                        } else {
                            assert forall|k: int| 0 <= k < vs.len() implies #[trigger] vs[k].identifier.lexeme != identifier.lexeme@ by {
                                assert(variants@[k].identifier.lexeme@ != identifier.lexeme@);
                            }
                        }
                    }
                    found
                },
                _ => None,
            };
            match payload {
                Some(payload_types) => {
                    if payload_types.len() == 0 {
                        return Ok(enum_type);
                    } else {
                        return Ok(TypeExpr::Function { parameter_types: payload_types, return_type: Box::new(enum_type) });
                    }
                },
                None => {},
            }
        }
        Err(
            TypeError::UndefinedVariable {
                line: identifier.line,
                column: identifier.column,
                identifier: identifier.lexeme.clone(),
            },
        )
    }

    /// A struct instantiation: a fresh instance of the struct type, each
    /// given field's value unified with the declared field, and every
    /// declared field given.
    fn check_struct_instantiation_expr(
        &mut self,
        identifier: &Token,
        fields: &Vec<(Token, Expr)>,
        Ghost(node): Ghost<Expr>,
    ) -> (r: Result<TypeExpr, TypeError>)
        requires
            old(self).inv(),
            node matches Expr::StructInstantiation { fields: fs, .. } && fs == *fields,
        ensures
            Self::keeps(*old(self), *final(self)),
            match old(self).bound(identifier.lexeme@) {
                None => r matches Err(TypeError::UndefinedVariable { line, column, identifier: name }) && line
                    == identifier.line && column == identifier.column && name@ == identifier.lexeme@,
                Some(t) => instantiation_overflows(t, old(self).unifier.next_id()) ==> r == Err::<TypeExpr, TypeError>(
                    Self::limit_error_at(*identifier),
                ),
            },
            r matches Ok(s) ==> s@ matches TypeView::Named { struct_fields: Some(_), .. },
            old(self).bound(identifier.lexeme@) matches Some(t) ==> (r matches Ok(s) ==> exists|
                m: Map<usize, usize>,
                lo: nat,
                hi: nat,
            |
                {
                    &&& m.dom() == type_vars(t)
                    &&& lo >= old(self).unifier.next_id()
                    &&& hi <= final(self).unifier.next_id()
                    &&& #[trigger] crate::renaming::fresh_renaming(m, lo, hi)
                    &&& s@ == parameters_as_arguments(crate::renaming::rename(m, t))
                }),
        decreases node, 1nat,
    {
        let struct_template = match self.environment.lookup(identifier) {
            Some(t) => copy_type(t),
            None => {
                return Err(
                    TypeError::UndefinedVariable {
                        line: identifier.line,
                        column: identifier.column,
                        identifier: identifier.lexeme.clone(),
                    },
                );
            },
        };
        let instantiated = self.instantiate(&struct_template, identifier)?;
        let ghost tt = struct_template@;
        let ghost hi = self.unifier.next_id();
        let ghost (mw, low) = choose|m: Map<usize, usize>, lo: nat|
            {
                &&& m.dom() == type_vars(tt)
                &&& lo >= old(self).unifier.next_id()
                &&& #[trigger] crate::renaming::fresh_renaming(m, lo, hi)
                &&& instantiated@ == crate::renaming::rename(m, tt)
            };
        let struct_type = with_parameters_as_arguments(instantiated);
        proof {
            assert(old(self).bound(identifier.lexeme@) == Some(tt));
        }
        let declared_fields = match &struct_type {
            TypeExpr::Named { struct_fields: Some(fs), .. } => crate::types::copy_fields(fs),
            _ => {
                return Err(
                    TypeError::InvalidFieldAccessTarget {
                        line: identifier.line,
                        column: identifier.column,
                        target_type: struct_type,
                    },
                );
            },
        };
        let mut i: usize = 0;
        while i < fields.len()
            invariant
                Self::keeps(*old(self), *self),
                node matches Expr::StructInstantiation { fields: fs, .. } && fs == *fields,
                i <= fields@.len(),
                struct_type@ matches TypeView::Named { struct_fields: Some(_), .. },
                struct_type@ == parameters_as_arguments(crate::renaming::rename(mw, tt)),
                old(self).bound(identifier.lexeme@) == Some(tt),
                mw.dom() == type_vars(tt),
                low >= old(self).unifier.next_id(),
                crate::renaming::fresh_renaming(mw, low, hi),
                hi <= self.unifier.next_id(),
                old(self).bound(identifier.lexeme@) matches Some(t) && !instantiation_overflows(
                    t,
                    old(self).unifier.next_id(),
                ),
            decreases fields@.len() - i,
        {
            let field_identifier = &fields[i].0;
            let value_type = self.check_expr(&fields[i].1)?;
            let mut declared: Option<TypeExpr> = None;
            let mut k: usize = 0;
            while k < declared_fields.len()
                invariant
                    i < fields@.len(),
                decreases declared_fields@.len() - k,
            {
                if declared_fields[k].0.lexeme == field_identifier.lexeme {
                    declared = Some(copy_type(&declared_fields[k].1));
                    break;
                }
                k = k + 1;
            }
            match declared {
                Some(declared_type) => {
                    self.unify(&declared_type, &value_type, field_identifier)?;
                },
                None => {
                    return Err(
                        TypeError::UnknownField {
                            line: field_identifier.line,
                            column: field_identifier.column,
                            target_type: copy_type(&struct_type),
                            field_name: field_identifier.lexeme.clone(),
                        },
                    );
                },
            }
            i = i + 1;
        }
        let mut k: usize = 0;
        while k < declared_fields.len()
            invariant
                Self::keeps(*old(self), *self),
                k <= declared_fields@.len(),
                struct_type@ matches TypeView::Named { struct_fields: Some(_), .. },
                struct_type@ == parameters_as_arguments(crate::renaming::rename(mw, tt)),
                old(self).bound(identifier.lexeme@) == Some(tt),
                mw.dom() == type_vars(tt),
                low >= old(self).unifier.next_id(),
                crate::renaming::fresh_renaming(mw, low, hi),
                hi <= self.unifier.next_id(),
                old(self).bound(identifier.lexeme@) matches Some(t) && !instantiation_overflows(
                    t,
                    old(self).unifier.next_id(),
                ),
            decreases declared_fields@.len() - k,
        {
            let mut provided = false;
            let mut j: usize = 0;
            while j < fields.len()
                invariant
                    k < declared_fields@.len(),
                decreases fields@.len() - j,
            {
                if fields[j].0.lexeme == declared_fields[k].0.lexeme {
                    provided = true;
                    break;
                }
                j = j + 1;
            }
            if !provided {
                return Err(
                    TypeError::UnknownField {
                        line: identifier.line,
                        column: identifier.column,
                        target_type: copy_type(&struct_type),
                        field_name: declared_fields[k].0.lexeme.clone(),
                    },
                );
            }
            k = k + 1;
        }
        Ok(struct_type)
    }

    /// An assignment: the value's type unified with the variable's.
    fn check_assign_expr(&mut self, identifier: &Token, value: &Expr, Ghost(node): Ghost<Expr>) -> (r: Result<
        TypeExpr,
        TypeError,
    >)
        requires
            old(self).inv(),
            node matches Expr::Assign { value: v, .. } && *v == *value,
        ensures
            Self::keeps(*old(self), *final(self)),
            r matches Ok(t) ==> final(self).types.expr_types@.len() > 0 && shape(final(self).resolved(t@)) == shape(
                final(self).resolved(final(self).types.expr_types@.last()@),
            ),
        decreases node, 1nat,
    {
        let value_type = self.check_expr(value)?;
        let var_type = self.check_variable_expr(identifier)?;
        self.unify(&var_type, &value_type, identifier)
    }

    /// An assignment to an element: an `Array` takes an `Int` index and a
    /// value of its element type; a `Map` an index of its key type, which
    /// must be able to key a map, and a value of its value type.
    fn check_assign_index_expr(
        &mut self,
        target: &Expr,
        index: &Expr,
        value: &Expr,
        left_bracket: &Token,
        Ghost(node): Ghost<Expr>,
    ) -> (r: Result<TypeExpr, TypeError>)
        requires
            old(self).inv(),
            node matches Expr::AssignIndex { target: t, index: i, value: v, .. } && *t == *target && *i == *index && *v
                == *value,
        ensures
            Self::keeps(*old(self), *final(self)),
        decreases node, 1nat,
    {
        let target_type = self.check_expr(target)?;
        let index_type = self.check_expr(index)?;
        let value_type = self.check_expr(value)?;
        let (is_array, is_map, arguments) = match &target_type {
            TypeExpr::Named { identifier, type_arguments, .. } => (
                same_text(&identifier.lexeme, "Array"),
                same_text(&identifier.lexeme, "Map"),
                copy_types(type_arguments),
            ),
            _ => (false, false, Vec::new()),
        };
        if is_array {
            if arguments.len() != 1 {
                return Err(
                    TypeError::InvalidIndexTarget {
                        line: left_bracket.line,
                        column: left_bracket.column,
                        target_type,
                    },
                );
            }
            if !named_as(&index_type, "Int") {
                return Err(
                    TypeError::InvalidIndexType {
                        line: left_bracket.line,
                        column: left_bracket.column,
                        target_type,
                        index_type,
                    },
                );
            }
            let element_type = copy_type(&arguments[0]);
            self.unify(&value_type, &element_type, left_bracket)?;
            Ok(element_type)
        } else if is_map {
            if arguments.len() != 2 {
                return Err(
                    TypeError::InvalidIndexTarget {
                        line: left_bracket.line,
                        column: left_bracket.column,
                        target_type,
                    },
                );
            }
            let key_type = copy_type(&arguments[0]);
            let expected_value_type = copy_type(&arguments[1]);
            validate_map_key_type(&self.unifier, &key_type, left_bracket)?;
            self.unify(&index_type, &key_type, left_bracket)?;
            self.unify(&value_type, &expected_value_type, left_bracket)?;
            Ok(expected_value_type)
        } else {
            Err(TypeError::InvalidIndexTarget { line: left_bracket.line, column: left_bracket.column, target_type })
        }
    }

    /// An assignment to a past state of a variable (`x@=n = v`, `x@-n =
    /// v`): an `Int` picks the state, and the value is unified with the
    /// variable's type.
    fn check_assign_time_travel_expr(
        &mut self,
        target: &Expr,
        index: &Expr,
        value: &Expr,
        at_token: &Token,
        Ghost(node): Ghost<Expr>,
    ) -> (r: Result<TypeExpr, TypeError>)
        requires
            old(self).inv(),
            (node matches Expr::AssignTimeTravelAbsolute { target: t, index: i, value: v, .. } && *t == *target && *i
                == *index && *v == *value) || (node matches Expr::AssignTimeTravelRelative {
                target: t,
                offset: i,
                value: v,
                ..
            } && *t == *target && *i == *index && *v == *value),
        ensures
            Self::keeps(*old(self), *final(self)),
            target matches Expr::Variable(t) ==> final(self).tracks(t.lexeme@),
        decreases node, 1nat,
    {
        self.track_target_var(target);
        proof {
            assert forall|i: int| 0 <= i < old(self).types.tracked_vars@.len() implies #[trigger] old(
                self,
            ).types.tracked_vars@[i] == self.types.tracked_vars@[i] by {}
            if let Expr::Variable(token) = target {
                let names = crate::c_names::strings_view(self.types.tracked_vars@);
                let o = crate::c_names::strings_view(old(self).types.tracked_vars@);
                if !o.contains(token.lexeme@) {
                    assert(names == o.push(token.lexeme@));
                    assert(names[o.len() as int] == token.lexeme@);
                }
                assert(names.contains(token.lexeme@));
                let j = choose|j: int| 0 <= j < names.len() && names[j] == token.lexeme@;
                assert(self.types.tracked_vars@[j]@ == token.lexeme@);
            }
        }
        let target_type = self.check_expr(target)?;
        let index_type = self.check_expr(index)?;
        let value_type = self.check_expr(value)?;
        time_travel_type(copy_type(&target_type), index_type, at_token)?;
        self.unify(&target_type, &value_type, at_token)
    }

    /// A unary operation.
    fn check_unary_expr(&mut self, operator: &Token, right: &Expr, Ghost(node): Ghost<Expr>) -> (r: Result<
        TypeExpr,
        TypeError,
    >)
        requires
            old(self).inv(),
            node matches Expr::Unary { right: x, .. } && *x == *right,
        ensures
            Self::keeps(*old(self), *final(self)),
            r matches Ok(t) ==> ((operator.token_type == TokenType::Minus && crate::type_rules::is_number(t@)) || (
            operator.token_type == TokenType::Exclamation && crate::type_rules::is_named(t@, "Bool"@)))
                && final(self).types.expr_types@.len() > 0 && final(self).types.expr_types@.last()@ == t@,
        decreases node, 1nat,
    {
        let right_type = self.check_expr(right)?;
        check_unary_operation(operator, right_type)
    }

    /// Where both operands are literals: what the operation gives on their
    /// types, or an error where one of them has no value.
    spec fn literal_operands_outcome(
        u0: Unifier,
        u1: Unifier,
        left: Expr,
        operator: Token,
        right: Expr,
        r: Result<TypeExpr, TypeError>,
    ) -> bool {
        match (left, right) {
            (Expr::Literal(a), Expr::Literal(b)) => match (
                crate::check_rules::literal_type(a),
                crate::check_rules::literal_type(b),
            ) {
                (Some(lt), Some(rt)) => crate::type_rules::binary_outcome(u0, u1, lt, operator, rt, r),
                _ => r is Err,
            },
            _ => true,
        }
    }

    /// Where the target of a field access is a literal: what reading the
    /// field of a value of the literal's type gives, or the literal's error.
    spec fn literal_field_outcome(u: Unifier, target: Expr, field: Token, r: Result<TypeExpr, TypeError>) -> bool {
        match target {
            Expr::Literal(l) => match crate::check_rules::literal_type(l) {
                Some(t) => crate::check_rules::field_access_outcome(u.resolved(t), field, r),
                None => r is Err,
            },
            _ => true,
        }
    }

    /// Whether `e` is a literal with a value, or a name bound to a type with
    /// no type variable.
    spec fn plain_operand(before: TypeChecker, e: Expr) -> bool {
        match e {
            Expr::Literal(l) => l.literal is Some,
            Expr::Variable(id) => match before.bound(id.lexeme@) {
                Some(t) => type_vars(t) =~= Set::<usize>::empty(),
                None => false,
            },
            _ => false,
        }
    }

    /// `t` is what checking the operand `e` gives from `before`: the
    /// literal's type, or a fresh instance of the type the name is bound to.
    spec fn plain_operand_type(before: TypeChecker, e: Expr, t: TypeView) -> bool {
        match e {
            Expr::Literal(l) => crate::check_rules::literal_type(l) == Some(t),
            Expr::Variable(id) => match before.bound(id.lexeme@) {
                Some(bt) => exists|m: Map<usize, usize>| #[trigger] crate::renaming::rename(m, bt) == t,
                None => false,
            },
            _ => false,
        }
    }

    /// Where both operands are plain: what the operation gives on the types
    /// their checks give, with a unifier that binds what the checker bound.
    spec fn plain_operands_outcome(
        before: TypeChecker,
        after: TypeChecker,
        left: Expr,
        operator: Token,
        right: Expr,
        r: Result<TypeExpr, TypeError>,
    ) -> bool {
        Self::plain_operand(before, left) && Self::plain_operand(before, right) ==> exists|
            lt: TypeView,
            rt: TypeView,
            u0: Unifier,
        |
            {
                &&& Self::plain_operand_type(before, left, lt)
                &&& Self::plain_operand_type(before, right, rt)
                &&& u0.subst() == before.unifier.subst()
                &&& #[trigger] crate::type_rules::binary_outcome(u0, after.unifier, lt, operator, rt, r)
            }
    }

    /// A binary operation.
    fn check_binary_expr(&mut self, left: &Expr, operator: &Token, right: &Expr, Ghost(node): Ghost<Expr>) -> (r:
        Result<TypeExpr, TypeError>)
        requires
            old(self).inv(),
            node matches Expr::Binary { left: l, right: x, .. } && *l == *left && *x == *right,
        ensures
            Self::keeps(*old(self), *final(self)),
            crate::type_rules::comparison_operator(operator.token_type) ==> (r matches Ok(t) ==> t@ == named_type(
                "Bool"@,
                operator.line,
                operator.column,
                Seq::empty(),
            )),
            Self::literal_operands_outcome(old(self).unifier, final(self).unifier, *left, *operator, *right, r),
            Self::plain_operands_outcome(*old(self), *final(self), *left, *operator, *right, r),
        decreases node, 1nat,
    {
        let left_type = self.check_expr(left)?;
        proof {
            if let Expr::Literal(a) = left {
                assert(crate::check_rules::literal_type(*a) is Some);
                assert(left_type@ == crate::check_rules::literal_type(*a).unwrap());
                assert(seq_type_vars(Seq::<TypeView>::empty()) =~= Set::<usize>::empty());
                assert(type_vars(left_type@) =~= Set::<usize>::empty());
            }
        }
        let ghost mid = *self;
        proof {
            if Self::plain_operand(*old(self), *left) {
                if let Expr::Variable(id) = left {
                    let t = old(self).bound(id.lexeme@).unwrap();
                    let m = choose|m: Map<usize, usize>, lo: nat|
                        {
                            &&& m.dom() == type_vars(t)
                            &&& lo >= old(self).unifier.next_id()
                            &&& #[trigger] crate::renaming::fresh_renaming(m, lo, self.unifier.next_id())
                            &&& left_type@ == crate::renaming::rename(m, t)
                        };
                    crate::renaming::lemma_rename_ground(m.0, t);
                }
                assert(seq_type_vars(Seq::<TypeView>::empty()) =~= Set::<usize>::empty());
                assert(type_vars(left_type@) =~= Set::<usize>::empty());
            }
        }
        let right_type = self.check_expr(right)?;
        proof {
            if Self::plain_operand(*old(self), *left) && Self::plain_operand(*old(self), *right) {
                assert(mid.environment == old(self).environment);
                assert(mid.bound(right->Variable_0.lexeme@) == old(self).bound(right->Variable_0.lexeme@));
                if let Expr::Variable(id) = right {
                    let t = old(self).bound(id.lexeme@).unwrap();
                    let m = choose|m: Map<usize, usize>, lo: nat|
                        {
                            &&& m.dom() == type_vars(t)
                            &&& lo >= mid.unifier.next_id()
                            &&& #[trigger] crate::renaming::fresh_renaming(m, lo, self.unifier.next_id())
                            &&& right_type@ == crate::renaming::rename(m, t)
                        };
                    crate::renaming::lemma_rename_ground(m.0, t);
                }
                assert(seq_type_vars(Seq::<TypeView>::empty()) =~= Set::<usize>::empty());
                assert(type_vars(right_type@) =~= Set::<usize>::empty());
            }
        }
        proof {
            if left is Literal && right is Literal {
                assert(type_vars(right_type@) =~= Set::<usize>::empty());
                assert(!reaches_limit(left_type@));
                assert(!reaches_limit(right_type@));
            }
        }
        self.reserve_vars_of(&left_type, operator)?;
        self.reserve_vars_of(&right_type, operator)?;
        let ghost u0 = self.unifier;
        let ghost lt = left_type@;
        let ghost rt = right_type@;
        let r = check_binary_operation(&mut self.unifier, left_type, operator, right_type);
        proof {
            if Self::plain_operand(*old(self), *left) && Self::plain_operand(*old(self), *right) {
                assert(u0.subst() == old(self).unifier.subst());
                if let Expr::Variable(id) = left {
                    let t = old(self).bound(id.lexeme@).unwrap();
                    crate::renaming::lemma_rename_ground(Map::<usize, usize>::empty(), t);
                    assert(crate::renaming::rename(Map::<usize, usize>::empty(), t) == lt);
                }
                if let Expr::Variable(id) = right {
                    let t = old(self).bound(id.lexeme@).unwrap();
                    crate::renaming::lemma_rename_ground(Map::<usize, usize>::empty(), t);
                    assert(crate::renaming::rename(Map::<usize, usize>::empty(), t) == rt);
                }
                assert(Self::plain_operand_type(*old(self), *left, lt));
                assert(Self::plain_operand_type(*old(self), *right, rt));
                assert(crate::type_rules::binary_outcome(u0, self.unifier, lt, *operator, rt, r));
            }
        }
        proof {
            if left is Literal && right is Literal {
                assert(u0.subst() == old(self).unifier.subst());
                assert(u0.ranking() == old(self).unifier.ranking());
                assert(forall|t: TypeView| #[trigger] u0.resolved(t) == old(self).unifier.resolved(t));
            }
        }
        r
    }

    /// A logical operation.
    fn check_logical_expr(&mut self, left: &Expr, operator: &Token, right: &Expr, Ghost(node): Ghost<Expr>) -> (r:
        Result<TypeExpr, TypeError>)
        requires
            old(self).inv(),
            node matches Expr::Logical { left: l, right: x, .. } && *l == *left && *x == *right,
        ensures
            Self::keeps(*old(self), *final(self)),
            r matches Ok(t) ==> t@ == named_type("Bool"@, operator.line, operator.column, Seq::empty()),
        decreases node, 1nat,
    {
        let left_type = self.check_expr(left)?;
        let right_type = self.check_expr(right)?;
        check_logical_operation(operator, left_type, right_type)
    }

    /// An `if` expression: a `Bool` condition and branches of one type.
    fn check_if_expr(
        &mut self,
        if_token: &Token,
        condition: &Expr,
        then_branch: &Expr,
        else_branch: &Option<Box<Expr>>,
        Ghost(node): Ghost<Expr>,
    ) -> (r: Result<TypeExpr, TypeError>)
        requires
            old(self).inv(),
            node matches Expr::If { condition: c, then_branch: t, else_branch: e, .. } && *c == *condition && *t
                == *then_branch && e == *else_branch,
        ensures
            Self::keeps(*old(self), *final(self)),
            else_branch is None ==> r is Err,
            literal_condition_outcome(*if_token, *condition, r),
        decreases node, 1nat,
    {
        let condition_type = self.check_expr(condition)?;
        proof {
            if let Expr::Literal(l) = condition {
                crate::check_rules::lemma_literal_type_names(*l);
            }
        }
        match check_condition(if_token, condition_type) {
            Ok(()) => {},
            Err(e) => {
                return Err(e);
            },
        }
        let then_branch_type = self.check_expr(then_branch)?;
        let else_branch_type = match else_branch {
            Some(else_expr) => Some(self.check_expr(else_expr)?),
            None => None,
        };
        self.reserve_vars_of(&then_branch_type, if_token)?;
        if let Some(t) = &else_branch_type {
            self.reserve_vars_of(t, if_token)?;
        }
        if_expression_type(&mut self.unifier, if_token, then_branch_type, else_branch_type)
    }

    /// An indexing.
    fn check_index_access_expr(&mut self, target: &Expr, index: &Expr, left_bracket: &Token, Ghost(node): Ghost<Expr>) -> (r:
        Result<TypeExpr, TypeError>)
        requires
            old(self).inv(),
            node matches Expr::IndexAccess { target: t, index: i, .. } && *t == *target && *i == *index,
        ensures
            Self::keeps(*old(self), *final(self)),
            literal_index_outcome(*left_bracket, *target, *index, r),
        decreases node, 1nat,
    {
        let target_type = self.check_expr(target)?;
        proof {
            if let Expr::Literal(l) = target {
                crate::check_rules::lemma_literal_type_names(*l);
                assert(seq_type_vars(Seq::<TypeView>::empty()) =~= Set::<usize>::empty());
                assert(type_vars(target_type@) =~= Set::<usize>::empty());
            }
        }
        let index_type = self.check_expr(index)?;
        proof {
            if let Expr::Literal(l) = index {
                assert(seq_type_vars(Seq::<TypeView>::empty()) =~= Set::<usize>::empty());
                assert(type_vars(index_type@) =~= Set::<usize>::empty());
            }
        }
        self.reserve_vars_of(&target_type, left_bracket)?;
        self.reserve_vars_of(&index_type, left_bracket)?;
        index_access_type(&mut self.unifier, target_type, index_type, left_bracket)
    }

    /// A field access.
    fn check_field_access_expr(&mut self, target: &Expr, field: &Token, Ghost(node): Ghost<Expr>) -> (r: Result<
        TypeExpr,
        TypeError,
    >)
        requires
            old(self).inv(),
            node matches Expr::FieldAccess { target: t, .. } && *t == *target,
        ensures
            Self::keeps(*old(self), *final(self)),
            r is Ok ==> final(self).types.expr_types@.len() > 0 && crate::check_rules::field_access_outcome(
                final(self).resolved(final(self).types.expr_types@.last()@),
                *field,
                r,
            ),
            Self::literal_field_outcome(old(self).unifier, *target, *field, r),
            target matches Expr::TupleLiteral { elements, .. } ==> (all_literal_values(elements@)
                ==> crate::check_rules::field_access_outcome(
                final(self).resolved(TypeView::Tuple { element_types: literal_types(elements@) }),
                *field,
                r,
            )),
            Self::plain_operand(*old(self), *target) ==> exists|tt: TypeView|
                #[trigger] Self::plain_operand_type(*old(self), *target, tt) && crate::check_rules::field_access_outcome(
                    final(self).resolved(tt),
                    *field,
                    r,
                ),
        decreases node, 1nat,
    {
        let target_type = self.check_expr(target)?;
        proof {
            if Self::plain_operand(*old(self), *target) {
                if let Expr::Variable(id) = target {
                    let t = old(self).bound(id.lexeme@).unwrap();
                    let m = choose|m: Map<usize, usize>, lo: nat|
                        {
                            &&& m.dom() == type_vars(t)
                            &&& lo >= old(self).unifier.next_id()
                            &&& #[trigger] crate::renaming::fresh_renaming(m, lo, self.unifier.next_id())
                            &&& target_type@ == crate::renaming::rename(m, t)
                        };
                    crate::renaming::lemma_rename_ground(m.0, t);
                    crate::renaming::lemma_rename_ground(Map::<usize, usize>::empty(), t);
                }
                assert(Self::plain_operand_type(*old(self), *target, target_type@));
            }
        }
        field_access_type(&self.unifier, &target_type, field)
    }

    /// A read of a past state of a variable (`x@=n`, `x@-n`).
    fn check_time_travel_expr(&mut self, target: &Expr, index: &Expr, at_token: &Token, Ghost(node): Ghost<Expr>) -> (r:
        Result<TypeExpr, TypeError>)
        requires
            old(self).inv(),
            (node matches Expr::TimeTravelAbsolute { target: t, index: i, .. } && *t == *target && *i == *index) || (
            node matches Expr::TimeTravelRelative { target: t, offset: i, .. } && *t == *target && *i == *index),
        ensures
            Self::keeps(*old(self), *final(self)),
            target matches Expr::Variable(t) ==> final(self).tracks(t.lexeme@),
            Self::plain_operand(*old(self), *target) && Self::plain_operand(*old(self), *index) ==> exists|
                tt: TypeView,
                it: TypeView,
            |
                {
                    &&& Self::plain_operand_type(*old(self), *target, tt)
                    &&& Self::plain_operand_type(*old(self), *index, it)
                    &&& #[trigger] time_travel_outcome(tt, it, *at_token, r)
                },
        decreases node, 1nat,
    {
        let ghost s0 = *self;
        self.track_target_var(target);
        proof {
            assert forall|i: int| 0 <= i < old(self).types.tracked_vars@.len() implies #[trigger] old(
                self,
            ).types.tracked_vars@[i] == self.types.tracked_vars@[i] by {}
            if let Expr::Variable(token) = target {
                let names = crate::c_names::strings_view(self.types.tracked_vars@);
                let o = crate::c_names::strings_view(old(self).types.tracked_vars@);
                if !o.contains(token.lexeme@) {
                    assert(names == o.push(token.lexeme@));
                    assert(names[o.len() as int] == token.lexeme@);
                }
                assert(names.contains(token.lexeme@));
                let j = choose|j: int| 0 <= j < names.len() && names[j] == token.lexeme@;
                assert(self.types.tracked_vars@[j]@ == token.lexeme@);
            }
        }
        let target_type = self.check_expr(target)?;
        let ghost mid = *self;
        let index_type = self.check_expr(index)?;
        proof {
            if Self::plain_operand(*old(self), *target) && Self::plain_operand(*old(self), *index) {
                assert(s0.environment == old(self).environment);
                assert(mid.environment == old(self).environment);
                if let Expr::Variable(id) = target {
                    let t = old(self).bound(id.lexeme@).unwrap();
                    crate::renaming::lemma_rename_ground(Map::<usize, usize>::empty(), t);
                    let m = choose|m: Map<usize, usize>, lo: nat|
                        {
                            &&& m.dom() == type_vars(t)
                            &&& lo >= s0.unifier.next_id()
                            &&& #[trigger] crate::renaming::fresh_renaming(m, lo, mid.unifier.next_id())
                            &&& target_type@ == crate::renaming::rename(m, t)
                        };
                    crate::renaming::lemma_rename_ground(m.0, t);
                }
                if let Expr::Variable(id) = index {
                    let t = old(self).bound(id.lexeme@).unwrap();
                    crate::renaming::lemma_rename_ground(Map::<usize, usize>::empty(), t);
                    let m = choose|m: Map<usize, usize>, lo: nat|
                        {
                            &&& m.dom() == type_vars(t)
                            &&& lo >= mid.unifier.next_id()
                            &&& #[trigger] crate::renaming::fresh_renaming(m, lo, self.unifier.next_id())
                            &&& index_type@ == crate::renaming::rename(m, t)
                        };
                    crate::renaming::lemma_rename_ground(m.0, t);
                }
                assert(Self::plain_operand_type(*old(self), *target, target_type@));
                assert(Self::plain_operand_type(*old(self), *index, index_type@));
            }
        }
        let ghost tt = target_type@;
        let ghost it = index_type@;
        let r = time_travel_type(target_type, index_type, at_token);
        proof {
            assert(time_travel_outcome(tt, it, *at_token, r));
        }
        r
    }
}

} // verus!

verus! {

impl TypeChecker {
    /// A call.  A callee that names no bound variable may be a built-in
    /// call; otherwise the callee must be a function, given as many
    /// arguments as it has parameters, each unified with its parameter.  A
    /// call of a generic function records the type arguments its type
    /// parameters take in this call.
    fn check_call_expr(&mut self, callee: &Expr, paren: &Token, arguments: &Vec<Expr>, Ghost(node): Ghost<Expr>) -> (r:
        Result<TypeExpr, TypeError>)
        requires
            old(self).inv(),
            node matches Expr::Call { callee: c, arguments: a, .. } && *c == *callee && a == *arguments,
        ensures
            Self::keeps(*old(self), *final(self)),
            print_literal_call(*old(self), *callee, arguments@) ==> r is Ok && final(self).environment == old(
                self,
            ).environment,
            callee matches Expr::Variable(id) ==> Self::constructor_call_outcome(
                *old(self),
                *final(self),
                id.lexeme@,
                r,
            ),
            callee matches Expr::Variable(id) ==> Self::variant_call_outcome(
                *old(self),
                id.lexeme@,
                arguments@.len(),
                *paren,
                r,
            ),
            callee matches Expr::Variable(id) ==> Self::call_arity_outcome(
                *old(self),
                id.lexeme@,
                arguments@.len(),
                *paren,
                r,
            ),
            callee matches Expr::Variable(id) ==> Self::builtin_call_outcome(
                *old(self),
                *final(self),
                id.lexeme@,
                arguments@.len(),
                *paren,
                r,
            ),
        decreases node, 1nat,
    {
        proof {
            lemma_print_is_builtin();
        }
        if let Expr::Variable(ident) = callee {
            if self.environment.lookup(ident).is_none() {
                if let Some((kind, result_type)) = self.try_builtin_call(&ident.lexeme, arguments, paren)? {
                    let key = self.types.expr_types.len();
                    self.types.builtin_calls.push((key, kind));
                    proof {
                        assert(builtin_of(ident.lexeme@) == Some(kind));
                        assert(self.types.builtin_calls@.last() == (key, kind));
                    }
                    return Ok(result_type);
                }
                proof {
                    assert(builtin_of(ident.lexeme@) is None);
                }
            }
        }
        let callee_type = self.check_expr(callee)?;
        proof {
            if let Expr::Variable(id) = callee {
                if Self::bound_arity(*old(self), id.lexeme@) is Some {
                    let t = old(self).bound(id.lexeme@).unwrap();
                    let (m, lo) = choose|m: Map<usize, usize>, lo: nat|
                        {
                            &&& m.dom() == type_vars(t)
                            &&& lo >= old(self).unifier.next_id()
                            &&& #[trigger] crate::renaming::fresh_renaming(m, lo, self.unifier.next_id())
                            &&& callee_type@ == crate::renaming::rename(m, t)
                        };
                    crate::renaming::lemma_rename_seq_len(m, t->Function_parameter_types);
                    assert(callee_type@ matches TypeView::Function { parameter_types, .. } && parameter_types.len()
                        == Self::bound_arity(*old(self), id.lexeme@).unwrap());
                }
            }
        }
        proof {
            if let Expr::Variable(id) = callee {
                if Self::variant_arity(*old(self), id.lexeme@) is Some {
                    let t = old(self).variant_owner(id.lexeme@).unwrap();
                    let ps0 = choose|ps: Seq<TypeView>| first_payload(variants_of(t), id.lexeme@, ps);
                    let (m, lo, ps) = choose|m: Map<usize, usize>, lo: nat, ps: Seq<TypeView>|
                        {
                            &&& m.dom() == type_vars(t)
                            &&& lo >= old(self).unifier.next_id()
                            &&& #[trigger] crate::renaming::fresh_renaming(m, lo, self.unifier.next_id())
                            &&& #[trigger] first_payload(variants_of(t), id.lexeme@, ps)
                            &&& callee_type@ == variant_value_type(ps, parameters_as_arguments(crate::renaming::rename(m, t)))
                        };
                    lemma_first_payload_unique(variants_of(t), id.lexeme@, ps0, ps);
                    if ps.len() > 0 {
                        assert(callee_type@ matches TypeView::Function { parameter_types, .. } && parameter_types.len()
                            == Self::variant_arity(*old(self), id.lexeme@).unwrap());
                    }
                }
            }
        }
        let ghost cname = callee->Variable_0.lexeme@;
        let ghost ctor = callee is Variable && old(self).bound(cname) is None && builtin_of(cname) is None && old(
            self,
        ).variant_owner(cname) is Some && old(self).variant_owner(cname).unwrap() is Named;
        let ghost tt = old(self).variant_owner(cname).unwrap();
        let ghost hi0 = self.unifier.next_id();
        let ghost (mw, low) = if ctor {
            choose|m: Map<usize, usize>, lo: nat|
                {
                    &&& m.dom() == type_vars(tt)
                    &&& lo >= old(self).unifier.next_id()
                    &&& #[trigger] crate::renaming::fresh_renaming(m, lo, hi0)
                    &&& constructor_type(callee_type@, parameters_as_arguments(crate::renaming::rename(m, tt)))
                }
        } else {
            (Map::empty(), 0nat)
        };
        let ghost ev = parameters_as_arguments(crate::renaming::rename(mw, tt));
        proof {
            if ctor {
                assert(ev is Named);
            }
        }
        let user_generic_function: Option<Signature> = match callee {
            Expr::Variable(ident) => match self.generic_function(&ident.lexeme) {
                Some(s) => Some(copy_signature(s)),
                None => None,
            },
            _ => None,
        };
        match callee_type {
            TypeExpr::Function { parameter_types, return_type } => {
                proof {
                    lemma_types_view_index(parameter_types@);
                    if ctor {
                        assert((*return_type)@ == ev);
                    }
                }
                if arguments.len() != parameter_types.len() {
                    return Err(
                        TypeError::ArgumentCountMismatch {
                            line: paren.line,
                            column: paren.column,
                            expected: parameter_types.len(),
                            found: arguments.len(),
                        },
                    );
                }
                let mut argument_types: Vec<TypeExpr> = Vec::new();
                let mut i: usize = 0;
                while i < arguments.len()
                    invariant
                        Self::keeps(*old(self), *self),
                        node matches Expr::Call { arguments: a, .. } && a == *arguments,
                        parameter_types@.len() == arguments@.len(),
                        ctor ==> (*return_type)@ == ev && hi0 <= self.unifier.next_id() && mw.dom() == type_vars(tt) && low
                            >= old(self).unifier.next_id() && crate::renaming::fresh_renaming(mw, low, hi0) && ev
                            == parameters_as_arguments(crate::renaming::rename(mw, tt)),
                        ctor == (callee is Variable && old(self).bound(cname) is None && builtin_of(cname) is None && old(
                            self,
                        ).variant_owner(cname) is Some && old(self).variant_owner(cname).unwrap() is Named),
                        ctor ==> old(self).variant_owner(cname) == Some(tt),
                        cname == callee->Variable_0.lexeme@,
                        callee matches Expr::Variable(id) ==> (Self::bound_arity(*old(self), id.lexeme@) matches Some(k)
                            ==> k == arguments@.len()),
                        callee matches Expr::Variable(id) ==> (Self::variant_arity(*old(self), id.lexeme@) matches Some(k)
                            ==> (k > 0 ==> k == arguments@.len())),
                        argument_types@.len() == i,
                        i <= arguments@.len(),
                        callee matches Expr::Variable(id) ==> (old(self).bound(id.lexeme@) is None ==> builtin_of(
                            id.lexeme@,
                        ) is None),
                    decreases arguments@.len() - i,
                {
                    let argument_type = self.check_expr(&arguments[i])?;
                    self.unify(&argument_type, &parameter_types[i], paren)?;
                    argument_types.push(argument_type);
                    i = i + 1;
                }
                if let Some(function) = user_generic_function {
                    let mut type_param_names: Vec<String> = Vec::new();
                    let mut k: usize = 0;
                    while k < function.type_parameters.len()
                        decreases function.type_parameters@.len() - k,
                    {
                        type_param_names.push(function.type_parameters[k].lexeme.clone());
                        k = k + 1;
                    }
                    let mut mapping: Vec<(String, TypeExpr)> = Vec::new();
                    if let Some(template) = &function.return_type {
                        let resolved = self.unifier.apply_substitutions(&return_type);
                        match_type_params(template, &resolved, type_param_names.as_slice(), &mut mapping);
                    }
                    let mut j: usize = 0;
                    while j < function.parameters.len() && j < argument_types.len()
                        invariant
                            self.inv(),
                        decreases function.parameters@.len() - j,
                    {
                        let resolved = self.unifier.apply_substitutions(&argument_types[j]);
                        match_type_params(&function.parameters[j].1, &resolved, type_param_names.as_slice(), &mut mapping);
                        j = j + 1;
                    }
                    let mut type_args: Vec<TypeExpr> = Vec::new();
                    let mut m: usize = 0;
                    while m < function.type_parameters.len()
                        invariant
                            Self::keeps(*old(self), *self),
                            ctor ==> (*return_type)@ == ev && hi0 <= self.unifier.next_id() && mw.dom() == type_vars(tt) && low
                                >= old(self).unifier.next_id() && crate::renaming::fresh_renaming(mw, low, hi0) && ev
                                == parameters_as_arguments(crate::renaming::rename(mw, tt)),
                            ctor == (callee is Variable && old(self).bound(cname) is None && builtin_of(cname) is None && old(
                                self,
                            ).variant_owner(cname) is Some && old(self).variant_owner(cname).unwrap() is Named),
                            ctor ==> old(self).variant_owner(cname) == Some(tt),
                            cname == callee->Variable_0.lexeme@,
                            callee matches Expr::Variable(id) ==> (Self::bound_arity(*old(self), id.lexeme@) matches Some(k)
                                ==> k == arguments@.len()),
                            callee matches Expr::Variable(id) ==> (Self::variant_arity(*old(self), id.lexeme@) matches Some(k)
                                ==> (k > 0 ==> k == arguments@.len())),
                            callee matches Expr::Variable(id) ==> (old(self).bound(id.lexeme@) is None ==> builtin_of(
                                id.lexeme@,
                            ) is None),
                        decreases function.type_parameters@.len() - m,
                    {
                        let type_arg = match binding_named(&mapping, &function.type_parameters[m].lexeme) {
                            Some(t) => t,
                            None => self.fresh(paren)?,
                        };
                        type_args.push(type_arg);
                        m = m + 1;
                    }
                    let key = self.types.expr_types.len();
                    self.types.call_type_arguments.push((key, type_args));
                }
                Ok(*return_type)
            },
            other => Err(
                TypeError::InvalidCallTarget { line: paren.line, column: paren.column, target_type: other },
            ),
        }
    }

    /// A call of the name `name`, bound to a function type, with a number
    /// `n` of arguments other than that function's: once the function type
    /// is instantiated, the argument count mismatch at the parenthesis.
    spec fn call_arity_outcome(
        before: TypeChecker,
        name: Seq<char>,
        n: nat,
        paren: Token,
        r: Result<TypeExpr, TypeError>,
    ) -> bool {
        match Self::bound_arity(before, name) {
            Some(k) => k != n ==> (r matches Err(TypeError::ArgumentCountMismatch { line, column, expected, found })
                && line == paren.line && column == paren.column && expected == k && found == n),
            None => true,
        }
    }

    /// A call of `name`, bound to nothing and naming no built-in, where it is
    /// a variant of the enum type `t`: its value has a fresh instance of `t`
    /// as its type.
    spec fn constructor_call_outcome(
        before: TypeChecker,
        after: TypeChecker,
        name: Seq<char>,
        r: Result<TypeExpr, TypeError>,
    ) -> bool {
        before.bound(name) is None && builtin_of(name) is None ==> match before.variant_owner(name) {
            Some(t) => t is Named ==> (r matches Ok(x) ==> exists|m: Map<usize, usize>, lo: nat, hi: nat|
                {
                    &&& m.dom() == type_vars(t)
                    &&& lo >= before.unifier.next_id()
                    &&& hi <= after.unifier.next_id()
                    &&& #[trigger] crate::renaming::fresh_renaming(m, lo, hi)
                    &&& x@ == parameters_as_arguments(crate::renaming::rename(m, t))
                }),
            None => true,
        }
    }

    /// `c` names a variant of a `Bool` enum with no payload (such as `True`
    /// or `False`), not shadowed by a binding, whose type can be
    /// instantiated.
    spec fn bool_variant_condition(before: TypeChecker, c: Expr) -> bool {
        match c {
            Expr::Variable(id) => before.bound(id.lexeme@) is None && match before.variant_owner(id.lexeme@) {
                Some(t) => {
                    &&& t matches TypeView::Named { identifier, .. } && identifier.lexeme == "Bool"@
                    &&& first_payload(variants_of(t), id.lexeme@, Seq::empty())
                    &&& !instantiation_overflows(t, before.unifier.next_id())
                },
                None => false,
            },
            _ => false,
        }
    }

    /// A `while` loop whose condition is such a variant and whose body is a
    /// `break` or `continue`.
    spec fn trivial_loop(before: TypeChecker, s: Stmt) -> bool {
        match s {
            Stmt::While { condition, body, .. } => Self::bool_variant_condition(before, condition) && (*body is Break
                || *body is Continue),
            _ => false,
        }
    }

    /// The payload count of the variant `name`, where `name` is bound to
    /// nothing, names no built-in, and is a variant of an enum type that can
    /// be instantiated.
    spec fn variant_arity(before: TypeChecker, name: Seq<char>) -> Option<nat> {
        if before.bound(name) is None && builtin_of(name) is None && before.variant_owner(name) is Some {
            let t = before.variant_owner(name).unwrap();
            if has_variant(t, name) && !instantiation_overflows(t, before.unifier.next_id()) {
                Some((choose|ps: Seq<TypeView>| first_payload(variants_of(t), name, ps)).len())
            } else {
                None
            }
        } else {
            None
        }
    }

    /// A call of the variant `name` with a payload, with `n` arguments
    /// where the variant takes another number: the argument count mismatch
    /// at the parenthesis.
    spec fn variant_call_outcome(before: TypeChecker, name: Seq<char>, n: nat, paren: Token, r: Result<TypeExpr, TypeError>) -> bool {
        match Self::variant_arity(before, name) {
            Some(k) => k > 0 && k != n ==> (r matches Err(TypeError::ArgumentCountMismatch { line, column, expected, found })
                && line == paren.line && column == paren.column && expected == k && found == n),
            None => true,
        }
    }

    /// The number of parameters of the function type `name` is bound to,
    /// where it is one and can be instantiated.
    spec fn bound_arity(before: TypeChecker, name: Seq<char>) -> Option<nat> {
        match before.bound(name) {
            Some(t) => match t {
                TypeView::Function { parameter_types, .. } => if !instantiation_overflows(t, before.unifier.next_id()) {
                    Some(parameter_types.len())
                } else {
                    None
                },
                _ => None,
            },
            None => None,
        }
    }

    /// What a call of `name` with `n` arguments gives when `name` is bound
    /// to nothing and names a built-in: an error for a wrong number of
    /// arguments; on success the call is recorded as a built-in call of that
    /// kind, for the expression recorded next, and a `print` is `Void`.
    spec fn builtin_call_outcome(
        before: TypeChecker,
        after: TypeChecker,
        name: Seq<char>,
        n: nat,
        paren: Token,
        r: Result<TypeExpr, TypeError>,
    ) -> bool {
        before.bound(name) is None ==> match builtin_of(name) {
            Some(kind) => {
                &&& (n == usize::MAX ==> r is Err)
                &&& (n < usize::MAX ==> (crate::type_ops::expected_argument_count(kind, n) matches Some(m) ==> (r matches Err(
                    TypeError::ArgumentCountMismatch { line, column, expected, found },
                ) && line == paren.line && column == paren.column && expected == m && found == n)))
                &&& (r is Ok ==> after.types.builtin_calls@.len() > 0 && after.types.builtin_calls@.last().1 == kind
                    && after.types.builtin_calls@.last().0 == after.types.expr_types@.len())
                &&& (kind == BuiltinCallType::Print ==> (r matches Ok(t) ==> t@ == void_at(paren.line, paren.column)))
            },
            None => true,
        }
    }

    /// A call of a built-in, by the callee's name: the literals `Array`,
    /// `Range`, `InclusiveRange` and `Map`, and `print`, `map`, `filter`,
    /// `foldl` and `foldr`; `None` for any other name.
    fn try_builtin_call(&mut self, name: &String, arguments: &Vec<Expr>, paren: &Token) -> (r: Result<
        Option<(BuiltinCallType, TypeExpr)>,
        TypeError,
    >)
        requires
            old(self).inv(),
        ensures
            Self::keeps(*old(self), *final(self)),
            builtin_of(name@) is None ==> r == Ok::<Option<(BuiltinCallType, TypeExpr)>, TypeError>(None)
                && *final(self) == *old(self),
            builtin_of(name@) == Some(BuiltinCallType::Print) && arguments@.len() == 1 && Self::plain_operand(
                *old(self),
                arguments@[0],
            ) ==> r is Ok,
            builtin_of(name@) == Some(BuiltinCallType::Print) && arguments@.len() == 1 && arguments@[0] is Literal
                ==> final(self).environment == old(self).environment,
            builtin_of(name@) == Some(BuiltinCallType::ArrayLiteral) && arguments@.len() < usize::MAX && uniform_literals(
                arguments@,
            ) ==> (r matches Ok(Some(p)) && p.1@ == named_type(
                "Array"@,
                paren.line,
                paren.column,
                seq![literal_types(arguments@)[0]],
            )),
            builtin_of(name@) matches Some(kind) ==> {
                &&& (r matches Ok(Some(p)) ==> builtin_result(
                    kind,
                    *paren,
                    old(self).unifier.next_id(),
                    arguments@.len(),
                    p.1@,
                ))
                &&& (kind == BuiltinCallType::ArrayLiteral && arguments@.len() == 0 ==> (r is Ok
                    <==> old(self).unifier.next_id() < TYPE_VARIABLE_LIMIT))
                &&& (kind == BuiltinCallType::MapLiteral && arguments@.len() == 0 ==> r is Err)
                &&& (arguments@.len() == usize::MAX ==> (r matches Err(
                    TypeError::ArgumentCountMismatch { line, column, expected, found },
                ) && line == paren.line && column == paren.column && expected == usize::MAX && found == usize::MAX))
                &&& (arguments@.len() < usize::MAX ==> (crate::type_ops::expected_argument_count(
                    kind,
                    arguments@.len(),
                ) matches Some(n) ==> (r matches Err(TypeError::ArgumentCountMismatch { line, column, expected, found })
                    && line == paren.line && column == paren.column && expected == n && found == arguments@.len())))
                &&& (r matches Ok(v) ==> v is Some)
                &&& (r matches Ok(Some(p)) ==> p.0 == kind)
                &&& (kind == BuiltinCallType::Print ==> (r matches Ok(Some(p)) ==> p.1@ == crate::type_ops::named_type(
                    "Void"@,
                    paren.line,
                    paren.column,
                    Seq::empty(),
                )))
            },
        decreases arguments, 1nat,
    {
        let kind = match builtin_call_type(name.as_str()) {
            Some(kind) => kind,
            None => {
                return Ok(None);
            },
        };
        let found = arguments.len();
        if found == usize::MAX {
            return Err(
                TypeError::ArgumentCountMismatch { line: paren.line, column: paren.column, expected: found, found },
            );
        }
        if let Some(error) = check_builtin_argument_count(kind, found, paren) {
            return Err(error);
        }
        match kind {
            BuiltinCallType::ArrayLiteral => {
                let element_type = if found == 0 {
                    self.fresh(paren)?
                } else {
                    let mut element_type = self.check_expr(&arguments[0])?;
                    let mut i: usize = 1;
                    while i < found
                        invariant
                            Self::keeps(*old(self), *self),
                            found == arguments@.len(),
                            found < usize::MAX,
                            builtin_of(name@) == Some(kind),
                            crate::type_ops::expected_argument_count(kind, found as nat) is None,
                            kind == BuiltinCallType::ArrayLiteral,
                            1 <= i <= found,
                            uniform_literals(arguments@) ==> element_type@ == literal_types(arguments@)[0],
                        decreases found - i,
                    {
                        let current_type = self.check_expr(&arguments[i])?;
                        proof {
                            if uniform_literals(arguments@) {
                                let t0 = literal_types(arguments@)[0];
                                assert(arguments@[i as int] is Literal);
                                assert(literal_types(arguments@)[i as int] == current_type@);
                                assert(t0->Named_type_arguments =~= Seq::<TypeView>::empty());
                                assert forall|v: usize| !#[trigger] var_in(v, element_type@) by {
                                    assert(!var_in_seq(v, Seq::<TypeView>::empty()));
                                }
                                assert(crate::unifier::shapes(Seq::<TypeView>::empty()) =~= Seq::<crate::unifier::Shape>::empty());
                                assert(shape(element_type@) == shape(current_type@));
                                assert(seq_type_vars(Seq::<TypeView>::empty()) =~= Set::<usize>::empty());
                                assert(type_vars(element_type@) =~= Set::<usize>::empty());
                                assert(type_vars(current_type@) =~= Set::<usize>::empty());
                            }
                        }
                        element_type = self.unify(&element_type, &current_type, paren)?;
                        i = i + 1;
                    }
                    element_type
                };
                Ok(Some((kind, create_array_type(paren.line, paren.column, element_type))))
            },
            BuiltinCallType::RangeLiteral { is_inclusive } => {
                let start_type = self.check_expr(&arguments[0])?;
                let end_type = self.check_expr(&arguments[1])?;
                let bound_type = self.unify(&start_type, &end_type, paren)?;
                Ok(Some((kind, create_range_type(paren.line, paren.column, bound_type, is_inclusive))))
            },
            BuiltinCallType::MapLiteral => {
                let (key_type, value_type) = if found == 0 {
                    let k = self.fresh(paren)?;
                    let ghost kv = k@;
                    let v = self.fresh(paren)?;
                    proof {
                        assert(self.resolved(kv) == kv);
                    }
                    (k, v)
                } else {
                    let mut key_type = self.check_expr(&arguments[0])?;
                    let mut value_type = self.check_expr(&arguments[1])?;
                    let mut i: usize = 2;
                    while i < found
                        invariant
                            Self::keeps(*old(self), *self),
                            found == arguments@.len(),
                            found < usize::MAX,
                            builtin_of(name@) == Some(kind),
                            crate::type_ops::expected_argument_count(kind, found as nat) is None,
                            kind == BuiltinCallType::MapLiteral,
                            found % 2 == 0,
                            i % 2 == 0,
                            i <= found,
                        decreases found - i,
                    {
                        let k = self.check_expr(&arguments[i])?;
                        let v = self.check_expr(&arguments[i + 1])?;
                        key_type = self.unify(&key_type, &k, paren)?;
                        value_type = self.unify(&value_type, &v, paren)?;
                        i = i + 2;
                    }
                    (key_type, value_type)
                };
                validate_map_key_type(&self.unifier, &key_type, paren)?;
                Ok(Some((kind, create_map_type(paren.line, paren.column, key_type, value_type))))
            },
            BuiltinCallType::Print => {
                self.check_expr(&arguments[0])?;
                Ok(Some((kind, create_primitive_type("Void", paren.line, paren.column))))
            },
            BuiltinCallType::MapCall => {
                let t_type = self.fresh(paren)?;
                let u_type = self.fresh(paren)?;
                let expected_arr = create_array_type(paren.line, paren.column, copy_type(&t_type));
                let actual_arr = self.check_expr(&arguments[0])?;
                self.unify(&actual_arr, &expected_arr, paren)?;
                let mut parameter_types: Vec<TypeExpr> = Vec::new();
                parameter_types.push(t_type);
                let expected_f = TypeExpr::Function { parameter_types, return_type: Box::new(copy_type(&u_type)) };
                let actual_f = self.check_expr(&arguments[1])?;
                self.unify(&actual_f, &expected_f, paren)?;
                Ok(Some((kind, create_array_type(paren.line, paren.column, u_type))))
            },
            BuiltinCallType::Filter => {
                let t_type = self.fresh(paren)?;
                let expected_arr = create_array_type(paren.line, paren.column, copy_type(&t_type));
                let actual_arr = self.check_expr(&arguments[0])?;
                self.unify(&actual_arr, &expected_arr, paren)?;
                let mut parameter_types: Vec<TypeExpr> = Vec::new();
                parameter_types.push(copy_type(&t_type));
                let expected_f = TypeExpr::Function {
                    parameter_types,
                    return_type: Box::new(create_primitive_type("Bool", paren.line, paren.column)),
                };
                let actual_f = self.check_expr(&arguments[1])?;
                self.unify(&actual_f, &expected_f, paren)?;
                Ok(Some((kind, create_array_type(paren.line, paren.column, t_type))))
            },
            BuiltinCallType::Foldl | BuiltinCallType::Foldr => {
                let t_type = self.fresh(paren)?;
                let u_type = self.fresh(paren)?;
                let expected_arr = create_array_type(paren.line, paren.column, copy_type(&t_type));
                let actual_arr = self.check_expr(&arguments[0])?;
                self.unify(&actual_arr, &expected_arr, paren)?;
                let actual_init = self.check_expr(&arguments[1])?;
                self.unify(&actual_init, &u_type, paren)?;
                let mut parameter_types: Vec<TypeExpr> = Vec::new();
                parameter_types.push(copy_type(&u_type));
                parameter_types.push(t_type);
                let expected_f = TypeExpr::Function { parameter_types, return_type: Box::new(copy_type(&u_type)) };
                let actual_f = self.check_expr(&arguments[2])?;
                self.unify(&actual_f, &expected_f, paren)?;
                Ok(Some((kind, u_type)))
            },
        }
    }

    /// A match: each case's pattern checked against the subject's type, its
    /// guard `Bool`, and the bodies of all cases unified into the type of
    /// the match.
    fn check_match_expr(&mut self, match_token: &Token, subject: &Expr, cases: &Vec<MatchCase>, Ghost(node): Ghost<Expr>) -> (r:
        Result<TypeExpr, TypeError>)
        requires
            old(self).inv(),
            node matches Expr::Match { subject: s, cases: cs, .. } && *s == *subject && cs == *cases,
        ensures
            Self::keeps(*old(self), *final(self)),
            cases@.len() == 0 ==> r is Err,
        decreases node, 1nat,
    {
        let subject_type = self.check_expr(subject)?;
        if cases.len() == 0 {
            return Err(TypeError::EmptyMatch { line: match_token.line, column: match_token.column });
        }
        let mut result_type: Option<TypeExpr> = None;
        let mut i: usize = 0;
        while i < cases.len()
            invariant
                Self::keeps(*old(self), *self),
                node matches Expr::Match { cases: cs, .. } && cs == *cases,
                i <= cases@.len(),
                i > 0 ==> result_type is Some,
            decreases cases@.len() - i,
        {
            let case = &cases[i];
            self.check_pattern(&case.pattern, &subject_type)?;
            if let Some(guard) = &case.guard {
                let guard_type = self.check_expr(guard)?;
                let token = match &case.guard_token {
                    Some(t) => t,
                    None => match_token,
                };
                check_condition(token, guard_type)?;
            }
            let case_type = self.check_expr(&case.body)?;
            result_type = match result_type {
                None => Some(case_type),
                Some(previous) => Some(self.unify(&previous, &case_type, match_token)?),
            };
            i = i + 1;
        }
        Ok(result_type.unwrap())
    }

    /// Checks a pattern against the type of the value it is matched with,
    /// binding its variables in the innermost scope.
    fn check_pattern(&mut self, pattern: &Pattern, subject_type: &TypeExpr) -> (r: Result<(), TypeError>)
        requires
            old(self).inv(),
        ensures
            Self::keeps(*old(self), *final(self)),
            pattern is Wildcard ==> r is Ok && *final(self) == *old(self),
            pattern matches Pattern::Variable(id) ==> r is Ok && Self::declared(
                *old(self),
                *final(self),
                id.lexeme@,
                subject_type@,
            ),
            pattern matches Pattern::Literal(l) ==> Self::literal_pattern_outcome(*old(self), *final(self), *l, subject_type@, r),
            pattern matches Pattern::Literal(l) ==> (l.literal is None ==> (r matches Err(
                TypeError::UnknownLiteral { line, column, token },
            ) && line == l.line && column == l.column && token@ == l@)),
            pattern matches Pattern::EnumVariant { identifier: v, .. } ==> Self::variant_pattern_outcome(
                *old(self),
                *v,
                subject_type@,
                r,
            ),
            pattern matches Pattern::EnumVariant { identifier: v, .. } ==> (!(*subject_type is Named) ==> (r matches Err(
                TypeError::InvalidEnumPatternTarget { line, column, subject_type: t },
            ) && line == v.line && column == v.column && t@ == subject_type@)),
            pattern matches Pattern::Tuple { elements, left_paren } ==> Self::destructured(
                old(self).resolved(subject_type@),
                elements@.len(),
                *left_paren,
                r,
            ),
        decreases pattern,
    {
        match pattern {
            Pattern::Wildcard(_) => Ok(()),
            Pattern::Literal(literal) => {
                let literal_type = check_literal(literal)?;
                proof {
                    assert(seq_type_vars(Seq::<TypeView>::empty()) =~= Set::<usize>::empty());
                    assert(type_vars(literal_type@) =~= Set::<usize>::empty());
                    assert(!reaches_limit(literal_type@));
                    assert forall|v: usize| !#[trigger] var_in(v, literal_type@) by {
                        assert(!var_in_seq(v, Seq::<TypeView>::empty()));
                    }
                    assert(crate::unifier::ground(literal_type@));
                }
                match self.unify(&literal_type, subject_type, literal) {
                    Ok(_) => Ok(()),
                    Err(e) => Err(e),
                }
            },
            Pattern::Variable(identifier) => {
                self.environment.insert(identifier, copy_type(subject_type));
                Ok(())
            },
            Pattern::EnumVariant { identifier: variant_identifier, arguments } => {
                let invalid_target = TypeError::InvalidEnumPatternTarget {
                    line: variant_identifier.line,
                    column: variant_identifier.column,
                    subject_type: copy_type(subject_type),
                };
                let (subject_identifier, subject_arguments) = match subject_type {
                    TypeExpr::Named { identifier, type_arguments, .. } => (identifier, type_arguments),
                    _ => {
                        return Err(invalid_target);
                    },
                };
                let definition = match self.environment.lookup(subject_identifier) {
                    Some(d) => copy_type(d),
                    None => {
                        return Err(invalid_target);
                    },
                };
                let (definition_parameters, variants) = match definition {
                    TypeExpr::Named { type_parameters, enum_variants: Some(variants), .. } => (type_parameters, variants),
                    _ => {
                        return Err(invalid_target);
                    },
                };
                proof {
                    crate::types::lemma_variants_view_index(variants@);
                }
                let mut raw_payload: Option<Vec<TypeExpr>> = None;
                let mut k: usize = 0;
                while k < variants.len()
                    invariant_except_break
                        raw_payload is None,
                    invariant
                        k <= variants@.len(),
                        forall|j: int| 0 <= j < k ==> #[trigger] variants@[j].identifier.lexeme@ != variant_identifier.lexeme@,
                    ensures
                        raw_payload is None ==> forall|j: int|
                            0 <= j < variants@.len() ==> #[trigger] variants@[j].identifier.lexeme@ != variant_identifier.lexeme@,
                        raw_payload is Some ==> k < variants@.len() && variants@[k as int].identifier.lexeme@
                            == variant_identifier.lexeme@,
                    decreases variants@.len() - k,
                {
                    if variants[k].identifier.lexeme == variant_identifier.lexeme {
                        raw_payload = Some(copy_types(&variants[k].payload_types));
                        break;
                    }
                    k = k + 1;
                }
                let raw_payload_types = match raw_payload {
                    Some(p) => p,
                    None => {
                        return Err(
                            TypeError::InvalidEnumVariant {
                                line: variant_identifier.line,
                                column: variant_identifier.column,
                                enum_type: copy_type(subject_type),
                                variant_identifier: variant_identifier.lexeme.clone(),
                            },
                        );
                    },
                };
                proof {
                    assert(crate::types::variants_view(variants@)[k as int].identifier.lexeme == variant_identifier.lexeme@);
                    assert forall|rr: Result<(), TypeError>| #[trigger] Self::variant_pattern_outcome(
                        *old(self),
                        *variant_identifier,
                        subject_type@,
                        rr,
                    ) by {}
                }
                let mut substitutions: HashMap<usize, TypeExpr> = HashMap::new();
                if let Some(parameters) = &definition_parameters {
                    let mut j: usize = 0;
                    while j < parameters.len() && j < subject_arguments.len()
                        invariant
                            forall|rr: Result<(), TypeError>| #[trigger] Self::variant_pattern_outcome(*old(self), *variant_identifier, subject_type@, rr),
                        decreases parameters@.len() - j,
                    {
                        if let TypeExpr::TypeVar { id } = &parameters[j] {
                            substitutions.insert(*id, copy_type(&subject_arguments[j]));
                        }
                        j = j + 1;
                    }
                }
                let mut payload_types: Vec<TypeExpr> = Vec::new();
                let mut m: usize = 0;
                while m < raw_payload_types.len()
                    invariant
                        payload_types@.len() == m,
                        m <= raw_payload_types@.len(),
                        forall|rr: Result<(), TypeError>| #[trigger] Self::variant_pattern_outcome(*old(self), *variant_identifier, subject_type@, rr),
                    decreases raw_payload_types@.len() - m,
                {
                    payload_types.push(substitute_typevars(&raw_payload_types[m], &substitutions));
                    m = m + 1;
                }
                if arguments.len() != payload_types.len() {
                    return Err(
                        TypeError::EnumVariantPayloadCountMismatch {
                            line: variant_identifier.line,
                            column: variant_identifier.column,
                            variant_identifier: variant_identifier.lexeme.clone(),
                            expected: payload_types.len(),
                            found: arguments.len(),
                        },
                    );
                }
                let mut i: usize = 0;
                while i < arguments.len()
                    invariant
                        Self::keeps(*old(self), *self),
                        payload_types@.len() == arguments@.len(),
                        *pattern matches Pattern::EnumVariant { arguments: args, .. } && args == *arguments,
                        *pattern matches Pattern::EnumVariant { identifier: vi, .. } && vi == *variant_identifier,
                        *subject_type is Named,
                        forall|rr: Result<(), TypeError>| #[trigger] Self::variant_pattern_outcome(*old(self), *variant_identifier, subject_type@, rr),
                    decreases arguments@.len() - i,
                {
                    match self.check_pattern(&arguments[i], &payload_types[i]) {
                        Ok(()) => {},
                        Err(e) => {
                            let rr: Result<(), TypeError> = Err(e);
                            proof {
                                assert(Self::variant_pattern_outcome(*old(self), *variant_identifier, subject_type@, rr));
                            }
                            return rr;
                        },
                    }
                    i = i + 1;
                }
                Ok(())
            },
            Pattern::Range { start, end, .. } => {
                let start_type = check_literal(start)?;
                let end_type = check_literal(end)?;
                let unified_bound_type = self.unify(&start_type, &end_type, start)?;
                self.unify(&unified_bound_type, subject_type, start)?;
                Ok(())
            },
            Pattern::Tuple { elements, left_paren } => {
                let resolved = self.unifier.apply_substitutions(subject_type);
                let ghost rv = resolved@;
                proof {
                    assert(rv == old(self).resolved(subject_type@));
                }
                match resolved {
                    TypeExpr::Tuple { element_types } => {
                        proof {
                            lemma_types_view_index(element_types@);
                        }
                        if element_types.len() != elements.len() {
                            return Err(
                                TypeError::TupleArityMismatch {
                                    line: left_paren.line,
                                    column: left_paren.column,
                                    expected: element_types.len(),
                                    found: elements.len(),
                                },
                            );
                        }
                        let mut i: usize = 0;
                        while i < elements.len()
                            invariant
                                Self::keeps(*old(self), *self),
                                old(self).resolved(subject_type@) == (TypeView::Tuple { element_types: types_view(element_types@) }),
                                types_view(element_types@).len() == element_types@.len(),
                                element_types@.len() == elements@.len(),
                                *pattern matches Pattern::Tuple { elements: es, .. } && es == *elements,
                            decreases elements@.len() - i,
                        {
                            self.check_pattern(&elements[i], &element_types[i])?;
                            i = i + 1;
                        }
                        Ok(())
                    },
                    other => Err(
                        TypeError::DestructureRequiresTuple {
                            line: left_paren.line,
                            column: left_paren.column,
                            target_type: other,
                        },
                    ),
                }
            },
        }
    }

    /// What matching the variant pattern named by `v` against a subject of
    /// the named type `subject` gives where it cannot match: a name bound to
    /// no enum is an invalid target, and an enum with no such variant an
    /// invalid variant, each reported at `v`.
    spec fn variant_pattern_outcome(before: TypeChecker, v: Token, subject: TypeView, r: Result<(), TypeError>) -> bool {
        match subject {
            TypeView::Named { identifier: si, .. } => match before.bound(si.lexeme) {
                Some(TypeView::Named { enum_variants: Some(vs), .. }) => (forall|i: int|
                    0 <= i < vs.len() ==> #[trigger] vs[i].identifier.lexeme != v.lexeme@) ==> (r matches Err(
                    TypeError::InvalidEnumVariant { line, column, enum_type, variant_identifier },
                ) && line == v.line && column == v.column && enum_type@ == subject && variant_identifier@ == v.lexeme@),
                _ => r matches Err(TypeError::InvalidEnumPatternTarget { line, column, subject_type: t }) && line
                    == v.line && column == v.column && t@ == subject,
            },
            _ => true,
        }
    }

    /// What matching a literal `l` against a subject of type `subject`
    /// gives: the literal's type is unified with the subject's, so a clash of
    /// their heads is a mismatch at the literal (the literal's type
    /// expected), and a subject free of type variables with the literal's
    /// shape matches.
    spec fn literal_pattern_outcome(
        before: TypeChecker,
        after: TypeChecker,
        l: Token,
        subject: TypeView,
        r: Result<(), TypeError>,
    ) -> bool {
        match crate::check_rules::literal_type(l) {
            None => r is Err,
            Some(t) => {
                &&& (reaches_limit(subject) ==> r == Err::<(), TypeError>(Self::limit_error_at(l)))
                &&& (!reaches_limit(subject) ==> {
                    &&& (heads_clash(
                        crate::unifier::resolve(before.unifier.subst(), before.unifier.ranking(), t),
                        crate::unifier::resolve(before.unifier.subst(), before.unifier.ranking(), subject),
                    ) ==> (r matches Err(TypeError::MismatchedTypes { line, column, expected, found }) && line == l.line
                        && column == l.column && expected@ == crate::unifier::resolve(
                        before.unifier.subst(),
                        before.unifier.ranking(),
                        t,
                    ) && found@ == crate::unifier::resolve(before.unifier.subst(), before.unifier.ranking(), subject)))
                    &&& (r is Ok ==> shape(after.resolved(t)) == shape(after.resolved(subject)))
                    &&& (shape(t) == shape(subject) ==> r is Ok)
                })
            },
        }
    }

    /// A lambda: its parameters are its locals, its type is the function
    /// from their types to the type of its body, and what it captures is
    /// recorded.  A failing body leaves the lambda's capture tables open.
    fn check_lambda_expr(
        &mut self,
        parameters: &Vec<(Token, TypeExpr)>,
        return_type: &Option<TypeExpr>,
        body: &Vec<Stmt>,
        Ghost(node): Ghost<Expr>,
    ) -> (r: Result<TypeExpr, TypeError>)
        requires
            old(self).inv(),
            node matches Expr::Lambda { body: b, .. } && b == *body,
        ensures
            Self::keeps(*old(self), *final(self)),
            r matches Ok(t) ==> (t@ matches TypeView::Function { parameter_types, .. } && parameter_types
                == parameter_types_view(parameters@)),
            parameters@.len() == 0 && body@.len() == 0 && return_type is None ==> (r matches Ok(t) && t@
                == (TypeView::Function { parameter_types: Seq::empty(), return_type: Box::new(void_at(0, 0)) })),
        decreases node, 1nat,
    {
        self.lambda_captures_stack.push(Vec::new());
        let mut locals: Vec<String> = Vec::new();
        let mut k: usize = 0;
        while k < parameters.len()
            decreases parameters@.len() - k,
        {
            if !holds_name(&locals, &parameters[k].0.lexeme) {
                locals.push(parameters[k].0.lexeme.clone());
            }
            k = k + 1;
        }
        self.lambda_locals_stack.push(locals);
        let lambda_type = self.check_lambda_body(parameters, return_type, body, Ghost(node))?;
        let captures = match self.lambda_captures_stack.pop() {
            Some(c) => c,
            None => Vec::new(),
        };
        let _ = self.lambda_locals_stack.pop();
        let key = self.types.expr_types.len();
        self.types.lambda_captures.push((key, captures));
        Ok(lambda_type)
    }

    /// The type of a lambda: in a new scope that binds its parameters, its
    /// body's type unified with the declared return type, if any.  Errors
    /// are reported at the first parameter, or at line 0, column 0.
    fn check_lambda_body(
        &mut self,
        parameters: &Vec<(Token, TypeExpr)>,
        return_type: &Option<TypeExpr>,
        body: &Vec<Stmt>,
        Ghost(node): Ghost<Expr>,
    ) -> (r: Result<TypeExpr, TypeError>)
        requires
            old(self).inv(),
            node matches Expr::Lambda { body: b, .. } && b == *body,
        ensures
            Self::keeps(*old(self), *final(self)),
            r matches Ok(t) ==> (t@ matches TypeView::Function { parameter_types, .. } && parameter_types
                == parameter_types_view(parameters@)),
            parameters@.len() == 0 && body@.len() == 0 && return_type is None ==> (r matches Ok(t) && t@
                == (TypeView::Function { parameter_types: Seq::empty(), return_type: Box::new(void_at(0, 0)) })),
        decreases node, 0nat,
    {
        self.environment.push_scope();
        let error_token = if parameters.len() > 0 {
            parameters[0].0.clone()
        } else {
            Token { token_type: TokenType::Identifier, lexeme: "<lambda>".to_owned(), literal: None, line: 0, column: 0 }
        };
        let result = self.lambda_type(parameters, return_type, body, &error_token, Ghost(node));
        self.environment.pop_scope();
        proof {
            if parameters@.len() == 0 {
                assert(parameter_types_view(parameters@) =~= Seq::<TypeView>::empty());
            }
        }
        result
    }

    fn lambda_type(
        &mut self,
        parameters: &Vec<(Token, TypeExpr)>,
        return_type: &Option<TypeExpr>,
        body: &Vec<Stmt>,
        error_token: &Token,
        Ghost(node): Ghost<Expr>,
    ) -> (r: Result<TypeExpr, TypeError>)
        requires
            old(self).inv(),
            node matches Expr::Lambda { body: b, .. } && b == *body,
        ensures
            Self::keeps(*old(self), *final(self)),
            r matches Ok(t) ==> (t@ matches TypeView::Function { parameter_types, .. } && parameter_types
                == parameter_types_view(parameters@)),
            body@.len() == 0 && return_type is None ==> (r matches Ok(t) && t@ == (TypeView::Function {
                parameter_types: parameter_types_view(parameters@),
                return_type: Box::new(void_at(error_token.line, error_token.column)),
            })),
        decreases body, 2nat,
    {
        let mut i: usize = 0;
        while i < parameters.len()
            invariant
                Self::keeps(*old(self), *self),
            decreases parameters@.len() - i,
        {
            self.environment.insert(&parameters[i].0, copy_type(&parameters[i].1));
            i = i + 1;
        }
        let actual_return_type = self.infer_block_return_type(body, error_token.line, error_token.column)?;
        let unified_return_type = match return_type {
            Some(annotated_return_type) => self.unify(&actual_return_type, annotated_return_type, error_token)?,
            None => actual_return_type,
        };
        let mut parameter_types: Vec<TypeExpr> = Vec::new();
        let mut j: usize = 0;
        while j < parameters.len()
            invariant
                j <= parameters@.len(),
                parameter_types@.len() == j,
                forall|k: int| 0 <= k < j ==> #[trigger] parameter_types@[k]@ == parameters@[k].1@,
            decreases parameters@.len() - j,
        {
            parameter_types.push(copy_type(&parameters[j].1));
            j = j + 1;
        }
        proof {
            lemma_types_view_index(parameter_types@);
            assert forall|k: int| 0 <= k < parameters@.len() implies #[trigger] types_view(parameter_types@)[k]
                == parameter_types_view(parameters@)[k] by {
                assert(parameter_types@[k]@ == parameters@[k].1@);
            }
            assert(types_view(parameter_types@) =~= parameter_types_view(parameters@));
        }
        Ok(TypeExpr::Function { parameter_types, return_type: Box::new(unified_return_type) })
    }

    /// A block expression: its statements, in a new scope; its type is the
    /// type of its last statement when that is an expression, `Void` at the
    /// opening brace otherwise.
    fn check_block_expr_expr(&mut self, statements: &Vec<Stmt>, left_brace: &Token, Ghost(node): Ghost<Expr>) -> (r:
        Result<TypeExpr, TypeError>)
        requires
            old(self).inv(),
            node matches Expr::Block { stmts: ss, .. } && ss == *statements,
        ensures
            Self::keeps(*old(self), *final(self)),
            statements@.len() == 0 ==> (r matches Ok(t) && t@ == void_at(left_brace.line, left_brace.column)),
            statements@.len() > 0 && !(statements@.last() is Expression) ==> (r matches Ok(t) ==> t@ == void_at(
                left_brace.line,
                left_brace.column,
            )),
        decreases node, 1nat,
    {
        self.environment.push_scope();
        let result = self.block_value_type(statements, left_brace);
        self.environment.pop_scope();
        result
    }

    fn block_value_type(&mut self, statements: &Vec<Stmt>, left_brace: &Token) -> (r: Result<TypeExpr, TypeError>)
        requires
            old(self).inv(),
        ensures
            Self::keeps(*old(self), *final(self)),
            statements@.len() == 0 ==> (r matches Ok(t) && t@ == void_at(left_brace.line, left_brace.column)),
            statements@.len() > 0 && !(statements@.last() is Expression) ==> (r matches Ok(t) ==> t@ == void_at(
                left_brace.line,
                left_brace.column,
            )),
        decreases statements, 2nat,
    {
        let n = statements.len();
        let mut i: usize = 0;
        while i < n
            invariant
                Self::keeps(*old(self), *self),
                n == statements@.len(),
            decreases n - i,
        {
            if i == n - 1 {
                match &statements[i] {
                    Stmt::Expression(expr) => {
                        return self.check_expr(expr);
                    },
                    _ => {
                        return Ok(create_primitive_type("Void", left_brace.line, left_brace.column));
                    },
                }
            } else {
                self.check_stmt(&statements[i])?;
            }
            i = i + 1;
        }
        Ok(create_primitive_type("Void", left_brace.line, left_brace.column))
    }
}

} // verus!

verus! {

/// Every type of the list, with the substitution applied.
fn resolve_all(unifier: &Unifier, ts: &Vec<TypeExpr>) -> (r: Vec<TypeExpr>)
    requires
        unifier.wf(),
    ensures
        r@.len() == ts@.len(),
        forall|i: int| 0 <= i < r@.len() ==> #[trigger] r@[i]@ == unifier.resolved(ts@[i]@),
{
    let mut r: Vec<TypeExpr> = Vec::new();
    let mut i: usize = 0;
    while i < ts.len()
        invariant
            unifier.wf(),
            i <= ts@.len(),
            r@.len() == i,
            forall|j: int| 0 <= j < i ==> #[trigger] r@[j]@ == unifier.resolved(ts@[j]@),
        decreases ts@.len() - i,
    {
        r.push(unifier.apply_substitutions(&ts[i]));
        i = i + 1;
    }
    r
}

/// Every type of the list of bindings, with the substitution applied.
fn resolve_bindings(unifier: &Unifier, bs: &Vec<(String, TypeExpr)>) -> (r: Vec<(String, TypeExpr)>)
    requires
        unifier.wf(),
    ensures
        r@.len() == bs@.len(),
        forall|i: int| 0 <= i < r@.len() ==> #[trigger] r@[i].1@ == unifier.resolved(bs@[i].1@) && r@[i].0@ == bs@[i].0@,
{
    let mut r: Vec<(String, TypeExpr)> = Vec::new();
    let mut i: usize = 0;
    while i < bs.len()
        invariant
            unifier.wf(),
            i <= bs@.len(),
            r@.len() == i,
            forall|j: int| 0 <= j < i ==> #[trigger] r@[j].1@ == unifier.resolved(bs@[j].1@) && r@[j].0@ == bs@[j].0@,
        decreases bs@.len() - i,
    {
        let ghost before = r@;
        let name = bs[i].0.clone();
        let t = unifier.apply_substitutions(&bs[i].1);
        r.push((name, t));
        proof {
            assert forall|j: int| 0 <= j < i + 1 implies #[trigger] r@[j].1@ == unifier.resolved(bs@[j].1@) && r@[j].0@
                == bs@[j].0@ by {
                if j < i {
                    assert(r@[j] == before[j]);
                }
            }
        }
        i = i + 1;
    }
    r
}

/// Every positioned type, with the substitution applied.
fn resolve_positioned(unifier: &Unifier, ps: &Vec<((u32, u32), TypeExpr)>) -> (r: Vec<((u32, u32), TypeExpr)>)
    requires
        unifier.wf(),
    ensures
        r@.len() == ps@.len(),
        forall|i: int| 0 <= i < r@.len() ==> #[trigger] r@[i].1@ == unifier.resolved(ps@[i].1@) && r@[i].0 == ps@[i].0,
{
    let mut r: Vec<((u32, u32), TypeExpr)> = Vec::new();
    let mut i: usize = 0;
    while i < ps.len()
        invariant
            unifier.wf(),
            i <= ps@.len(),
            r@.len() == i,
            forall|j: int| 0 <= j < i ==> #[trigger] r@[j].1@ == unifier.resolved(ps@[j].1@) && r@[j].0 == ps@[j].0,
        decreases ps@.len() - i,
    {
        let ghost before = r@;
        let t = unifier.apply_substitutions(&ps[i].1);
        r.push((ps[i].0, t));
        proof {
            assert forall|j: int| 0 <= j < i + 1 implies #[trigger] r@[j].1@ == unifier.resolved(ps@[j].1@) && r@[j].0
                == ps@[j].0 by {
                if j < i {
                    assert(r@[j] == before[j]);
                }
            }
        }
        i = i + 1;
    }
    r
}

/// Every type is left unchanged by the substitution.
pub open spec fn all_resolved(checker: TypeChecker, ts: Seq<TypeExpr>) -> bool {
    forall|i: int| 0 <= i < ts.len() ==> #[trigger] checker.resolved(ts[i]@) == ts[i]@
}

/// Every bound type is left unchanged by the substitution.
pub open spec fn all_bindings_resolved(checker: TypeChecker, bs: Seq<(String, TypeExpr)>) -> bool {
    forall|i: int| 0 <= i < bs.len() ==> #[trigger] checker.resolved(bs[i].1@) == bs[i].1@
}

impl TypeChecker {
    /// Checks a program statement by statement.  A failing statement adds
    /// its error and the check goes on with the next one.  With no error,
    /// the result holds what was learned, every type in it fully resolved
    /// (the substitution changes none of them) and the checker's record of
    /// it emptied; otherwise the result is the errors, one for each failing
    /// statement, in order.  Type variable bindings made are kept.
    pub fn check_program(&mut self, stmts: &[Stmt]) -> (r: Result<TypeInfo, Vec<TypeError>>)
        requires
            old(self).wf(),
        ensures
            final(self).wf(),
            extends(old(self).substitution(), final(self).substitution()),
            r matches Err(errors) ==> 0 < errors@.len() <= stmts@.len(),
            stmts@.len() == 0 ==> r is Ok,
            (forall|i: int| 0 <= i < stmts@.len() ==> #[trigger] literal_statement(stmts@[i])) ==> r is Ok,
            old(self).bound("print"@) is None && (forall|i: int| 0 <= i < stmts@.len() ==> #[trigger] simple_statement(stmts@[i]))
                ==> r is Ok,
            (forall|i: int| 0 <= i < stmts@.len() ==> #[trigger] literal_statement(stmts@[i])) && old(self).nothing_recorded()
                ==> (r matches Ok(info) && info.expr_types@.len() == stmts@.len() && forall|i: int|
                0 <= i < stmts@.len() ==> #[trigger] info.expr_types@[i]@ == statement_literal_type(stmts@[i])),
            !old(self).in_loop() && (exists|i: int| 0 <= i < stmts@.len() && #[trigger] surely_fails(stmts@[i])) ==> r is Err,
            !old(self).in_loop() ==> (r matches Err(errors) ==> breaks_reported(stmts@, errors@)),
            r is Ok ==> final(self).nothing_recorded(),
            r matches Ok(info) ==> {
                &&& all_resolved(*final(self), info.expr_types@)
                &&& all_bindings_resolved(*final(self), info.function_types@)
                &&& forall|i: int| 0 <= i < info.initializer_types@.len() ==> #[trigger] final(self).resolved(
                    info.initializer_types@[i].1@,
                ) == info.initializer_types@[i].1@
                &&& forall|i: int| #![trigger info.lambda_captures@[i]]
                    0 <= i < info.lambda_captures@.len() ==> all_bindings_resolved(
                        *final(self),
                        info.lambda_captures@[i].1@,
                    )
            },
    {
        let mut i: usize = 0;
        while i < stmts.len()
            invariant
                Self::advances(*old(self), *self),
                self.errors@.len() <= i,
                i <= stmts@.len(),
                (forall|k: int| 0 <= k < stmts@.len() ==> #[trigger] literal_statement(stmts@[k])) ==> self.errors@.len()
                    == 0,
                self.loop_depth == old(self).loop_depth,
                old(self).bound("print"@) is None && (forall|k: int| 0 <= k < stmts@.len() ==> #[trigger] simple_statement(stmts@[k]))
                    ==> self.errors@.len() == 0 && self.bound("print"@) is None,
                (forall|k: int| 0 <= k < stmts@.len() ==> #[trigger] literal_statement(stmts@[k])) && old(self).nothing_recorded()
                    ==> self.types.expr_types@.len() == i && forall|k: int|
                    0 <= k < i ==> #[trigger] self.types.expr_types@[k]@ == statement_literal_type(stmts@[k]),
                old(self).loop_depth == 0 && (exists|k: int| 0 <= k < i && #[trigger] surely_fails(stmts@[k])) ==> self.errors@.len() > 0,
                old(self).loop_depth == 0 ==> forall|k: int|
                    0 <= k < i ==> (#[trigger] stmts@[k] matches Stmt::Break(t) ==> exists|j: int|
                        0 <= j < self.errors@.len() && self.errors@[j] == (TypeError::BreakOutsideLoop { line: t.line, column: t.column })),
            decreases stmts@.len() - i,
        {
            let ghost before = self.errors@;
            let ghost st = *self;
            proof {
                if old(self).bound("print"@) is None && (forall|k: int| 0 <= k < stmts@.len() ==> #[trigger] simple_statement(stmts@[k])) {
                    assert(simple_statement(stmts@[i as int]));
                }
            }
            match self.check_stmt(&stmts[i]) {
                Err(error) => self.errors.push(error),
                Ok(()) => {},
            }
            proof {
                if old(self).bound("print"@) is None && (forall|k: int| 0 <= k < stmts@.len() ==> #[trigger] simple_statement(stmts@[k])) {
                    let sk = stmts@[i as int];
                    if literal_statement(sk) && declared_name(sk) != "print"@ {
                        assert(self.bound("print"@) == st.bound("print"@));
                    } else {
                        assert(sk matches Stmt::Expression(Expr::Call { callee, arguments, .. }) && print_literal_call(st, *callee, arguments@));
                    }
                }
                if old(self).loop_depth == 0 {
                    assert forall|k: int| 0 <= k < i + 1 implies (#[trigger] stmts@[k] matches Stmt::Break(t) ==> exists|j: int|
                        0 <= j < self.errors@.len() && self.errors@[j] == (TypeError::BreakOutsideLoop { line: t.line, column: t.column })) by {
                        if k < i {
                            if let Stmt::Break(t) = stmts@[k] {
                                let j = choose|j: int|
                                    0 <= j < before.len() && before[j] == (TypeError::BreakOutsideLoop { line: t.line, column: t.column });
                                assert(self.errors@[j] == before[j]);
                            }
                        } else {
                            if let Stmt::Break(t) = stmts@[k] {
                                assert(self.errors@[before.len() as int] == (TypeError::BreakOutsideLoop { line: t.line, column: t.column }));
                            }
                        }
                    }
                    if exists|k: int| 0 <= k < i + 1 && #[trigger] surely_fails(stmts@[k]) {
                        if !(exists|k: int| 0 <= k < i && #[trigger] surely_fails(stmts@[k])) {
                            assert(surely_fails(stmts@[i as int]));
                        }
                    }
                }
            }
            i = i + 1;
        }
        if self.errors.len() == 0 {
            let mut types = TypeInfo::new();
            std::mem::swap(&mut types, &mut self.types);
            let expr_types = resolve_all(&self.unifier, &types.expr_types);
            proof {
                if (forall|k: int| 0 <= k < stmts@.len() ==> #[trigger] literal_statement(stmts@[k])) && old(
                    self,
                ).nothing_recorded() {
                    assert(crate::unifier::apply_seq(self.unifier.subst(), self.unifier.ranking(), Seq::<TypeView>::empty())
                        =~= Seq::<TypeView>::empty());
                    assert forall|k: int| 0 <= k < stmts@.len() implies #[trigger] expr_types@[k]@ == statement_literal_type(
                        stmts@[k],
                    ) by {
                        assert(types.expr_types@[k]@ == statement_literal_type(stmts@[k]));
                        assert(expr_types@[k]@ == self.unifier.resolved(types.expr_types@[k]@));
                        let lt = statement_literal_type(stmts@[k]);
                        assert(literal_statement(stmts@[k]));
                        assert(lt is Named);
                        assert(lt->Named_type_arguments =~= Seq::<TypeView>::empty());
                        assert(self.unifier.resolved(lt) =~= lt);
                    }
                }
            }
            let function_types = resolve_bindings(&self.unifier, &types.function_types);
            let initializer_types = resolve_positioned(&self.unifier, &types.initializer_types);
            let mut lambda_captures: Vec<(usize, Vec<(String, TypeExpr)>)> = Vec::new();
            let mut k: usize = 0;
            while k < types.lambda_captures.len()
                invariant
                    self.inv(),
                    k <= types.lambda_captures@.len(),
                    lambda_captures@.len() == k,
                    forall|j: int| #![trigger lambda_captures@[j]]
                        0 <= j < k ==> all_bindings_resolved(*self, lambda_captures@[j].1@),
                decreases types.lambda_captures@.len() - k,
            {
                let captures = resolve_bindings(&self.unifier, &types.lambda_captures[k].1);
                proof {
                    assert forall|m: int| 0 <= m < captures@.len() implies #[trigger] self.resolved(captures@[m].1@)
                        == captures@[m].1@ by {
                        self.unifier.law_apply_idempotent(types.lambda_captures@[k as int].1@[m].1@);
                    }
                }
                let ghost before = lambda_captures@;
                let ghost cap = captures@;
                proof {
                    assert forall|m: int| 0 <= m < cap.len() implies #[trigger] self.resolved(cap[m].1@) == cap[m].1@ by {
                        let orig = types.lambda_captures@[k as int].1@[m].1@;
                        assert(cap[m].1@ == self.unifier.resolved(orig));
                        self.unifier.law_apply_idempotent(orig);
                        assert(self.resolved(cap[m].1@) == self.unifier.resolved(cap[m].1@));
                    }
                    assert(all_bindings_resolved(*self, cap));
                }
                lambda_captures.push((types.lambda_captures[k].0, captures));
                proof {
                    assert(lambda_captures@[k as int].1@ == cap);
                    assert forall|j: int| #![trigger lambda_captures@[j]]
                        0 <= j < k + 1 implies all_bindings_resolved(*self, lambda_captures@[j].1@) by {
                        if j < k {
                            assert(lambda_captures@[j] == before[j]);
                        }
                    }
                }
                k = k + 1;
            }
            proof {
                assert forall|m: int| 0 <= m < expr_types@.len() implies #[trigger] self.resolved(expr_types@[m]@)
                    == expr_types@[m]@ by {
                    self.unifier.law_apply_idempotent(types.expr_types@[m]@);
                }
                assert forall|m: int| 0 <= m < function_types@.len() implies #[trigger] self.resolved(
                    function_types@[m].1@,
                ) == function_types@[m].1@ by {
                    self.unifier.law_apply_idempotent(types.function_types@[m].1@);
                }
                assert forall|m: int| 0 <= m < initializer_types@.len() implies #[trigger] self.resolved(
                    initializer_types@[m].1@,
                ) == initializer_types@[m].1@ by {
                    self.unifier.law_apply_idempotent(types.initializer_types@[m].1@);
                }
            }
            Ok(
                TypeInfo {
                    expr_types,
                    function_types,
                    lambda_captures,
                    builtin_calls: types.builtin_calls,
                    call_type_arguments: types.call_type_arguments,
                    tracked_vars: types.tracked_vars,
                    initializer_types,
                },
            )
        } else {
            let ghost es = self.errors@;
            let mut errors: Vec<TypeError> = Vec::new();
            std::mem::swap(&mut errors, &mut self.errors);
            proof {
                assert(errors@ == es);
                if !old(self).in_loop() {
                    assert(i == stmts@.len());
                    assert forall|k: int| 0 <= k < stmts@.len() implies (#[trigger] stmts@[k] matches Stmt::Break(t) ==> exists|j: int|
                        0 <= j < errors@.len() && errors@[j] == (TypeError::BreakOutsideLoop { line: t.line, column: t.column })) by {
                        if let Stmt::Break(t) = stmts@[k] {
                            let j = choose|j: int|
                                0 <= j < es.len() && es[j] == (TypeError::BreakOutsideLoop { line: t.line, column: t.column });
                            assert(errors@[j] == es[j]);
                        }
                    }
                    assert(breaks_reported(stmts@, errors@));
                }
            }
            Err(errors)
        }
    }
}

} // verus!
