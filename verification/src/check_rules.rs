use vstd::prelude::*;
use crate::ast::{first_token_of, VariableBinding};
use crate::c_names::same_text;
use crate::error::TypeError;
use crate::text::chars_of;
use crate::token::{Literal, Token, TokenType};
use crate::type_ops::{create_primitive_type, named_type, valid_map_key, validate_map_key_type};
use crate::type_rules::{first_argument, is_named, unify_error_at};
use crate::types::{copy_type, lemma_types_view_index, types_view, TypeExpr, TypeView};
use crate::unifier::{extends, lemma_vars_below_elem, shape, var_in, var_in_seq, vars_below, Unifier};

verus! {

/// The type of a literal token, if it has a value: `Double` for a numeral
/// with a `.`, `Int` for any other numeral, `String` for a string, each
/// written at the token.
pub open spec fn literal_type(literal: Token) -> Option<TypeView> {
    match literal.literal {
        Some(Literal::Number(_)) => Some(
            named_type(
                if literal.lexeme@.contains('.') {
                    "Double"@
                } else {
                    "Int"@
                },
                literal.line,
                literal.column,
                Seq::empty(),
            ),
        ),
        Some(Literal::String(_)) => Some(named_type("String"@, literal.line, literal.column, Seq::empty())),
        None => None,
    }
}

/// A literal's type is none of `Bool`, `Array` and `Map`.
pub proof fn lemma_literal_type_names(l: Token)
    ensures
        literal_type(l) matches Some(t) ==> !is_named(t, "Bool"@) && !is_named(t, "Array"@) && !is_named(t, "Map"@),
{
    reveal_strlit("Bool");
    reveal_strlit("Array");
    reveal_strlit("Map");
    reveal_strlit("Int");
    reveal_strlit("Double");
    reveal_strlit("String");
    assert("Int"@[0] != "Bool"@[0] && "Int"@[0] != "Array"@[0] && "Int"@[0] != "Map"@[0]);
    assert("Double"@[0] != "Bool"@[0] && "Double"@[0] != "Array"@[0] && "Double"@[0] != "Map"@[0]);
    assert("String"@[0] != "Bool"@[0] && "String"@[0] != "Array"@[0] && "String"@[0] != "Map"@[0]);
}

/// The type of a literal token: `Double` for a numeral with a `.`, `Int`
/// for any other numeral, `String` for a string; a token with no literal
/// value is an unknown literal.
pub fn check_literal(literal: &Token) -> (r: Result<TypeExpr, TypeError>)
    ensures
        match literal_type(*literal) {
            Some(t) => r matches Ok(x) && x@ == t,
            None => r is Err,
        },
        match literal.literal {
            Some(Literal::Number(_)) => r matches Ok(t) && t@ == named_type(
                if literal.lexeme@.contains('.') {
                    "Double"@
                } else {
                    "Int"@
                },
                literal.line,
                literal.column,
                Seq::empty(),
            ),
            Some(Literal::String(_)) => r matches Ok(t) && t@ == named_type(
                "String"@,
                literal.line,
                literal.column,
                Seq::empty(),
            ),
            None => r matches Err(TypeError::UnknownLiteral { line, column, token }) && line == literal.line
                && column == literal.column && token@ == literal@,
        },
{
    match &literal.literal {
        Some(Literal::Number(_)) => {
            let cs = chars_of(literal.lexeme.as_str());
            let mut has_dot = false;
            let mut i: usize = 0;
            while i < cs.len()
                invariant
                    i <= cs@.len(),
                    cs@ == literal.lexeme@,
                    has_dot <==> (exists|k: int| 0 <= k < i && #[trigger] cs@[k] == '.'),
                decreases cs@.len() - i,
            {
                if cs[i] == '.' {
                    has_dot = true;
                }
                i = i + 1;
            }
            if has_dot {
                Ok(create_primitive_type("Double", literal.line, literal.column))
            } else {
                Ok(create_primitive_type("Int", literal.line, literal.column))
            }
        },
        Some(Literal::String(_)) => Ok(create_primitive_type("String", literal.line, literal.column)),
        None => Err(TypeError::UnknownLiteral { line: literal.line, column: literal.column, token: literal.clone() }),
    }
}

pub(crate) fn named_as(t: &TypeExpr, name: &str) -> (b: bool)
    ensures
        b == is_named(t@, name@),
{
    match t {
        TypeExpr::Named { identifier, .. } => same_text(&identifier.lexeme, name),
        _ => false,
    }
}

/// A condition (of an `if`, a `while` or a match guard) must be `Bool`;
/// otherwise the error is reported at `token`.
pub fn check_condition(token: &Token, condition_type: TypeExpr) -> (r: Result<(), TypeError>)
    ensures
        r is Ok <==> is_named(condition_type@, "Bool"@),
        r matches Err(e) ==> (e matches TypeError::ConditionNotBoolean { line, column, condition_type: c } && line
            == token.line && column == token.column && c@ == condition_type@),
{
    if named_as(&condition_type, "Bool") {
        Ok(())
    } else {
        Err(TypeError::ConditionNotBoolean { line: token.line, column: token.column, condition_type })
    }
}

/// `break` and `continue` must stand inside a loop.
pub fn check_loop_control(token: &Token, loop_depth: usize, is_break: bool) -> (r: Result<(), TypeError>)
    ensures
        r is Ok <==> loop_depth > 0,
        r matches Err(e) ==> if is_break {
            e == TypeError::BreakOutsideLoop { line: token.line, column: token.column }
        } else {
            e == TypeError::ContinueOutsideLoop { line: token.line, column: token.column }
        },
{
    if loop_depth == 0 {
        if is_break {
            Err(TypeError::BreakOutsideLoop { line: token.line, column: token.column })
        } else {
            Err(TypeError::ContinueOutsideLoop { line: token.line, column: token.column })
        }
    } else {
        Ok(())
    }
}

/// The type of the elements a for-in loop walks: the bound of a range, the
/// element of an array, a (key, value) tuple for a map.
pub open spec fn element_type_of(t: TypeView) -> Option<TypeView> {
    match t {
        TypeView::Named { identifier, type_arguments, .. } => if (identifier.lexeme == "Range"@ || identifier.lexeme
            == "InclusiveRange"@ || identifier.lexeme == "Array"@) && type_arguments.len() == 1 {
            Some(type_arguments[0])
        } else if identifier.lexeme == "Map"@ && type_arguments.len() == 2 {
            Some(TypeView::Tuple { element_types: seq![type_arguments[0], type_arguments[1]] })
        } else {
            None
        },
        _ => None,
    }
}

/// The type of the elements a for-in loop over a value of `iterable_type`
/// walks; an error at the binding's first token when it walks none.
pub fn for_in_element_type(iterable_type: TypeExpr, first_token: &Token) -> (r: Result<TypeExpr, TypeError>)
    ensures
        match element_type_of(iterable_type@) {
            Some(t) => r matches Ok(x) && x@ == t,
            None => r matches Err(TypeError::InvalidForInTarget { line, column, target_type }) && line
                == first_token.line && column == first_token.column && target_type@ == iterable_type@,
        },
{
    let found: Option<TypeExpr> = match &iterable_type {
        TypeExpr::Named { identifier, type_arguments, .. } => {
            proof {
                lemma_types_view_index(type_arguments@);
            }
            let name = &identifier.lexeme;
            if (same_text(name, "Range") || same_text(name, "InclusiveRange") || same_text(name, "Array"))
                && type_arguments.len() == 1 {
                Some(copy_type(&type_arguments[0]))
            } else if same_text(name, "Map") && type_arguments.len() == 2 {
                let mut element_types: Vec<TypeExpr> = Vec::new();
                element_types.push(copy_type(&type_arguments[0]));
                element_types.push(copy_type(&type_arguments[1]));
                proof {
                    lemma_types_view_index(element_types@);
                    assert(types_view(element_types@) =~= seq![
                        types_view(type_arguments@)[0],
                        types_view(type_arguments@)[1],
                    ]);
                }
                Some(TypeExpr::Tuple { element_types })
            } else {
                None
            }
        },
        _ => None,
    };
    match found {
        Some(t) => Ok(t),
        None => Err(
            TypeError::InvalidForInTarget {
                line: first_token.line,
                column: first_token.column,
                target_type: iterable_type,
            },
        ),
    }
}

/// The name a binding is reported by when it has neither a type nor a value.
pub open spec fn binding_name(b: VariableBinding) -> Seq<char> {
    match b {
        VariableBinding::Identifier(token) => token.lexeme@,
        VariableBinding::Tuple { .. } => "(tuple)"@,
    }
}

/// The type of a declared variable: its annotation unified with its
/// initializer's type, or whichever of the two there is; with neither the
/// declaration is an error at the binding's first token.
pub fn variable_type(
    unifier: &mut Unifier,
    annotation: Option<TypeExpr>,
    initializer: Option<TypeExpr>,
    binding: &VariableBinding,
) -> (r: Result<TypeExpr, TypeError>)
    requires
        old(unifier).wf(),
        annotation matches Some(a) ==> vars_below(a@, old(unifier).next_id()),
        initializer matches Some(i) ==> vars_below(i@, old(unifier).next_id()),
    ensures
        final(unifier).wf(),
        final(unifier).next_id() == old(unifier).next_id(),
        extends(old(unifier).subst(), final(unifier).subst()),
        match (annotation, initializer) {
            (Some(a), Some(i)) => crate::unifier::ground(i@) && shape(i@) == shape(a@) ==> r is Ok,
            _ => true,
        },
        match (annotation, initializer) {
            (Some(a), Some(i)) => match r {
                Ok(t) => shape(final(unifier).resolved(i@)) == shape(final(unifier).resolved(a@)) && shape(
                    final(unifier).resolved(t@),
                ) == shape(final(unifier).resolved(i@)),
                Err(e) => unify_error_at(e, first_token_of(*binding)),
            },
            (Some(a), None) => r matches Ok(t) && t@ == a@,
            (None, Some(i)) => r matches Ok(t) && t@ == i@,
            (None, None) => r matches Err(TypeError::MissingTypeAnnotationAndInitializer { line, column, identifier })
                && line == first_token_of(*binding).line && column == first_token_of(*binding).column
                && identifier@ == binding_name(*binding),
        },
{
    let first_token = binding.first_token();
    match (annotation, initializer) {
        (Some(a), Some(i)) => unifier.unify_at(&i, &a, first_token),
        (Some(a), None) => Ok(a),
        (None, Some(i)) => Ok(i),
        (None, None) => {
            let identifier = match binding {
                VariableBinding::Identifier(token) => token.lexeme.clone(),
                VariableBinding::Tuple { .. } => "(tuple)".to_owned(),
            };
            Err(
                TypeError::MissingTypeAnnotationAndInitializer {
                    line: first_token.line,
                    column: first_token.column,
                    identifier,
                },
            )
        },
    }
}

/// The type of an `if` expression: its branches' types unified; without an
/// `else` branch it is an error at the `if`.
pub fn if_expression_type(unifier: &mut Unifier, if_token: &Token, then_type: TypeExpr, else_type: Option<TypeExpr>) -> (r:
    Result<TypeExpr, TypeError>)
    requires
        old(unifier).wf(),
        vars_below(then_type@, old(unifier).next_id()),
        else_type matches Some(e) ==> vars_below(e@, old(unifier).next_id()),
    ensures
        final(unifier).wf(),
        final(unifier).next_id() == old(unifier).next_id(),
        extends(old(unifier).subst(), final(unifier).subst()),
        match else_type {
            Some(e) => match r {
                Ok(t) => shape(final(unifier).resolved(then_type@)) == shape(final(unifier).resolved(e@)) && shape(
                    final(unifier).resolved(t@),
                ) == shape(final(unifier).resolved(then_type@)),
                Err(err) => unify_error_at(err, *if_token),
            },
            None => r == Err::<TypeExpr, TypeError>(
                TypeError::MissingElseBranch { line: if_token.line, column: if_token.column },
            ),
        },
{
    match else_type {
        Some(e) => unifier.unify_at(&then_type, &e, if_token),
        None => Err(TypeError::MissingElseBranch { line: if_token.line, column: if_token.column }),
    }
}

/// The type of a past state of a variable (`x@=n`, `x@-n`): the variable's
/// type, when the state is picked by an `Int`.
pub fn time_travel_type(target_type: TypeExpr, index_type: TypeExpr, at_token: &Token) -> (r: Result<TypeExpr, TypeError>)
    ensures
        is_named(index_type@, "Int"@) ==> (r matches Ok(t) && t@ == target_type@),
        !is_named(index_type@, "Int"@) ==> (r matches Err(TypeError::InvalidIndexType { line, column, target_type: t, index_type: i }) && line
            == at_token.line && column == at_token.column && t@ == target_type@ && i@ == index_type@),
{
    if named_as(&index_type, "Int") {
        Ok(target_type)
    } else {
        Err(TypeError::InvalidIndexType { line: at_token.line, column: at_token.column, target_type, index_type })
    }
}

} // verus!

verus! {

/// The value of a numeral of decimal digits.
pub open spec fn digits_value(s: Seq<char>) -> nat
    decreases s.len(),
{
    if s.len() == 0 {
        0
    } else {
        digits_value(s.drop_last()) * 10 + ((s.last() as u32) - 48) as nat
    }
}

/// Whether every character of `s` is a decimal digit.
pub open spec fn all_digits(s: Seq<char>) -> bool {
    forall|i: int| 0 <= i < s.len() ==> '0' <= #[trigger] s[i] && s[i] <= '9'
}

/// What `usize::from_str` makes of `s`: an optional `+` followed by at
/// least one digit, whose value fits in a `usize`.
pub open spec fn parsed_usize(s: Seq<char>) -> Option<nat> {
    let d = if s.len() > 0 && s[0] == '+' {
        s.skip(1)
    } else {
        s
    };
    if d.len() > 0 && all_digits(d) && digits_value(d) <= usize::MAX {
        Some(digits_value(d))
    } else {
        None
    }
}

proof fn lemma_digits_value_grows(s: Seq<char>, c: char)
    requires
        '0' <= c <= '9',
    ensures
        digits_value(s.push(c)) >= digits_value(s),
        digits_value(s.push(c)) == digits_value(s) * 10 + ((c as u32) - 48) as nat,
{
    assert(s.push(c).drop_last() =~= s);
}

proof fn lemma_digits_value_prefix(s: Seq<char>, i: int)
    requires
        0 <= i <= s.len(),
        all_digits(s),
    ensures
        digits_value(s.take(i)) <= digits_value(s),
    decreases s.len() - i,
{
    if i < s.len() {
        lemma_digits_value_prefix(s, i + 1);
        assert(s.take(i + 1) =~= s.take(i).push(s[i]));
        lemma_digits_value_grows(s.take(i), s[i]);
    } else {
        assert(s.take(i) =~= s);
    }
}

/// The number a token's text denotes, as `usize::from_str` reads it.
pub fn parse_usize(s: &String) -> (r: Option<usize>)
    ensures
        match parsed_usize(s@) {
            Some(n) => r == Some(n as usize),
            None => r is None,
        },
{
    let cs = chars_of(s.as_str());
    let mut start: usize = 0;
    if cs.len() > 0 && cs[0] == '+' {
        start = 1;
    }
    let ghost d = cs@.skip(start as int);
    proof {
        if start == 0 {
            assert(d =~= s@);
        }
    }
    if start >= cs.len() {
        proof {
            assert(d.len() == 0);
        }
        return None;
    }
    let mut value: usize = 0;
    let mut i: usize = start;
    proof {
        assert(cs@.subrange(start as int, start as int) =~= Seq::<char>::empty());
    }
    while i < cs.len()
        invariant
            start <= i <= cs@.len(),
            start < cs@.len(),
            cs@ == s@,
            d == (if s@.len() > 0 && s@[0] == '+' {
                s@.skip(1)
            } else {
                s@
            }),
            d == cs@.skip(start as int),
            all_digits(cs@.subrange(start as int, i as int)),
            value as nat == digits_value(cs@.subrange(start as int, i as int)),
        decreases cs@.len() - i,
    {
        let c = cs[i];
        let ghost prefix = cs@.subrange(start as int, i as int);
        let ghost longer = cs@.subrange(start as int, i + 1);
        proof {
            assert(longer =~= prefix.push(c));
            assert(d.take(i + 1 - start) =~= longer);
            assert(d[i - start] == c);
        }
        if c < '0' || c > '9' {
            proof {
                assert(!all_digits(d));
            }
            return None;
        }
        let digit = (c as u32 - 48) as usize;
        proof {
            lemma_digits_value_grows(prefix, c);
            assert(all_digits(longer));
            if all_digits(d) {
                lemma_digits_value_prefix(d, i + 1 - start);
            }
        }
        match value.checked_mul(10) {
            None => {
                proof {
                    assert(digits_value(longer) > usize::MAX);
                }
                return None;
            },
            Some(tens) => match tens.checked_add(digit) {
                None => {
                    proof {
                        assert(digits_value(longer) > usize::MAX);
                    }
                    return None;
                },
                Some(next) => {
                    value = next;
                },
            },
        }
        i = i + 1;
    }
    proof {
        assert(cs@.subrange(start as int, i as int) =~= d);
    }
    Some(value)
}

/// The type of an element got by indexing a value of `target_type` with an
/// index of `index_type`.
///
/// An `Array` with one type argument takes an `Int` index and gives its
/// element type; a `Map` with two takes an index unified with its key type,
/// which must be able to key a map, and gives its value type.  Anything
/// else cannot be indexed.
pub fn index_access_type(unifier: &mut Unifier, target_type: TypeExpr, index_type: TypeExpr, left_bracket: &Token) -> (r:
    Result<TypeExpr, TypeError>)
    requires
        old(unifier).wf(),
        vars_below(target_type@, old(unifier).next_id()),
        vars_below(index_type@, old(unifier).next_id()),
    ensures
        final(unifier).wf(),
        final(unifier).next_id() == old(unifier).next_id(),
        extends(old(unifier).subst(), final(unifier).subst()),
        is_named(target_type@, "Array"@) ==> match target_type@ {
            TypeView::Named { type_arguments, .. } => if type_arguments.len() != 1 {
                r matches Err(TypeError::InvalidIndexTarget { line, column, target_type: t }) && line
                    == left_bracket.line && column == left_bracket.column && t@ == target_type@
            } else if is_named(index_type@, "Int"@) {
                r matches Ok(x) && x@ == type_arguments[0]
            } else {
                r matches Err(TypeError::InvalidIndexType { line, column, target_type: t, index_type: i }) && line
                    == left_bracket.line && column == left_bracket.column && t@ == target_type@ && i@ == index_type@
            },
            _ => false,
        },
        is_named(target_type@, "Map"@) ==> match target_type@ {
            TypeView::Named { type_arguments, .. } => if type_arguments.len() != 2 {
                r matches Err(TypeError::InvalidIndexTarget { line, column, target_type: t }) && line
                    == left_bracket.line && column == left_bracket.column && t@ == target_type@
            } else if !valid_map_key(old(unifier).resolved(type_arguments[0])) {
                r matches Err(TypeError::InvalidMapKeyType { line, column, key_type }) && line == left_bracket.line
                    && column == left_bracket.column && key_type@ == old(unifier).resolved(type_arguments[0])
            } else {
                match r {
                    Ok(x) => x@ == type_arguments[1] && shape(final(unifier).resolved(index_type@)) == shape(
                        final(unifier).resolved(type_arguments[0]),
                    ),
                    Err(e) => unify_error_at(e, *left_bracket),
                }
            },
            _ => false,
        },
        !is_named(target_type@, "Array"@) && !is_named(target_type@, "Map"@) ==> (r matches Err(
            TypeError::InvalidIndexTarget { line, column, target_type: t },
        ) && line == left_bracket.line && column == left_bracket.column && t@ == target_type@),
{
    proof {
        reveal_strlit("Array");
        reveal_strlit("Map");
    }
    match &target_type {
        TypeExpr::Named { identifier, type_arguments, .. } => {
            proof {
                lemma_types_view_index(type_arguments@);
            }
            if same_text(&identifier.lexeme, "Array") {
                proof {
                    reveal_strlit("Array");
                    reveal_strlit("Map");
                    assert("Array"@.len() != "Map"@.len());
                    assert(!is_named(target_type@, "Map"@));
                }
                if type_arguments.len() != 1 {
                    return Err(
                        TypeError::InvalidIndexTarget {
                            line: left_bracket.line,
                            column: left_bracket.column,
                            target_type: copy_type(&target_type),
                        },
                    );
                }
                if named_as(&index_type, "Int") {
                    return Ok(copy_type(&type_arguments[0]));
                }
                return Err(
                    TypeError::InvalidIndexType {
                        line: left_bracket.line,
                        column: left_bracket.column,
                        target_type: copy_type(&target_type),
                        index_type,
                    },
                );
            }
            if same_text(&identifier.lexeme, "Map") {
                if type_arguments.len() != 2 {
                    return Err(
                        TypeError::InvalidIndexTarget {
                            line: left_bracket.line,
                            column: left_bracket.column,
                            target_type: copy_type(&target_type),
                        },
                    );
                }
                let key_type = copy_type(&type_arguments[0]);
                let value_type = copy_type(&type_arguments[1]);
                proof {
                    assert forall|v: usize| var_in_seq(v, types_view(type_arguments@)) implies v < unifier.next_id() by {
                        assert(var_in(v, target_type@));
                    }
                    lemma_vars_below_elem(types_view(type_arguments@), 0, unifier.next_id());
                }
                validate_map_key_type(unifier, &key_type, left_bracket)?;
                unifier.unify_at(&index_type, &key_type, left_bracket)?;
                return Ok(value_type);
            }
        },
        _ => {},
    }
    Err(TypeError::InvalidIndexTarget { line: left_bracket.line, column: left_bracket.column, target_type })
}

/// What reading `field` of a value whose resolved type is `resolved`
/// gives: a tuple element by its number, a struct field by its name.
pub open spec fn field_access_outcome(resolved: TypeView, field: Token, r: Result<TypeExpr, TypeError>) -> bool {
    if field.token_type == TokenType::Number {
        match resolved {
            TypeView::Tuple { element_types } => match parsed_usize(field.lexeme@) {
                Some(n) => if n < element_types.len() {
                    r matches Ok(x) && x@ == element_types[n as int]
                } else {
                    r matches Err(TypeError::TupleFieldOutOfRange { line, column, tuple_type, index })
                        && line == field.line && column == field.column && tuple_type@ == resolved && index == n
                },
                None => r matches Err(TypeError::TupleFieldOutOfRange { line, column, tuple_type, index })
                    && line == field.line && column == field.column && tuple_type@ == resolved && index
                    == usize::MAX,
            },
            _ => r matches Err(TypeError::InvalidFieldAccessTarget { line, column, target_type: t }) && line
                == field.line && column == field.column && t@ == resolved,
        }
    } else {
        match resolved {
            TypeView::Named { struct_fields: Some(fields), .. } => match first_field(fields, field.lexeme@) {
                Some(t) => r matches Ok(x) && x@ == t,
                None => r matches Err(TypeError::UnknownField { line, column, target_type: t, field_name })
                    && line == field.line && column == field.column && t@ == resolved && field_name@
                    == field.lexeme@,
            },
            _ => r matches Err(TypeError::InvalidFieldAccessTarget { line, column, target_type: t }) && line
                == field.line && column == field.column && t@ == resolved,
        }
    }
}

/// The type of a field of a value of `target_type`, once the substitution
/// is applied: a numeric field picks an element of a tuple by position; a
/// named field is looked up among the fields of a struct.
pub fn field_access_type(unifier: &Unifier, target_type: &TypeExpr, field: &Token) -> (r: Result<TypeExpr, TypeError>)
    requires
        unifier.wf(),
    ensures
        field_access_outcome(unifier.resolved(target_type@), *field, r),
{
    let resolved = unifier.apply_substitutions(target_type);
    if field.token_type == TokenType::Number {
        let found: Option<Result<TypeExpr, usize>> = match &resolved {
            TypeExpr::Tuple { element_types } => {
                proof {
                    lemma_types_view_index(element_types@);
                }
                match parse_usize(&field.lexeme) {
                    Some(index) => if index < element_types.len() {
                        Some(Ok(copy_type(&element_types[index])))
                    } else {
                        Some(Err(index))
                    },
                    None => Some(Err(usize::MAX)),
                }
            },
            _ => None,
        };
        return match found {
            Some(Ok(t)) => Ok(t),
            Some(Err(index)) => Err(
                TypeError::TupleFieldOutOfRange { line: field.line, column: field.column, tuple_type: resolved, index },
            ),
            None => Err(
                TypeError::InvalidFieldAccessTarget { line: field.line, column: field.column, target_type: resolved },
            ),
        };
    }
    match &resolved {
        TypeExpr::Named { struct_fields: Some(fields), .. } => {
            let ghost fv = crate::types::fields_view(fields@);
            proof {
                crate::types::lemma_fields_view_index(fields@);
                assert(fv.skip(0) =~= fv);
            }
            let mut k: usize = 0;
            while k < fields.len()
                invariant
                    k <= fields@.len(),
                    fv == crate::types::fields_view(fields@),
                    fv.len() == fields@.len(),
                    field.token_type != TokenType::Number,
                    resolved@ == unifier.resolved(target_type@),
                    resolved@ matches TypeView::Named { struct_fields: Some(f), .. } && f == fv,
                    forall|j: int| 0 <= j < fields@.len() ==> #[trigger] fv[j] == (fields@[j].0@, fields@[j].1@),
                    first_field(fv, field.lexeme@) == first_field(fv.skip(k as int), field.lexeme@),
                decreases fields@.len() - k,
            {
                let ghost rest = fv.skip(k as int);
                proof {
                    assert(rest[0] == fv[k as int]);
                    assert(rest.skip(1) =~= fv.skip(k + 1));
                }
                if fields[k].0.lexeme == field.lexeme {
                    proof {
                        assert(first_field(rest, field.lexeme@) == Some(fields@[k as int].1@));
                    }
                    return Ok(copy_type(&fields[k].1));
                }
                k = k + 1;
            }
            Err(
                TypeError::UnknownField {
                    line: field.line,
                    column: field.column,
                    target_type: copy_type(&resolved),
                    field_name: field.lexeme.clone(),
                },
            )
        },
        _ => Err(
            TypeError::InvalidFieldAccessTarget {
                line: field.line,
                column: field.column,
                target_type: copy_type(&resolved),
            },
        ),
    }
}

/// The type of the first of `fields` named `name`.
pub open spec fn first_field(fields: Seq<(crate::token::TokenView, TypeView)>, name: Seq<char>) -> Option<TypeView>
    decreases fields.len(),
{
    if fields.len() == 0 {
        None
    } else if fields[0].0.lexeme == name {
        Some(fields[0].1)
    } else {
        first_field(fields.skip(1), name)
    }
}

} // verus!
