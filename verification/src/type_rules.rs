use vstd::prelude::*;
use crate::c_names::same_text;
use crate::error::TypeError;
use crate::token::{Token, TokenType};
use crate::type_ops::{create_primitive_type, named_type};
use crate::types::{copy_type, lemma_types_view_index, types_view, TypeExpr, TypeView};
use crate::unifier::{extends, ground, heads_clash, lemma_vars_below_elem, resolve, shape, var_in, var_in_seq, vars_below, Unifier};

verus! {

/// Whether `t` is a named type called `name` (with any type arguments).
pub open spec fn is_named(t: TypeView, name: Seq<char>) -> bool {
    t matches TypeView::Named { identifier, .. } && identifier.lexeme == name
}

/// Whether `t` is a named type called `name` with exactly one type argument.
pub open spec fn is_named_unary(t: TypeView, name: Seq<char>) -> bool {
    t matches TypeView::Named { identifier, type_arguments, .. } && identifier.lexeme == name && type_arguments.len()
        == 1
}

/// Whether `t` is `Int` or `Double`.
pub open spec fn is_number(t: TypeView) -> bool {
    is_named(t, "Int"@) || is_named(t, "Double"@)
}

/// The first type argument of a named type.
pub open spec fn first_argument(t: TypeView) -> TypeView {
    match t {
        TypeView::Named { type_arguments, .. } => type_arguments[0],
        _ => t,
    }
}

/// An error that unification reports at `token`.
pub open spec fn unify_error_at(e: TypeError, token: Token) -> bool {
    match e {
        TypeError::MismatchedTypes { line, column, .. } => line == token.line && column == token.column,
        TypeError::InfiniteType { line, column, .. } => line == token.line && column == token.column,
        _ => false,
    }
}

/// The error for operand types an operator does not accept.
pub open spec fn invalid_operands(e: TypeError, operator: Token, left: TypeView, right: TypeView) -> bool {
    e matches TypeError::InvalidBinaryOperands { line, column, operator: o, left_type, right_type } && line
        == operator.line && column == operator.column && o@ == operator.lexeme@ && left_type@ == left && right_type@
        == right
}

/// The first type argument of a named type is below any bound the type is
/// below.
proof fn lemma_first_argument_below(t: TypeView, n: nat)
    requires
        vars_below(t, n),
        t matches TypeView::Named { type_arguments, .. } && type_arguments.len() >= 1,
    ensures
        vars_below(first_argument(t), n),
{
    if let TypeView::Named { type_arguments, .. } = t {
        assert forall|v: usize| var_in_seq(v, type_arguments) implies v < n by {
            assert(var_in(v, t));
        }
        lemma_vars_below_elem(type_arguments, 0, n);
    }
}

fn named_as(t: &TypeExpr, name: &str) -> (b: bool)
    ensures
        b == is_named(t@, name@),
{
    match t {
        TypeExpr::Named { identifier, .. } => same_text(&identifier.lexeme, name),
        _ => false,
    }
}

fn named_unary_as(t: &TypeExpr, name: &str) -> (b: bool)
    ensures
        b == is_named_unary(t@, name@),
{
    match t {
        TypeExpr::Named { identifier, type_arguments, .. } => {
            proof {
                lemma_types_view_index(type_arguments@);
            }
            same_text(&identifier.lexeme, name) && type_arguments.len() == 1
        },
        _ => false,
    }
}

fn argument_of(t: &TypeExpr) -> (r: TypeExpr)
    requires
        t@ matches TypeView::Named { type_arguments, .. } && type_arguments.len() >= 1,
    ensures
        r@ == first_argument(t@),
{
    match t {
        TypeExpr::Named { type_arguments, .. } => {
            proof {
                lemma_types_view_index(type_arguments@);
            }
            copy_type(&type_arguments[0])
        },
        _ => copy_type(t),
    }
}

/// The type of a unary operation on an operand of type `right_type`: `-`
/// takes `Int` or `Double` and `!` takes `Bool`, each giving the operand's
/// type; anything else is an invalid operand.
pub fn check_unary_operation(operator: &Token, right_type: TypeExpr) -> (r: Result<TypeExpr, TypeError>)
    ensures
        (operator.token_type == TokenType::Minus && is_number(right_type@)) || (operator.token_type
            == TokenType::Exclamation && is_named(right_type@, "Bool"@)) ==> r == Ok::<TypeExpr, TypeError>(right_type),
        !((operator.token_type == TokenType::Minus && is_number(right_type@)) || (operator.token_type
            == TokenType::Exclamation && is_named(right_type@, "Bool"@))) ==> (r matches Err(
            TypeError::InvalidUnaryOperand { line, column, operator: o, operand_type },
        ) && line == operator.line && column == operator.column && o@ == operator.lexeme@ && operand_type@
            == right_type@),
{
    let accepted = match operator.token_type {
        TokenType::Minus => named_as(&right_type, "Int") || named_as(&right_type, "Double"),
        TokenType::Exclamation => named_as(&right_type, "Bool"),
        _ => false,
    };
    if accepted {
        Ok(right_type)
    } else {
        Err(
            TypeError::InvalidUnaryOperand {
                line: operator.line,
                column: operator.column,
                operator: operator.lexeme.clone(),
                operand_type: right_type,
            },
        )
    }
}

/// The type of a logical operation (`&&`, `||`): `Bool`, written at the
/// operator, when both operands are `Bool`; otherwise invalid operands.
pub fn check_logical_operation(operator: &Token, left_type: TypeExpr, right_type: TypeExpr) -> (r: Result<
    TypeExpr,
    TypeError,
>)
    ensures
        is_named(left_type@, "Bool"@) && is_named(right_type@, "Bool"@) ==> (r matches Ok(t) && t@ == named_type(
            "Bool"@,
            operator.line,
            operator.column,
            Seq::empty(),
        )),
        !(is_named(left_type@, "Bool"@) && is_named(right_type@, "Bool"@)) ==> (r matches Err(e) && invalid_operands(
            e,
            *operator,
            left_type@,
            right_type@,
        )),
{
    if named_as(&left_type, "Bool") && named_as(&right_type, "Bool") {
        Ok(create_primitive_type("Bool", operator.line, operator.column))
    } else {
        Err(
            TypeError::InvalidBinaryOperands {
                line: operator.line,
                column: operator.column,
                operator: operator.lexeme.clone(),
                left_type,
                right_type,
            },
        )
    }
}

/// Whether an operator is arithmetic (`+ - * / % ^`).
pub open spec fn arithmetic_operator(t: TokenType) -> bool {
    t == TokenType::Plus || t == TokenType::Minus || t == TokenType::Star || t == TokenType::Slash || t
        == TokenType::Percent || t == TokenType::Caret
}

/// Whether an operator compares (`== != < <= > >=`).
pub open spec fn comparison_operator(t: TokenType) -> bool {
    t == TokenType::EqualEqual || t == TokenType::ExclamationEqual || t == TokenType::Less || t == TokenType::LessEqual
        || t == TokenType::Greater || t == TokenType::GreaterEqual
}

/// The type an arithmetic operation takes from its operand types without
/// unifying them, if it is one of those cases: `String + String` and
/// `String * Int` (either way round) give the `String` operand's type,
/// `Array * Int` (either way round) the array's type.
pub open spec fn direct_arithmetic_type(op: TokenType, left: TypeView, right: TypeView) -> Option<TypeView> {
    if op == TokenType::Plus && is_named(left, "String"@) && is_named(right, "String"@) {
        Some(left)
    } else if op == TokenType::Star && is_named(left, "String"@) && is_named(right, "Int"@) {
        Some(left)
    } else if op == TokenType::Star && is_named(left, "Int"@) && is_named(right, "String"@) {
        Some(right)
    } else if op == TokenType::Star && is_named_unary(left, "Array"@) && is_named(right, "Int"@) {
        Some(left)
    } else if op == TokenType::Star && is_named(left, "Int"@) && is_named_unary(right, "Array"@) {
        Some(right)
    } else {
        None
    }
}

/// What a binary operation with operator `op` gives on operands of types
/// `lt` and `rt`, with the unifier `u0` before it and `u1` after.
pub open spec fn binary_outcome(u0: Unifier, u1: Unifier, lt: TypeView, op: Token, rt: TypeView, r: Result<TypeExpr, TypeError>) -> bool {
    &&& (arithmetic_operator(op.token_type) ==> match direct_arithmetic_type(
        op.token_type,
        lt,
        rt,
    ) {
        Some(t) => r matches Ok(x) && x@ == t,
        None => if op.token_type == TokenType::Plus && is_named_unary(lt, "Array"@)
            && is_named_unary(rt, "Array"@) {
            match r {
                Ok(x) => x@ == lt && shape(u1.resolved(first_argument(lt))) == shape(
                    u1.resolved(first_argument(rt)),
                ),
                Err(e) => unify_error_at(e, op),
            }
        } else if u0.resolved(lt) matches TypeView::Named { .. } && u0.resolved(
            rt,
        ) matches TypeView::Named { .. } {
            let l = u0.resolved(lt);
            let rv = u0.resolved(rt);
            if is_number(l) && is_number(rv) {
                if is_named(l, "Int"@) == is_named(rv, "Int"@) {
                    r matches Ok(x) && x@ == lt
                } else {
                    r matches Ok(x) && x@ == named_type("Double"@, op.line, op.column, Seq::empty())
                }
            } else {
                r matches Err(e) && invalid_operands(e, op, lt, rt)
            }
        } else {
            match r {
                Ok(x) => is_number(x@) && shape(u1.resolved(lt)) == shape(
                    u1.resolved(rt),
                ),
                Err(e) => unify_error_at(e, op) || invalid_operands(e, op, lt, rt),
            }
        },
    })
    &&& (comparison_operator(op.token_type) ==> match r {
        Ok(x) => x@ == named_type("Bool"@, op.line, op.column, Seq::empty()) && shape(
            u1.resolved(lt),
        ) == shape(u1.resolved(rt)),
        Err(e) => unify_error_at(e, op),
    })
    &&& (comparison_operator(op.token_type) && heads_clash(
        resolve(u0.subst(), u0.ranking(), lt),
        resolve(u0.subst(), u0.ranking(), rt),
    ) ==> r matches Err(TypeError::MismatchedTypes { .. }))
    &&& (op.token_type == TokenType::QuestionQuestion ==> if is_named_unary(
        u0.resolved(lt),
        "Optional"@,
    ) {
        match r {
            Ok(x) => x@ == first_argument(u0.resolved(lt)) && shape(
                u1.resolved(rt),
            ) == shape(u1.resolved(x@)),
            Err(e) => unify_error_at(e, op),
        }
    } else {
        r matches Err(e) && invalid_operands(e, op, lt, rt)
    })
    &&& (!arithmetic_operator(op.token_type) && !comparison_operator(op.token_type) && op.token_type
        != TokenType::QuestionQuestion ==> (r matches Err(e) && invalid_operands(
        e,
        op,
        lt,
        rt,
    )))
    &&& (comparison_operator(op.token_type) && ground(lt) && shape(lt) == shape(rt) ==> (r matches Ok(x) && x@
        == named_type("Bool"@, op.line, op.column, Seq::empty())))
    &&& (comparison_operator(op.token_type) && !(lt is TypeVar) && !(rt is TypeVar) && heads_clash(lt, rt) ==> (r matches Err(
        TypeError::MismatchedTypes { line, column, expected, found },
    ) && line == op.line && column == op.column && expected@ == lt && found@ == rt))
    &&& (comparison_operator(op.token_type) && heads_clash(resolve(u0.subst(), u0.ranking(), lt), resolve(u0.subst(), u0.ranking(), rt))
        ==> (r matches Err(TypeError::MismatchedTypes { line, column, expected, found }) && line == op.line && column
        == op.column && expected@ == resolve(u0.subst(), u0.ranking(), lt) && found@ == resolve(u0.subst(), u0.ranking(), rt)))
}

/// The type of a binary operation on operands of types `left_type` and
/// `right_type`, unifying them where the rules call for it.
///
/// Arithmetic: the direct cases above; `Array + Array` unifies the element
/// types and gives the left type; two named operands that are `Int` or
/// `Double` once resolved give the left type when their names agree and
/// `Double` otherwise; operands not both named are unified and give the
/// unified type when it is `Int` or `Double`.  Comparisons unify the
/// operands and give `Bool`.  `??` takes an `Optional` on the left,
/// unifies the right operand with what it holds and gives that.  Anything
/// else is invalid operands.
pub fn check_binary_operation(unifier: &mut Unifier, left_type: TypeExpr, operator: &Token, right_type: TypeExpr) -> (r:
    Result<TypeExpr, TypeError>)
    requires
        old(unifier).wf(),
        vars_below(left_type@, old(unifier).next_id()),
        vars_below(right_type@, old(unifier).next_id()),
    ensures
        final(unifier).wf(),
        final(unifier).next_id() == old(unifier).next_id(),
        extends(old(unifier).subst(), final(unifier).subst()),
        binary_outcome(*old(unifier), *final(unifier), left_type@, *operator, right_type@, r),
{
    let op = operator.token_type;
    let invalid = |left_type: TypeExpr, right_type: TypeExpr| -> (e: TypeError)
        ensures
            invalid_operands(e, *operator, left_type@, right_type@),
        {
            TypeError::InvalidBinaryOperands {
                line: operator.line,
                column: operator.column,
                operator: operator.lexeme.clone(),
                left_type,
                right_type,
            }
        };
    if op == TokenType::Plus || op == TokenType::Minus || op == TokenType::Star || op == TokenType::Slash || op
        == TokenType::Percent || op == TokenType::Caret {
        if op == TokenType::Plus && named_as(&left_type, "String") && named_as(&right_type, "String") {
            return Ok(left_type);
        }
        if op == TokenType::Star {
            if named_as(&left_type, "String") && named_as(&right_type, "Int") {
                return Ok(left_type);
            }
            if named_as(&left_type, "Int") && named_as(&right_type, "String") {
                return Ok(right_type);
            }
            if named_unary_as(&left_type, "Array") && named_as(&right_type, "Int") {
                return Ok(left_type);
            }
            if named_as(&left_type, "Int") && named_unary_as(&right_type, "Array") {
                return Ok(right_type);
            }
        }
        if op == TokenType::Plus && named_unary_as(&left_type, "Array") && named_unary_as(&right_type, "Array") {
            let l = argument_of(&left_type);
            let rr = argument_of(&right_type);
            proof {
                lemma_first_argument_below(left_type@, unifier.next_id());
                lemma_first_argument_below(right_type@, unifier.next_id());
            }
            match unifier.unify_at(&l, &rr, operator) {
                Ok(_) => {
                    return Ok(left_type);
                },
                Err(e) => {
                    return Err(e);
                },
            }
        }
        let unified_left = unifier.apply_substitutions(&left_type);
        let unified_right = unifier.apply_substitutions(&right_type);
        let both_named = match (&unified_left, &unified_right) {
            (TypeExpr::Named { .. }, TypeExpr::Named { .. }) => true,
            _ => false,
        };
        if both_named {
            let left_int = named_as(&unified_left, "Int");
            let right_int = named_as(&unified_right, "Int");
            let left_number = left_int || named_as(&unified_left, "Double");
            let right_number = right_int || named_as(&unified_right, "Double");
            if left_number && right_number {
                if left_int == right_int {
                    return Ok(left_type);
                } else {
                    return Ok(create_primitive_type("Double", operator.line, operator.column));
                }
            }
            return Err(invalid(left_type, right_type));
        } else {
            match unifier.unify_at(&left_type, &right_type, operator) {
                Ok(unified) => {
                    if named_as(&unified, "Int") || named_as(&unified, "Double") {
                        return Ok(unified);
                    }
                    return Err(invalid(left_type, right_type));
                },
                Err(e) => {
                    return Err(e);
                },
            }
        }
    } else if op == TokenType::EqualEqual || op == TokenType::ExclamationEqual || op == TokenType::Less || op
        == TokenType::LessEqual || op == TokenType::Greater || op == TokenType::GreaterEqual {
        match unifier.unify_at(&left_type, &right_type, operator) {
            Ok(_) => Ok(create_primitive_type("Bool", operator.line, operator.column)),
            Err(e) => Err(e),
        }
    } else if op == TokenType::QuestionQuestion {
        let unified_left = unifier.apply_substitutions(&left_type);
        if named_unary_as(&unified_left, "Optional") {
            let inner = argument_of(&unified_left);
            proof {
                unifier.lemma_resolved_below(left_type@);
                lemma_first_argument_below(unified_left@, unifier.next_id());
            }
            match unifier.unify_at(&right_type, &inner, operator) {
                Ok(_) => Ok(inner),
                Err(e) => Err(e),
            }
        } else {
            Err(invalid(left_type, right_type))
        }
    } else {
        Err(invalid(left_type, right_type))
    }
}

} // verus!
