use delo::error::TypeError;
use delo::token::{Token, TokenType};
use delo::types::TypeExpr;
use delo::unifier::Unifier;

fn token(lexeme: &str, line: u32, column: u32) -> Token {
    Token { token_type: TokenType::Identifier, lexeme: lexeme.to_string(), literal: None, line, column }
}

fn named(name: &str, args: Vec<TypeExpr>) -> TypeExpr {
    TypeExpr::Named {
        identifier: token(name, 1, 1),
        type_parameters: None,
        type_arguments: args,
        enum_variants: None,
        struct_fields: None,
    }
}

fn function(params: Vec<TypeExpr>, ret: TypeExpr) -> TypeExpr {
    TypeExpr::Function { parameter_types: params, return_type: Box::new(ret) }
}

#[test]
fn fresh_type_variables_are_numbered_in_order() {
    let mut u = Unifier::new();
    assert_eq!(u.new_type_var().to_string(), "?0");
    assert_eq!(u.new_type_var().to_string(), "?1");
    assert_eq!(u.new_type_var().to_string(), "?2");
}

#[test]
fn unifying_equal_named_types_succeeds() {
    let mut u = Unifier::new();
    let at = token("+", 4, 7);
    let t = u.unify_at(&named("Int", vec![]), &named("Int", vec![]), &at).unwrap();
    assert_eq!(t.to_string(), "Int");
}

#[test]
fn mismatched_types_are_reported_at_the_token() {
    let mut u = Unifier::new();
    let at = token("+", 4, 7);
    let err = u.unify_at(&named("Int", vec![]), &named("String", vec![]), &at).unwrap_err();
    match err {
        TypeError::MismatchedTypes { line, column, expected, found } => {
            assert_eq!((line, column), (4, 7));
            assert_eq!(expected.to_string(), "Int");
            assert_eq!(found.to_string(), "String");
        }
        other => panic!("unexpected error {:?}", other),
    }
}

#[test]
fn a_type_variable_is_bound_by_unification() {
    let mut u = Unifier::new();
    let v = u.new_type_var();
    let at = token("=", 1, 1);
    let array_of_v = named("Array", vec![v.clone()]);
    let array_of_int = named("Array", vec![named("Int", vec![])]);
    u.unify_at(&array_of_v, &array_of_int, &at).unwrap();
    assert_eq!(u.apply_substitutions(&v).to_string(), "Int");
    assert_eq!(u.apply_substitutions(&array_of_v).to_string(), "Array<Int>");
}

#[test]
fn chains_of_variables_are_followed() {
    let mut u = Unifier::new();
    let a = u.new_type_var();
    let b = u.new_type_var();
    let at = token("=", 1, 1);
    u.unify_at(&a, &b, &at).unwrap();
    u.unify_at(&b, &named("Bool", vec![]), &at).unwrap();
    assert_eq!(u.apply_substitutions(&a).to_string(), "Bool");
}

#[test]
fn occurs_check_rejects_infinite_types() {
    let mut u = Unifier::new();
    let a = u.new_type_var();
    let at = token("=", 2, 3);
    let err = u.unify_at(&a, &named("Array", vec![a.clone()]), &at).unwrap_err();
    match err {
        TypeError::InfiniteType { line, column, type_var_id, type_expr } => {
            assert_eq!((line, column, type_var_id), (2, 3, 0));
            assert_eq!(type_expr.to_string(), "Array<?0>");
        }
        other => panic!("unexpected error {:?}", other),
    }
}

#[test]
fn function_types_unify_part_by_part() {
    let mut u = Unifier::new();
    let a = u.new_type_var();
    let r = u.new_type_var();
    let at = token("(", 1, 1);
    let f1 = function(vec![a.clone()], r.clone());
    let f2 = function(vec![named("Int", vec![])], named("Bool", vec![]));
    u.unify_at(&f1, &f2, &at).unwrap();
    assert_eq!(u.apply_substitutions(&f1).to_string(), "(Int) -> Bool");
}

#[test]
fn arity_mismatch_is_a_type_mismatch() {
    let mut u = Unifier::new();
    let at = token("(", 1, 1);
    let f1 = function(vec![named("Int", vec![])], named("Int", vec![]));
    let f2 = function(vec![], named("Int", vec![]));
    assert!(matches!(u.unify_at(&f1, &f2, &at), Err(TypeError::MismatchedTypes { .. })));
}

#[test]
fn tuples_unify_element_by_element() {
    let mut u = Unifier::new();
    let a = u.new_type_var();
    let at = token("(", 1, 1);
    let t1 = TypeExpr::Tuple { element_types: vec![a.clone(), named("String", vec![])] };
    let t2 = TypeExpr::Tuple { element_types: vec![named("Double", vec![]), named("String", vec![])] };
    u.unify_at(&t1, &t2, &at).unwrap();
    assert_eq!(u.apply_substitutions(&a).to_string(), "Double");
}

#[test]
fn applying_substitutions_twice_changes_nothing() {
    let mut u = Unifier::new();
    let a = u.new_type_var();
    let b = u.new_type_var();
    let at = token("=", 1, 1);
    u.unify_at(&a, &named("Array", vec![b.clone()]), &at).unwrap();
    u.unify_at(&b, &named("Int", vec![]), &at).unwrap();
    let once = u.apply_substitutions(&a);
    let twice = u.apply_substitutions(&once);
    assert_eq!(once.to_string(), "Array<Int>");
    assert_eq!(twice.to_string(), once.to_string());
}

#[test]
fn instantiation_renames_each_variable_consistently() {
    let mut u = Unifier::new();
    let a = u.new_type_var();
    let b = u.new_type_var();
    let generic = function(vec![a.clone(), b.clone()], a.clone());
    let fresh = u.instantiate_type(&generic);
    assert_eq!(fresh.to_string(), "(?2, ?3) -> ?2");
    let again = u.instantiate_type(&generic);
    assert_eq!(again.to_string(), "(?4, ?5) -> ?4");
}

#[test]
fn instantiating_a_type_without_variables_copies_it() {
    let mut u = Unifier::new();
    let t = named("Map", vec![named("String", vec![]), named("Int", vec![])]);
    let fresh = u.instantiate_type(&t);
    assert_eq!(fresh.to_string(), "Map<String, Int>");
    assert_eq!(u.new_type_var().to_string(), "?0");
}

#[test]
fn array_of_a_variable_unifies_with_array_of_int() {
    let mut u = Unifier::new();
    let v = u.new_type_var();
    let at = token("=", 1, 1);
    let left = named("Array", vec![v.clone()]);
    let right = named("Array", vec![named("Int", vec![])]);
    assert!(u.unify_at(&left, &right, &at).is_ok());
    assert_eq!(u.apply_substitutions(&v).to_string(), "Int");
}

#[test]
fn a_variable_unified_with_itself_stays_unbound() {
    let mut u = Unifier::new();
    let v = u.new_type_var();
    let at = token("=", 1, 1);
    assert_eq!(u.unify_at(&v, &v, &at).unwrap().to_string(), "?0");
    assert_eq!(u.apply_substitutions(&v).to_string(), "?0");
}
