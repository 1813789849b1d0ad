use std::collections::HashMap;

use delo::error::TypeError;
use delo::token::{Token, TokenType};
use delo::type_ops::{
    builtin_call_type, check_builtin_argument_count, create_array_type, create_map_type, create_primitive_type,
    create_range_type, match_type_params, substitute_type_parameters, substitute_typevars, validate_map_key_type,
    BuiltinCallType,
};
use delo::types::TypeExpr;
use delo::unifier::Unifier;

fn ident(name: &str) -> Token {
    Token { token_type: TokenType::Identifier, lexeme: name.to_string(), literal: None, line: 1, column: 1 }
}

fn named(name: &str, args: Vec<TypeExpr>) -> TypeExpr {
    TypeExpr::Named { identifier: ident(name), type_parameters: None, type_arguments: args, enum_variants: None, struct_fields: None }
}

#[test]
fn type_parameters_are_replaced_by_arguments() {
    let t = TypeExpr::Function {
        parameter_types: vec![named("T", vec![]), named("Array", vec![named("U", vec![])])],
        return_type: Box::new(named("T", vec![])),
    };
    let r = substitute_type_parameters(&t, &vec![ident("T"), ident("U")], &vec![named("Int", vec![]), named("Bool", vec![])]);
    assert_eq!(r.to_string(), "(Int, Array<Bool>) -> Int");
}

#[test]
fn the_first_matching_parameter_wins() {
    let r = substitute_type_parameters(&named("T", vec![]), &vec![ident("T"), ident("T")], &vec![named("A", vec![]), named("B", vec![])]);
    assert_eq!(r.to_string(), "A");
}

#[test]
fn type_variables_are_substituted_once() {
    let mut subs = HashMap::new();
    subs.insert(0usize, named("Int", vec![]));
    subs.insert(1usize, TypeExpr::TypeVar { id: 0 });
    let t = TypeExpr::Tuple { element_types: vec![TypeExpr::TypeVar { id: 0 }, TypeExpr::TypeVar { id: 1 }, TypeExpr::TypeVar { id: 2 }] };
    assert_eq!(substitute_typevars(&t, &subs).to_string(), "(Int, ?0, ?2)");
}

#[test]
fn matching_binds_type_parameters_once() {
    let params = vec!["T".to_string()];
    let mut mapping: Vec<(String, TypeExpr)> = Vec::new();
    let p = TypeExpr::Function { parameter_types: vec![named("T", vec![]), named("T", vec![])], return_type: Box::new(named("T", vec![])) };
    let a = TypeExpr::Function {
        parameter_types: vec![named("Int", vec![]), named("String", vec![])],
        return_type: Box::new(named("Bool", vec![])),
    };
    match_type_params(&p, &a, &params, &mut mapping);
    assert_eq!(mapping.len(), 1);
    assert_eq!(mapping[0].0, "T");
    assert_eq!(mapping[0].1.to_string(), "Int");
}

#[test]
fn matching_goes_into_type_arguments() {
    let params = vec!["K".to_string(), "V".to_string()];
    let mut mapping: Vec<(String, TypeExpr)> = Vec::new();
    let p = named("Map", vec![named("K", vec![]), named("V", vec![])]);
    let a = named("Map", vec![named("String", vec![]), named("Array", vec![named("Int", vec![])])]);
    match_type_params(&p, &a, &params, &mut mapping);
    let shown: Vec<(String, String)> = mapping.iter().map(|(k, t)| (k.clone(), t.to_string())).collect();
    assert_eq!(shown, vec![("K".to_string(), "String".to_string()), ("V".to_string(), "Array<Int>".to_string())]);
}

#[test]
fn constructed_types() {
    assert_eq!(create_array_type(1, 2, named("Int", vec![])).to_string(), "Array<Int>");
    assert_eq!(create_map_type(1, 2, named("String", vec![]), named("Int", vec![])).to_string(), "Map<String, Int>");
    assert_eq!(create_range_type(1, 2, named("Int", vec![]), true).to_string(), "InclusiveRange<Int>");
    assert_eq!(create_range_type(1, 2, named("Int", vec![]), false).to_string(), "Range<Int>");
    match create_primitive_type("Bool", 3, 4) {
        TypeExpr::Named { identifier, .. } => assert_eq!((identifier.line, identifier.column), (3, 4)),
        _ => panic!("expected a named type"),
    }
}

#[test]
fn map_keys_must_be_primitive() {
    let mut u = Unifier::new();
    let at = ident("{");
    assert!(validate_map_key_type(&u, &named("String", vec![]), &at).is_ok());
    assert!(matches!(
        validate_map_key_type(&u, &named("Array", vec![named("Int", vec![])]), &at),
        Err(TypeError::InvalidMapKeyType { .. })
    ));
    let v = u.new_type_var();
    u.unify_at(&v, &named("Double", vec![]), &at).unwrap();
    assert!(validate_map_key_type(&u, &v, &at).is_ok());
}

#[test]
fn builtin_names() {
    assert_eq!(builtin_call_type("Array"), Some(BuiltinCallType::ArrayLiteral));
    assert_eq!(builtin_call_type("InclusiveRange"), Some(BuiltinCallType::RangeLiteral { is_inclusive: true }));
    assert_eq!(builtin_call_type("Range"), Some(BuiltinCallType::RangeLiteral { is_inclusive: false }));
    assert_eq!(builtin_call_type("map"), Some(BuiltinCallType::MapCall));
    assert_eq!(builtin_call_type("foldr"), Some(BuiltinCallType::Foldr));
    assert_eq!(builtin_call_type("length"), None);
}

#[test]
fn builtin_argument_counts() {
    let paren = ident("(");
    assert!(check_builtin_argument_count(BuiltinCallType::ArrayLiteral, 7, &paren).is_none());
    assert!(check_builtin_argument_count(BuiltinCallType::Print, 1, &paren).is_none());
    assert!(matches!(
        check_builtin_argument_count(BuiltinCallType::MapLiteral, 3, &paren),
        Some(TypeError::ArgumentCountMismatch { expected: 4, found: 3, .. })
    ));
    assert!(matches!(
        check_builtin_argument_count(BuiltinCallType::Foldl, 2, &paren),
        Some(TypeError::ArgumentCountMismatch { expected: 3, found: 2, .. })
    ));
}
