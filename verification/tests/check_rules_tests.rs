use delo::ast::VariableBinding;
use delo::check_rules::{
    check_condition, check_literal, check_loop_control, field_access_type, for_in_element_type, if_expression_type,
    index_access_type, parse_usize, time_travel_type, variable_type,
};
use delo::error::TypeError;
use delo::token::{Literal, Token, TokenType};
use delo::types::TypeExpr;
use delo::unifier::Unifier;

fn tok(token_type: TokenType, lexeme: &str, literal: Option<Literal>) -> Token {
    Token { token_type, lexeme: lexeme.to_string(), literal, line: 3, column: 4 }
}

fn named(name: &str, args: Vec<TypeExpr>) -> TypeExpr {
    TypeExpr::Named {
        identifier: tok(TokenType::Identifier, name, None),
        type_parameters: None,
        type_arguments: args,
        enum_variants: None,
        struct_fields: None,
    }
}

#[test]
fn literal_types() {
    let int = tok(TokenType::Number, "12", Some(Literal::Number("12".to_string())));
    let double = tok(TokenType::Number, "1.5", Some(Literal::Number("1.5".to_string())));
    let string = tok(TokenType::String, "\"s\"", Some(Literal::String("s".to_string())));
    assert_eq!(check_literal(&int).unwrap().to_string(), "Int");
    assert_eq!(check_literal(&double).unwrap().to_string(), "Double");
    assert_eq!(check_literal(&string).unwrap().to_string(), "String");
    let unknown = tok(TokenType::Identifier, "x", None);
    assert!(matches!(check_literal(&unknown), Err(TypeError::UnknownLiteral { line: 3, column: 4, .. })));
}

#[test]
fn conditions_must_be_boolean() {
    let t = tok(TokenType::If, "if", None);
    assert!(check_condition(&t, named("Bool", vec![])).is_ok());
    assert!(matches!(check_condition(&t, named("Int", vec![])), Err(TypeError::ConditionNotBoolean { .. })));
}

#[test]
fn break_and_continue_need_a_loop() {
    let t = tok(TokenType::Break, "break", None);
    assert!(check_loop_control(&t, 1, true).is_ok());
    assert!(matches!(check_loop_control(&t, 0, true), Err(TypeError::BreakOutsideLoop { line: 3, column: 4 })));
    assert!(matches!(check_loop_control(&t, 0, false), Err(TypeError::ContinueOutsideLoop { .. })));
}

#[test]
fn for_in_element_types() {
    let at = tok(TokenType::Identifier, "x", None);
    let r = for_in_element_type(named("Range", vec![named("Int", vec![])]), &at).unwrap();
    assert_eq!(r.to_string(), "Int");
    let m = for_in_element_type(named("Map", vec![named("String", vec![]), named("Bool", vec![])]), &at).unwrap();
    assert_eq!(m.to_string(), "(String, Bool)");
    assert!(matches!(for_in_element_type(named("Int", vec![]), &at), Err(TypeError::InvalidForInTarget { .. })));
}

#[test]
fn declared_variable_types() {
    let mut u = Unifier::new();
    let binding = VariableBinding::Identifier(tok(TokenType::Identifier, "v", None));
    let t = variable_type(&mut u, Some(named("Int", vec![])), None, &binding).unwrap();
    assert_eq!(t.to_string(), "Int");
    let both = variable_type(&mut u, Some(named("Int", vec![])), Some(named("Int", vec![])), &binding).unwrap();
    assert_eq!(both.to_string(), "Int");
    let clash = variable_type(&mut u, Some(named("Int", vec![])), Some(named("Bool", vec![])), &binding);
    assert!(matches!(clash, Err(TypeError::MismatchedTypes { line: 3, column: 4, .. })));
    match variable_type(&mut u, None, None, &binding) {
        Err(TypeError::MissingTypeAnnotationAndInitializer { identifier, .. }) => assert_eq!(identifier, "v"),
        other => panic!("unexpected {:?}", other),
    }
}

#[test]
fn if_expression_types() {
    let mut u = Unifier::new();
    let t = tok(TokenType::If, "if", None);
    assert_eq!(if_expression_type(&mut u, &t, named("Int", vec![]), Some(named("Int", vec![]))).unwrap().to_string(), "Int");
    assert!(matches!(if_expression_type(&mut u, &t, named("Int", vec![]), None), Err(TypeError::MissingElseBranch { .. })));
}

#[test]
fn time_travel_needs_an_int() {
    let at = tok(TokenType::AtEqual, "@=", None);
    assert_eq!(time_travel_type(named("Double", vec![]), named("Int", vec![]), &at).unwrap().to_string(), "Double");
    assert!(matches!(
        time_travel_type(named("Double", vec![]), named("String", vec![]), &at),
        Err(TypeError::InvalidIndexType { .. })
    ));
}

#[test]
fn indexing_arrays_and_maps() {
    let mut u = Unifier::new();
    let at = tok(TokenType::LeftBracket, "[", None);
    let arr = named("Array", vec![named("String", vec![])]);
    assert_eq!(index_access_type(&mut u, arr, named("Int", vec![]), &at).unwrap().to_string(), "String");
    let map = named("Map", vec![named("String", vec![]), named("Double", vec![])]);
    assert_eq!(index_access_type(&mut u, map, named("String", vec![]), &at).unwrap().to_string(), "Double");
    let bad_key = named("Map", vec![named("Array", vec![named("Int", vec![])]), named("Double", vec![])]);
    assert!(matches!(index_access_type(&mut u, bad_key, named("Int", vec![]), &at), Err(TypeError::InvalidMapKeyType { .. })));
    assert!(matches!(
        index_access_type(&mut u, named("Int", vec![]), named("Int", vec![]), &at),
        Err(TypeError::InvalidIndexTarget { .. })
    ));
}

#[test]
fn fields_of_tuples_and_structs() {
    let u = Unifier::new();
    let tuple = TypeExpr::Tuple { element_types: vec![named("Int", vec![]), named("Bool", vec![])] };
    let one = tok(TokenType::Number, "1", None);
    assert_eq!(field_access_type(&u, &tuple, &one).unwrap().to_string(), "Bool");
    let five = tok(TokenType::Number, "5", None);
    assert!(matches!(field_access_type(&u, &tuple, &five), Err(TypeError::TupleFieldOutOfRange { index: 5, .. })));
    let point = TypeExpr::Named {
        identifier: tok(TokenType::Identifier, "Point", None),
        type_parameters: None,
        type_arguments: vec![],
        enum_variants: None,
        struct_fields: Some(vec![(tok(TokenType::Identifier, "x", None), named("Double", vec![]))]),
    };
    let x = tok(TokenType::Identifier, "x", None);
    assert_eq!(field_access_type(&u, &point, &x).unwrap().to_string(), "Double");
    let z = tok(TokenType::Identifier, "z", None);
    assert!(matches!(field_access_type(&u, &point, &z), Err(TypeError::UnknownField { .. })));
}

#[test]
fn numerals_read_as_usize() {
    assert_eq!(parse_usize(&"42".to_string()), Some(42));
    assert_eq!(parse_usize(&"+7".to_string()), Some(7));
    assert_eq!(parse_usize(&"".to_string()), None);
    assert_eq!(parse_usize(&"+".to_string()), None);
    assert_eq!(parse_usize(&"1a".to_string()), None);
    assert_eq!(parse_usize(&"99999999999999999999999".to_string()), None);
    assert_eq!(parse_usize(&"0007".to_string()), Some(7));
}
