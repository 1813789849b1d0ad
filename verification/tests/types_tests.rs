use delo::token::{Token, TokenType};
use delo::types::TypeExpr;

fn named(name: &str, args: Vec<TypeExpr>) -> TypeExpr {
    TypeExpr::Named {
        identifier: Token { token_type: TokenType::Identifier, lexeme: name.to_string(), literal: None, line: 1, column: 1 },
        type_parameters: None,
        type_arguments: args,
        enum_variants: None,
        struct_fields: None,
    }
}

#[test]
fn named_type_without_arguments_shows_its_name() {
    assert_eq!(named("Int", vec![]).to_string(), "Int");
}

#[test]
fn generic_type_shows_its_arguments() {
    let t = named("Map", vec![named("String", vec![]), named("Array", vec![named("Int", vec![])])]);
    assert_eq!(t.to_string(), "Map<String, Array<Int>>");
}

#[test]
fn function_type_shows_parameters_and_return() {
    let t = TypeExpr::Function {
        parameter_types: vec![named("Int", vec![]), named("Bool", vec![])],
        return_type: Box::new(named("String", vec![])),
    };
    assert_eq!(t.to_string(), "(Int, Bool) -> String");
    let nullary = TypeExpr::Function { parameter_types: vec![], return_type: Box::new(named("Void", vec![])) };
    assert_eq!(nullary.to_string(), "() -> Void");
}

#[test]
fn one_element_tuple_has_a_trailing_comma() {
    let one = TypeExpr::Tuple { element_types: vec![named("Int", vec![])] };
    assert_eq!(one.to_string(), "(Int,)");
    let two = TypeExpr::Tuple { element_types: vec![named("Int", vec![]), named("Double", vec![])] };
    assert_eq!(two.to_string(), "(Int, Double)");
}

#[test]
fn type_variable_shows_its_id() {
    assert_eq!(TypeExpr::TypeVar { id: 0 }.to_string(), "?0");
    assert_eq!(TypeExpr::TypeVar { id: 1234 }.to_string(), "?1234");
}

#[test]
fn token_type_text_of_operators_and_keywords() {
    assert_eq!(TokenType::MinusGreater.to_string(), "->");
    assert_eq!(TokenType::Identifier.to_string(), "identifier");
    assert_eq!(TokenType::Eof.to_string(), "end of file");
    assert_eq!(TokenType::EqualGreater.to_string(), ">=");
}

#[test]
fn clone_keeps_the_type() {
    let t = named("Array", vec![TypeExpr::TypeVar { id: 3 }]);
    assert_eq!(t.clone().to_string(), t.to_string());
}
