use delo::error::TypeError;
use delo::token::{Token, TokenType};
use delo::type_rules::{check_binary_operation, check_logical_operation, check_unary_operation};
use delo::types::TypeExpr;
use delo::unifier::Unifier;

fn op(token_type: TokenType, lexeme: &str) -> Token {
    Token { token_type, lexeme: lexeme.to_string(), literal: None, line: 2, column: 5 }
}

fn named(name: &str, args: Vec<TypeExpr>) -> TypeExpr {
    TypeExpr::Named {
        identifier: Token { token_type: TokenType::Identifier, lexeme: name.to_string(), literal: None, line: 1, column: 1 },
        type_parameters: None,
        type_arguments: args,
        enum_variants: None,
        struct_fields: None,
    }
}

#[test]
fn unary_minus_and_not() {
    assert_eq!(check_unary_operation(&op(TokenType::Minus, "-"), named("Double", vec![])).unwrap().to_string(), "Double");
    assert_eq!(check_unary_operation(&op(TokenType::Exclamation, "!"), named("Bool", vec![])).unwrap().to_string(), "Bool");
    match check_unary_operation(&op(TokenType::Exclamation, "!"), named("Int", vec![])) {
        Err(TypeError::InvalidUnaryOperand { line, column, operator, operand_type }) => {
            assert_eq!((line, column, operator.as_str()), (2, 5, "!"));
            assert_eq!(operand_type.to_string(), "Int");
        }
        _ => panic!("expected an invalid operand"),
    }
}

#[test]
fn logical_operators_take_booleans() {
    let r = check_logical_operation(&op(TokenType::AmpersandAmpersand, "&&"), named("Bool", vec![]), named("Bool", vec![]));
    assert_eq!(r.unwrap().to_string(), "Bool");
    let e = check_logical_operation(&op(TokenType::PipePipe, "||"), named("Bool", vec![]), named("Int", vec![]));
    assert!(matches!(e, Err(TypeError::InvalidBinaryOperands { .. })));
}

#[test]
fn arithmetic_on_numbers() {
    let mut u = Unifier::new();
    let plus = op(TokenType::Plus, "+");
    assert_eq!(check_binary_operation(&mut u, named("Int", vec![]), &plus, named("Int", vec![])).unwrap().to_string(), "Int");
    assert_eq!(check_binary_operation(&mut u, named("Int", vec![]), &plus, named("Double", vec![])).unwrap().to_string(), "Double");
    let e = check_binary_operation(&mut u, named("Int", vec![]), &plus, named("Bool", vec![]));
    assert!(matches!(e, Err(TypeError::InvalidBinaryOperands { .. })));
}

#[test]
fn string_and_array_operators() {
    let mut u = Unifier::new();
    let plus = op(TokenType::Plus, "+");
    let star = op(TokenType::Star, "*");
    assert_eq!(check_binary_operation(&mut u, named("String", vec![]), &plus, named("String", vec![])).unwrap().to_string(), "String");
    assert_eq!(check_binary_operation(&mut u, named("Int", vec![]), &star, named("String", vec![])).unwrap().to_string(), "String");
    let arr = named("Array", vec![named("Int", vec![])]);
    assert_eq!(check_binary_operation(&mut u, arr.clone(), &star, named("Int", vec![])).unwrap().to_string(), "Array<Int>");
    assert_eq!(check_binary_operation(&mut u, arr.clone(), &plus, arr.clone()).unwrap().to_string(), "Array<Int>");
    let bad = check_binary_operation(&mut u, arr, &plus, named("Array", vec![named("Bool", vec![])]));
    assert!(matches!(bad, Err(TypeError::MismatchedTypes { line: 2, column: 5, .. })));
}

#[test]
fn arithmetic_with_a_type_variable_unifies() {
    let mut u = Unifier::new();
    let v = u.new_type_var();
    let minus = op(TokenType::Minus, "-");
    let r = check_binary_operation(&mut u, v.clone(), &minus, named("Int", vec![])).unwrap();
    assert_eq!(r.to_string(), "Int");
    assert_eq!(u.apply_substitutions(&v).to_string(), "Int");
}

#[test]
fn comparisons_give_bool() {
    let mut u = Unifier::new();
    let less = op(TokenType::Less, "<");
    assert_eq!(check_binary_operation(&mut u, named("Int", vec![]), &less, named("Int", vec![])).unwrap().to_string(), "Bool");
    let e = check_binary_operation(&mut u, named("Int", vec![]), &less, named("String", vec![]));
    assert!(matches!(e, Err(TypeError::MismatchedTypes { .. })));
}

#[test]
fn coalescing_takes_an_optional() {
    let mut u = Unifier::new();
    let qq = op(TokenType::QuestionQuestion, "??");
    let opt = named("Optional", vec![named("Int", vec![])]);
    assert_eq!(check_binary_operation(&mut u, opt, &qq, named("Int", vec![])).unwrap().to_string(), "Int");
    let e = check_binary_operation(&mut u, named("Int", vec![]), &qq, named("Int", vec![]));
    assert!(matches!(e, Err(TypeError::InvalidBinaryOperands { .. })));
}

#[test]
fn other_operators_are_invalid() {
    let mut u = Unifier::new();
    let e = check_binary_operation(&mut u, named("Int", vec![]), &op(TokenType::Dot, "."), named("Int", vec![]));
    assert!(matches!(e, Err(TypeError::InvalidBinaryOperands { .. })));
}
