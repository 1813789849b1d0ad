use delo::token::{Token, TokenType};
use delo::type_env::TypeEnvironment;
use delo::types::TypeExpr;

fn ident(name: &str) -> Token {
    Token { token_type: TokenType::Identifier, lexeme: name.to_string(), literal: None, line: 1, column: 1 }
}

fn named(name: &str) -> TypeExpr {
    TypeExpr::Named { identifier: ident(name), type_parameters: None, type_arguments: vec![], enum_variants: None, struct_fields: None }
}

#[test]
fn lookup_finds_the_innermost_binding() {
    let mut env = TypeEnvironment::new();
    env.push_scope();
    env.insert(&ident("x"), named("Int"));
    env.push_scope();
    env.insert(&ident("x"), named("String"));
    assert_eq!(env.lookup(&ident("x")).unwrap().to_string(), "String");
    env.pop_scope();
    assert_eq!(env.lookup(&ident("x")).unwrap().to_string(), "Int");
}

#[test]
fn rebinding_in_one_scope_replaces() {
    let mut env = TypeEnvironment::new();
    env.push_scope();
    env.insert(&ident("y"), named("Int"));
    env.insert(&ident("y"), named("Bool"));
    assert_eq!(env.lookup(&ident("y")).unwrap().to_string(), "Bool");
}

#[test]
fn unbound_names_are_not_found() {
    let mut env = TypeEnvironment::new();
    assert!(env.lookup(&ident("z")).is_none());
    env.insert(&ident("z"), named("Int"));
    assert!(env.lookup(&ident("z")).is_none());
    env.push_scope();
    env.insert(&ident("w"), named("Int"));
    env.pop_scope();
    assert!(env.lookup(&ident("w")).is_none());
    env.pop_scope();
}
