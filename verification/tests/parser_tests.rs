use delo::ast::{Expr, Pattern, Stmt, VariableBinding};
use delo::error::{ParseError, ScanError};
use delo::parser::Parser;
use delo::scanner::Scanner;
use delo::token::TokenType;
use delo::types::TypeExpr;

fn parse(source: &str) -> Result<Vec<Stmt>, Vec<ParseError>> {
    let mut scanner = Scanner::new(source.to_string());
    let tokens = scanner.scan_tokens().unwrap_or_else(|e: Vec<ScanError>| panic!("scan failed: {:?}", e));
    let mut parser = Parser::new(tokens);
    parser.parse()
}

#[test]
fn only_end_of_file_gives_no_statements() {
    assert_eq!(parse("").unwrap().len(), 0);
}

#[test]
fn precedence_of_arithmetic() {
    let stmts = parse("var x: Int = 1 + 2 * 3").unwrap();
    match &stmts[0] {
        Stmt::Variable { binding: VariableBinding::Identifier(name), type_annotation: Some(t), initializer: Some(init) } => {
            assert_eq!(name.lexeme, "x");
            assert_eq!(t.to_string(), "Int");
            match init {
                Expr::Binary { operator, right, .. } => {
                    assert_eq!(operator.token_type, TokenType::Plus);
                    assert!(matches!(right.as_ref(), Expr::Binary { operator, .. } if operator.token_type == TokenType::Star));
                }
                other => panic!("unexpected {:?}", other),
            }
        }
        other => panic!("unexpected {:?}", other),
    }
}

#[test]
fn power_is_right_associative() {
    let stmts = parse("2 ^ 3 ^ 2").unwrap();
    match &stmts[0] {
        Stmt::Expression(Expr::Binary { left, right, .. }) => {
            assert!(matches!(left.as_ref(), Expr::Literal(_)));
            assert!(matches!(right.as_ref(), Expr::Binary { .. }));
        }
        other => panic!("unexpected {:?}", other),
    }
}

#[test]
fn compound_assignment_becomes_an_operation() {
    let stmts = parse("x += 1").unwrap();
    match &stmts[0] {
        Stmt::Expression(Expr::Assign { identifier, value }) => {
            assert_eq!(identifier.lexeme, "x");
            assert!(matches!(value.as_ref(), Expr::Binary { operator, .. } if operator.token_type == TokenType::Plus));
        }
        other => panic!("unexpected {:?}", other),
    }
}

#[test]
fn increment_of_an_element() {
    let stmts = parse("a[0]++").unwrap();
    assert!(matches!(&stmts[0], Stmt::Expression(Expr::AssignIndex { .. })));
}

#[test]
fn time_travel_reads_and_writes() {
    let stmts = parse("p@=2 = p@-1 * 2").unwrap();
    match &stmts[0] {
        Stmt::Expression(Expr::AssignTimeTravelAbsolute { value, .. }) => {
            assert!(matches!(value.as_ref(), Expr::Binary { left, .. } if matches!(left.as_ref(), Expr::TimeTravelRelative { .. })));
        }
        other => panic!("unexpected {:?}", other),
    }
}

#[test]
fn invalid_assignment_target_is_reported_at_the_operator() {
    let errors = parse("1 = 2").unwrap_err();
    assert_eq!(errors.len(), 1);
    assert!(matches!(&errors[0], ParseError::InvalidAssignmentTarget { line: 1, column: 3, .. }));
}

#[test]
fn missing_identifier_is_an_expected_token() {
    let errors = parse("var = 1").unwrap_err();
    match &errors[0] {
        ParseError::ExpectedToken { line, column, expected, found } => {
            assert_eq!((*line, *column), (1, 5));
            assert_eq!(expected, &vec![TokenType::Identifier]);
            assert_eq!(found.token_type, TokenType::Equal);
        }
        other => panic!("unexpected {:?}", other),
    }
}

#[test]
fn parsing_recovers_and_reports_every_error() {
    let errors = parse("var = 1\nvar = 2\nvar ok = 3").unwrap_err();
    assert_eq!(errors.len(), 2);
}

#[test]
fn duplicate_parameters_are_rejected() {
    let errors = parse("fn f(a: Int, a: Bool) { a }").unwrap_err();
    assert!(matches!(&errors[0], ParseError::DuplicateParameter { parameter, .. } if parameter.lexeme == "a"));
}

#[test]
fn for_in_loop_over_a_range() {
    let stmts = parse("for (i in 0..3) { print(i) }").unwrap();
    match &stmts[0] {
        Stmt::ForIn { binding: VariableBinding::Identifier(name), iterable, .. } => {
            assert_eq!(name.lexeme, "i");
            assert!(matches!(iterable, Expr::RangeLiteral { is_inclusive: false, .. }));
        }
        other => panic!("unexpected {:?}", other),
    }
}

#[test]
fn classic_for_loop_becomes_a_while_loop() {
    let stmts = parse("for (var i = 0; i < 3; i++) { print(i) }").unwrap();
    match &stmts[0] {
        Stmt::Block(inner) => {
            assert!(matches!(&inner[0], Stmt::Variable { .. }));
            assert!(matches!(&inner[1], Stmt::While { .. }));
        }
        other => panic!("unexpected {:?}", other),
    }
}

#[test]
fn for_loop_without_condition_loops_on_true() {
    let stmts = parse("for (;;) { break }").unwrap();
    match &stmts[0] {
        Stmt::While { condition: Expr::Variable(t), .. } => assert_eq!(t.lexeme, "True"),
        other => panic!("unexpected {:?}", other),
    }
}

#[test]
fn match_with_ranges_and_wildcard() {
    let stmts = parse("var y = match x { 1..=3 => 0, (a, b) if a => 2, _ => 1 }").unwrap();
    match &stmts[0] {
        Stmt::Variable { initializer: Some(Expr::Match { cases, .. }), .. } => {
            assert_eq!(cases.len(), 3);
            assert!(matches!(&cases[0].pattern, Pattern::Range { is_inclusive: true, .. }));
            assert!(matches!(&cases[1].pattern, Pattern::Tuple { elements, .. } if elements.len() == 2));
            assert!(cases[1].guard.is_some());
            assert!(matches!(&cases[2].pattern, Pattern::Wildcard(_)));
        }
        other => panic!("unexpected {:?}", other),
    }
}

#[test]
fn mismatched_range_bounds_in_a_pattern() {
    let errors = parse("match x { 1..\"a\" => 0 }").unwrap_err();
    assert!(matches!(&errors[0], ParseError::MismatchedRangeBounds { .. }));
}

#[test]
fn function_and_optional_types() {
    let stmts = parse("var f: (Int, Bool) -> Int? = g").unwrap();
    match &stmts[0] {
        Stmt::Variable { type_annotation: Some(t), .. } => assert_eq!(t.to_string(), "(Int, Bool) -> Optional<Int>"),
        other => panic!("unexpected {:?}", other),
    }
}

#[test]
fn unit_and_tuple_types() {
    let stmts = parse("var a: () = b\nvar c: (Int,) = d\nvar e: (Int) = f").unwrap();
    let shown: Vec<String> = stmts
        .iter()
        .map(|s| match s {
            Stmt::Variable { type_annotation: Some(t), .. } => t.to_string(),
            _ => String::new(),
        })
        .collect();
    assert_eq!(shown, vec!["Void", "(Int,)", "Int"]);
}

#[test]
fn enum_and_struct_declarations() {
    let stmts = parse("enum Shape<T> { Circle(T), Square(T, T), Empty }\nstruct Point { x: Int, y: Int }").unwrap();
    match &stmts[0] {
        Stmt::Enum { identifier, type_parameters, variants } => {
            assert_eq!(identifier.lexeme, "Shape");
            assert_eq!(type_parameters.len(), 1);
            assert_eq!(variants.len(), 3);
            assert_eq!(variants[1].payload_types.len(), 2);
        }
        other => panic!("unexpected {:?}", other),
    }
    assert!(matches!(&stmts[1], Stmt::Struct { fields, .. } if fields.len() == 2));
}

#[test]
fn lambda_struct_literal_and_tuple_field() {
    let stmts = parse("var f = (x: Int) -> Int { x + 1 }\nvar p = Point { x: 1, y: 2 }\nvar t = (1, 2).1").unwrap();
    assert!(matches!(&stmts[0], Stmt::Variable { initializer: Some(Expr::Lambda { .. }), .. }));
    assert!(matches!(&stmts[1], Stmt::Variable { initializer: Some(Expr::StructInstantiation { .. }), .. }));
    match &stmts[2] {
        Stmt::Variable { initializer: Some(Expr::FieldAccess { target, field }), .. } => {
            assert_eq!(field.lexeme, "1");
            assert!(matches!(target.as_ref(), Expr::TupleLiteral { elements, .. } if elements.len() == 2));
        }
        other => panic!("unexpected {:?}", other),
    }
}

#[test]
fn nested_tuple_field_splits_on_dots() {
    let stmts = parse("t.0.1").unwrap();
    match &stmts[0] {
        Stmt::Expression(Expr::FieldAccess { target, field }) => {
            assert_eq!(field.lexeme, "1");
            assert!(matches!(target.as_ref(), Expr::FieldAccess { field, .. } if field.lexeme == "0"));
        }
        other => panic!("unexpected {:?}", other),
    }
}

#[test]
fn empty_tuple_binding_is_rejected() {
    let errors = parse("var () = 1").unwrap_err();
    assert!(matches!(&errors[0], ParseError::EmptyTuple { line: 1, column: 6 }));
}

#[test]
fn if_expression_needs_else() {
    let errors = parse("var x = if (a) { 1 }").unwrap_err();
    assert!(matches!(&errors[0], ParseError::ExpectedToken { expected, .. } if expected == &vec![TokenType::Else]));
}

#[test]
fn unexpected_token_in_an_expression() {
    let errors = parse(")").unwrap_err();
    assert!(matches!(&errors[0], ParseError::UnexpectedToken { line: 1, column: 1, .. }));
}

#[test]
fn optional_type_names() {
    let stmts = parse("var m: Map<String, Array<Int>> = n").unwrap();
    match &stmts[0] {
        Stmt::Variable { type_annotation: Some(t), .. } => {
            assert_eq!(t.to_string(), "Map<String, Array<Int>>");
            assert!(matches!(t, TypeExpr::Named { .. }));
        }
        other => panic!("unexpected {:?}", other),
    }
}

fn annotation(source: &str) -> TypeExpr {
    let mut stmts = parse(source).unwrap();
    match stmts.remove(0) {
        Stmt::Variable { type_annotation: Some(t), .. } => t,
        other => panic!("unexpected {:?}", other),
    }
}

fn initializer(source: &str) -> Expr {
    let mut stmts = parse(source).unwrap();
    match stmts.remove(0) {
        Stmt::Variable { initializer: Some(e), .. } => e,
        other => panic!("unexpected {:?}", other),
    }
}

#[test]
fn question_mark_makes_an_optional_type() {
    match annotation("var x: Int? = None") {
        TypeExpr::Named { identifier, type_arguments, .. } => {
            assert_eq!(identifier.lexeme, "Optional");
            assert_eq!(identifier.column, 11);
            assert_eq!(type_arguments.len(), 1);
            assert_eq!(type_arguments[0].to_string(), "Int");
        }
        other => panic!("unexpected {:?}", other),
    }
}

#[test]
fn parenthesised_types() {
    match annotation("var x: (Int,) = (1,)") {
        TypeExpr::Tuple { element_types } => {
            assert_eq!(element_types.len(), 1);
            assert_eq!(element_types[0].to_string(), "Int");
        }
        other => panic!("unexpected {:?}", other),
    }
    assert_eq!(annotation("var x: (Int) = 1").to_string(), "Int");
    assert_eq!(annotation("var x: () = ()").to_string(), "Void");
}

#[test]
fn trailing_comma_makes_a_one_element_tuple() {
    match initializer("var x = (1,)") {
        Expr::TupleLiteral { elements, left_paren } => {
            assert_eq!(elements.len(), 1);
            assert_eq!(left_paren.column, 9);
            assert!(matches!(&elements[0], Expr::Literal(t) if t.lexeme == "1"));
        }
        other => panic!("unexpected {:?}", other),
    }
    match initializer("var x = (1)") {
        Expr::Grouping(inner) => assert!(matches!(inner.as_ref(), Expr::Literal(t) if t.lexeme == "1")),
        other => panic!("unexpected {:?}", other),
    }
    match initializer("var x = ()") {
        Expr::TupleLiteral { elements, .. } => assert!(elements.is_empty()),
        other => panic!("unexpected {:?}", other),
    }
}

fn first_expression(source: &str) -> Expr {
    let mut stmts = parse(source).unwrap();
    match stmts.remove(0) {
        Stmt::Expression(e) => e,
        other => panic!("unexpected {:?}", other),
    }
}

#[test]
fn compound_assignment_uses_the_plain_operator() {
    for (source, kind, text) in [("x += 2", TokenType::Plus, "+"), ("x ^= 2", TokenType::Caret, "^"), ("x %= 2", TokenType::Percent, "%")] {
        match first_expression(source) {
            Expr::Assign { identifier, value } => {
                assert_eq!(identifier.lexeme, "x");
                match value.as_ref() {
                    Expr::Binary { left, operator, right } => {
                        assert!(matches!(left.as_ref(), Expr::Variable(t) if t.lexeme == "x"));
                        assert_eq!(operator.token_type, kind);
                        assert_eq!(operator.lexeme, text);
                        assert_eq!(operator.column, 3);
                        assert!(matches!(right.as_ref(), Expr::Literal(t) if t.lexeme == "2"));
                    }
                    other => panic!("unexpected {:?}", other),
                }
            }
            other => panic!("unexpected {:?}", other),
        }
    }
}

#[test]
fn assignment_to_a_literal_is_invalid() {
    let errors = parse("1 += 2").unwrap_err();
    assert!(matches!(&errors[0], ParseError::InvalidAssignmentTarget { line: 1, column: 3, .. }));
}

#[test]
fn increment_becomes_an_assignment() {
    match first_expression("x++") {
        Expr::Assign { identifier, value } => {
            assert_eq!(identifier.lexeme, "x");
            match value.as_ref() {
                Expr::Binary { operator, right, .. } => {
                    assert_eq!(operator.token_type, TokenType::Plus);
                    assert_eq!(operator.lexeme, "+");
                    assert!(matches!(right.as_ref(), Expr::Literal(t) if t.lexeme == "1" && t.column == 2));
                }
                other => panic!("unexpected {:?}", other),
            }
        }
        other => panic!("unexpected {:?}", other),
    }
    let errors = parse("1++").unwrap_err();
    assert!(matches!(&errors[0], ParseError::InvalidAssignmentTarget { line: 1, column: 2, .. }));
}

#[test]
fn range_patterns_and_their_errors() {
    let stmts = parse("var v = match n { 1..=5 => 0, 1..5 => 1, _ => 2 }").unwrap();
    match &stmts[0] {
        Stmt::Variable { initializer: Some(Expr::Match { cases, .. }), .. } => {
            assert!(matches!(&cases[0].pattern, Pattern::Range { start, end, is_inclusive: true } if start.lexeme == "1" && end.lexeme == "5"));
            assert!(matches!(&cases[1].pattern, Pattern::Range { is_inclusive: false, .. }));
        }
        other => panic!("unexpected {:?}", other),
    }
    let errors = parse("var v = match n { 1..\"a\" => 0 }").unwrap_err();
    assert!(matches!(&errors[0], ParseError::MismatchedRangeBounds { line: 1, column: 22, .. }));
    let errors = parse("var v = match n { 1.. => 0 }").unwrap_err();
    assert!(matches!(&errors[0], ParseError::MissingRangeEnd { line: 1, column: 23, .. }));
}

#[test]
fn empty_for_loop_becomes_a_while_true_loop() {
    let stmts = parse("for (;;) break").unwrap();
    match &stmts[0] {
        Stmt::While { while_token, condition, body } => {
            assert_eq!(while_token.token_type, TokenType::For);
            assert!(matches!(condition, Expr::Variable(t) if t.lexeme == "True"));
            assert!(matches!(body.as_ref(), Stmt::Break(_)));
        }
        other => panic!("unexpected {:?}", other),
    }
}

#[test]
fn array_literal_keeps_its_elements() {
    match initializer("var a = [1, x, \"s\"]") {
        Expr::ArrayLiteral { elements, .. } => {
            assert_eq!(elements.len(), 3);
            assert!(matches!(&elements[0], Expr::Literal(t) if t.lexeme == "1"));
            assert!(matches!(&elements[1], Expr::Variable(t) if t.lexeme == "x"));
            assert!(matches!(&elements[2], Expr::Literal(t) if t.lexeme == "\"s\""));
        }
        other => panic!("unexpected {:?}", other),
    }
}

#[test]
fn program_of_jumps_keeps_each_statement() {
    let stmts = parse("break continue break").unwrap();
    assert_eq!(stmts.len(), 3);
    assert!(matches!(&stmts[0], Stmt::Break(_)));
    assert!(matches!(&stmts[1], Stmt::Continue(_)));
    assert!(matches!(&stmts[2], Stmt::Break(_)));
}
