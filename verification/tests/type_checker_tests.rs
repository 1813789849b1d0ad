use delo::ast::Stmt;
use delo::error::{ErrorMessage, ParseError, ScanError, TypeError};
use delo::parser::Parser;
use delo::scanner::Scanner;
use delo::type_checker::{TypeChecker, TypeInfo};
use delo::type_ops::BuiltinCallType;
use delo::types::TypeExpr;

fn parse(source: &str) -> Vec<Stmt> {
    let mut scanner = Scanner::new(source.to_string());
    let tokens = scanner.scan_tokens().unwrap_or_else(|e: Vec<ScanError>| panic!("scan failed: {:?}", e));
    let mut parser = Parser::new(tokens);
    parser.parse().unwrap_or_else(|e: Vec<ParseError>| panic!("parse failed: {:?}", e))
}

fn check(source: &str) -> Result<TypeInfo, Vec<TypeError>> {
    let stmts = parse(source);
    let mut checker = TypeChecker::new();
    checker.check_program(&stmts)
}

fn messages(source: &str) -> Vec<String> {
    match check(source) {
        Ok(_) => panic!("expected type errors"),
        Err(errors) => errors.iter().map(|e| e.message()).collect(),
    }
}

fn mentions_type_variable(t: &TypeExpr) -> bool {
    match t {
        TypeExpr::TypeVar { .. } => true,
        TypeExpr::Named { type_arguments, .. } => type_arguments.iter().any(mentions_type_variable),
        TypeExpr::Function { parameter_types, return_type } => {
            parameter_types.iter().any(mentions_type_variable) || mentions_type_variable(return_type)
        }
        TypeExpr::Tuple { element_types } => element_types.iter().any(mentions_type_variable),
    }
}

#[test]
fn readme_portfolio_program_type_checks() {
    let source = "var portfolio: Double = 10000.0\n\
                  portfolio = portfolio * 1.10\n\
                  portfolio = portfolio * 0.85\n\
                  print(portfolio)\n\
                  print(portfolio@=0)\n\
                  print(portfolio@-4)\n\
                  portfolio@=2 = portfolio@=1 * 1.05\n\
                  portfolio@-2 = portfolio@-1 * 0.85\n\
                  for (q2 in [0.85, 0.95, 1.05]) {\n\
                    portfolio@=2 = portfolio@=1 * q2\n\
                    print(portfolio)\n\
                  }\n";
    let info = check(source).unwrap_or_else(|e| panic!("{:?}", e));
    assert!(info.tracked_vars.iter().any(|v| v == "portfolio"));
    assert!(info.builtin_calls.iter().any(|(_, kind)| *kind == BuiltinCallType::Print));
}

#[test]
fn annotation_and_initializer_must_agree() {
    assert_eq!(messages("var x: Int = \"a\""), vec!["Type mismatch: expected String, found Int".to_string()]);
}

#[test]
fn variable_needs_type_or_value() {
    assert_eq!(
        messages("var x"),
        vec!["Variable x must have a type annotation or an initializer".to_string()]
    );
}

#[test]
fn undefined_variable_is_reported() {
    assert_eq!(messages("print(y)"), vec!["Undefined variable (y)".to_string()]);
}

#[test]
fn break_outside_a_loop_is_reported() {
    assert_eq!(messages("break"), vec!["'break' must be inside a loop".to_string()]);
    assert!(check("while (True) { break }").is_ok());
}

#[test]
fn one_error_per_failing_statement() {
    let errors = check("var a: Int = true\nvar b = 1\nbreak\ncontinue").unwrap_err();
    assert_eq!(errors.len(), 3);
    assert!(matches!(errors[1], TypeError::BreakOutsideLoop { line: 3, .. }));
    assert!(matches!(errors[2], TypeError::ContinueOutsideLoop { line: 4, .. }));
}

#[test]
fn condition_must_be_bool() {
    assert_eq!(messages("if (1) { print(1) }"), vec!["Condition must be have type Bool, found Int".to_string()]);
}

#[test]
fn function_return_type_is_inferred() {
    let info = check("fn double(x: Int) { x * 2 }\nvar y: Int = double(4)").unwrap();
    let (name, t) = &info.function_types[0];
    assert_eq!(name, "double");
    assert_eq!(t.to_string(), "(Int) -> Int");
}

#[test]
fn generic_call_records_its_type_arguments() {
    let info = check("fn identity<T>(x: T) -> T { x }\nvar s: String = identity(\"a\")").unwrap();
    assert_eq!(info.call_type_arguments.len(), 1);
    assert_eq!(info.call_type_arguments[0].1[0].to_string(), "String");
}

#[test]
fn optional_match_type_checks() {
    let source = "var o: Int? = Some(3)\nvar v: Int = match o { Some(x) => x, None => 0 }";
    assert!(check(source).is_ok());
}

#[test]
fn wrong_variant_payload_count_is_reported() {
    let errors = messages("var o: Int? = Some(3)\nvar v = match o { Some(x, y) => x, None => 0 }");
    assert_eq!(errors, vec!["Enum variant 'Some' expected 1 arguments, found 2".to_string()]);
}

#[test]
fn successful_result_is_fully_resolved() {
    let info = check("var doubled = map([1, 2], (x: Int) -> Int { x * 2 })\nvar total = foldl(doubled, 0, (a: Int, b: Int) -> Int { a + b })").unwrap();
    assert!(!info.expr_types.is_empty());
    assert!(info.expr_types.iter().all(|t| !mentions_type_variable(t)));
    assert!(info.expr_types.iter().any(|t| t.to_string() == "Array<Int>"));
}

#[test]
fn lambda_captures_are_recorded() {
    let info = check("var n = 2\nvar f = (x: Int) -> Int { x * n }\nvar y: Int = f(3)").unwrap();
    assert_eq!(info.lambda_captures.len(), 1);
    let captures = &info.lambda_captures[0].1;
    assert_eq!(captures.len(), 1);
    assert_eq!(captures[0].0, "n");
    assert_eq!(captures[0].1.to_string(), "Int");
}

#[test]
fn struct_fields_are_checked() {
    let ok = "struct P { x: Int, y: Int }\nvar p = P { x: 1, y: 2 }\nvar s: Int = p.x";
    assert!(check(ok).is_ok());
    let missing = messages("struct P { x: Int, y: Int }\nvar p = P { x: 1 }");
    assert_eq!(missing.len(), 1);
    assert!(missing[0].contains("has no field named 'y'"));
}

#[test]
fn duplicate_enum_variant_is_reported() {
    assert_eq!(messages("enum E { Some }"), vec!["Duplicate enum variant 'Some'".to_string()]);
}

#[test]
fn builtin_argument_count_is_checked() {
    assert_eq!(messages("print(1, 2)"), vec!["Expected 1 arguments, found 2".to_string()]);
}

#[test]
fn map_literal_keys_must_be_primitive() {
    let errors = messages("var m = {[1]: 2}");
    assert_eq!(errors.len(), 1);
    assert!(errors[0].starts_with("Map keys must be Int, Double, Bool, or String"));
}

#[test]
fn initializer_types_are_kept_by_position() {
    let info = check("var total = 1 + 2\nvar name: String = \"a\"").unwrap();
    assert_eq!(info.initializer_types.len(), 2);
    assert_eq!(info.initializer_types[0].0, (1, 5));
    assert_eq!(info.initializer_types[0].1.to_string(), "Int");
    assert_eq!(info.initializer_types[1].1.to_string(), "String");
}

#[test]
fn tracked_variable_globals_follow_type_checking() {
    let stmts = parse("var portfolio = 100\nportfolio = portfolio + 1\nprint(portfolio@-1)\n");
    let mut checker = TypeChecker::new();
    let info = checker.check_program(&stmts).unwrap();
    let mut generator = delo::code_generator::CodeGenerator::new();
    assert!(generator.emit_tracked_var_globals(&stmts, &info).is_ok());
    assert_eq!(generator.output(), "static History_int* _delo_portfolio = NULL;\n");
}

fn first_error(source: &str) -> TypeError {
    match check(source) {
        Ok(_) => panic!("expected type errors"),
        Err(mut errors) => errors.remove(0),
    }
}

fn initializer_type(source: &str) -> String {
    let info = check(source).unwrap();
    info.initializer_types[0].1.to_string()
}

#[test]
fn string_repetition_and_concatenation_are_strings() {
    assert_eq!(initializer_type("var s = \"ab\" * 3"), "String");
    assert_eq!(initializer_type("var s = 3 * \"ab\""), "String");
    assert_eq!(initializer_type("var s = \"ab\" + \"ab\""), "String");
}

#[test]
fn int_and_double_arithmetic_promotes() {
    assert_eq!(initializer_type("var d = 1 + 2.5"), "Double");
    assert_eq!(initializer_type("var i = 1 + 2"), "Int");
}

#[test]
fn comparison_of_equal_types_is_bool() {
    assert_eq!(initializer_type("var b = 1 < 1"), "Bool");
}

#[test]
fn comparison_of_different_types_is_a_mismatch_at_the_operator() {
    match first_error("var b = 1 < \"a\"") {
        TypeError::MismatchedTypes { line, column, expected, found } => {
            assert_eq!((line, column), (1, 11));
            assert_eq!(expected.to_string(), "Int");
            assert_eq!(found.to_string(), "String");
        }
        other => panic!("unexpected error {:?}", other),
    }
}

#[test]
fn string_subtraction_is_invalid() {
    match first_error("var b = \"a\" - \"a\"") {
        TypeError::InvalidBinaryOperands { line, column, operator, left_type, right_type } => {
            assert_eq!((line, column), (1, 13));
            assert_eq!(operator, "-");
            assert_eq!(left_type.to_string(), "String");
            assert_eq!(right_type.to_string(), "String");
        }
        other => panic!("unexpected error {:?}", other),
    }
}

#[test]
fn literal_pattern_must_have_the_subject_type() {
    match first_error("var s = \"x\"\nvar v = match s { 1 => 0, _ => 1 }") {
        TypeError::MismatchedTypes { line, column, expected, found } => {
            assert_eq!((line, column), (2, 19));
            assert_eq!(expected.to_string(), "Int");
            assert_eq!(found.to_string(), "String");
        }
        other => panic!("unexpected error {:?}", other),
    }
}

#[test]
fn empty_map_call_has_no_valid_key_type() {
    let errors = messages("var m = Map()");
    assert_eq!(errors.len(), 1);
    assert!(errors[0].starts_with("Map keys must be Int, Double, Bool, or String"));
}

#[test]
fn empty_array_call_is_an_array() {
    let info = check("var a: Array<Int> = Array()").unwrap();
    assert_eq!(info.builtin_calls.len(), 1);
    assert!(matches!(info.builtin_calls[0].1, BuiltinCallType::ArrayLiteral));
    assert_eq!(info.initializer_types[0].1.to_string(), "Array<Int>");
}

#[test]
fn literal_declarations_type_check() {
    assert!(check("var x: Int = 1\nvar s = \"a\"\nvar d: Double = 2.5\n3").is_ok());
}

#[test]
fn literal_condition_is_not_bool() {
    match first_error("while (1) { }") {
        TypeError::ConditionNotBoolean { line, column, condition_type } => {
            assert_eq!((line, column), (1, 1));
            assert_eq!(condition_type.to_string(), "Int");
        }
        other => panic!("unexpected error {:?}", other),
    }
}

#[test]
fn indexing_a_literal_is_an_invalid_target() {
    match first_error("var x = 1[0]") {
        TypeError::InvalidIndexTarget { line, column, target_type } => {
            assert_eq!((line, column), (1, 10));
            assert_eq!(target_type.to_string(), "Int");
        }
        other => panic!("unexpected error {:?}", other),
    }
}

#[test]
fn field_of_a_literal_is_an_invalid_target() {
    assert!(matches!(first_error("var x = \"a\".size"), TypeError::InvalidFieldAccessTarget { .. }));
}

#[test]
fn call_with_the_wrong_number_of_arguments() {
    match first_error("fn f(x: Int) { x }\nf(1, 2)") {
        TypeError::ArgumentCountMismatch { line, column, expected, found } => {
            assert_eq!((line, column), (2, 7));
            assert_eq!((expected, found), (1, 2));
        }
        other => panic!("unexpected error {:?}", other),
    }
}

#[test]
fn variant_constructor_call_is_an_optional() {
    let info = check("var o = Some(3)").unwrap();
    match &info.initializer_types[0].1 {
        TypeExpr::Named { identifier, type_arguments, .. } => {
            assert_eq!(identifier.lexeme, "Optional");
            assert_eq!(type_arguments.len(), 1);
            assert_eq!(type_arguments[0].to_string(), "Int");
        }
        other => panic!("unexpected {:?}", other),
    }
}

#[test]
fn unknown_variant_in_a_pattern() {
    match first_error("var o: Int? = None\nvar v = match o { Thing(x) => 1, _ => 2 }") {
        TypeError::InvalidEnumVariant { line, column, variant_identifier, .. } => {
            assert_eq!((line, column), (2, 19));
            assert_eq!(variant_identifier, "Thing");
        }
        other => panic!("unexpected error {:?}", other),
    }
}

#[test]
fn variant_pattern_on_a_non_enum() {
    assert!(matches!(
        first_error("var n = 1\nvar v = match n { Some(x) => 1, _ => 2 }"),
        TypeError::InvalidEnumPatternTarget { line: 2, column: 19, .. }
    ));
}

#[test]
fn variant_constructor_needs_its_payload() {
    match first_error("var o = Some()") {
        TypeError::ArgumentCountMismatch { line, column, expected, found } => {
            assert_eq!((line, column), (1, 14));
            assert_eq!((expected, found), (1, 0));
        }
        other => panic!("unexpected error {:?}", other),
    }
}

#[test]
fn loop_on_true_with_break_checks() {
    assert!(check("while (True) break").is_ok());
}

#[test]
fn arithmetic_on_a_variable() {
    assert_eq!(check("var x = 1\nvar y = x + 1").unwrap().initializer_types[1].1.to_string(), "Int");
}

#[test]
fn tuple_field_out_of_range() {
    assert!(matches!(
        first_error("var t = (1, 2)\nvar z = t.5"),
        TypeError::TupleFieldOutOfRange { index: 5, .. }
    ));
}

#[test]
fn literal_program_records_each_literal_type() {
    let info = check("var x = 1\n\"a\"\nvar d: Double = 2.5").unwrap();
    let names: Vec<String> = info.expr_types.iter().map(|t| t.to_string()).collect();
    assert_eq!(names, vec!["Int".to_string(), "String".to_string(), "Double".to_string()]);
}

#[test]
fn top_level_break_is_reported_among_the_errors() {
    match check("var x = 1\nbreak\nvar y = 2") {
        Err(errors) => assert!(errors.iter().any(|e| matches!(e, TypeError::BreakOutsideLoop { line: 2, column: 1 }))),
        Ok(_) => panic!("expected errors"),
    }
}

#[test]
fn printing_literals_type_checks() {
    assert!(check("print(1)\nvar x = 2\nprint(\"a\")").is_ok());
}

#[test]
fn tuple_literal_field_out_of_range() {
    assert!(matches!(
        first_error("var z = (1, 2).2"),
        TypeError::TupleFieldOutOfRange { line: 1, column: 16, index: 2, .. }
    ));
    assert_eq!(initializer_type("var z = (1, 2).1"), "Int");
}

#[test]
fn time_travel_read_has_the_variable_type() {
    assert_eq!(check("var x = 1\nx = 2\nvar y = x@-1").unwrap().initializer_types[1].1.to_string(), "Int");
}

#[test]
fn array_call_of_uniform_literals() {
    assert_eq!(initializer_type("var a = Array(1, 2, 3)"), "Array<Int>");
}
