use delo::error::{
    CodegenError, CompilerRunnerError, ErrorMessage, ErrorWithLocation, ParseError, ScanError, TypeError, UnifyError,
};
use delo::report::{error_banner, error_report, ErrorKind};
use delo::token::{Token, TokenType};
use delo::types::TypeExpr;

fn tok(token_type: TokenType, lexeme: &str, line: u32, column: u32) -> Token {
    Token { token_type, lexeme: lexeme.to_string(), literal: None, line, column }
}

fn named(name: &str) -> TypeExpr {
    TypeExpr::Named {
        identifier: tok(TokenType::Identifier, name, 1, 1),
        type_parameters: None,
        type_arguments: vec![],
        enum_variants: None,
        struct_fields: None,
    }
}

#[test]
fn scan_error_messages() {
    let e = ScanError::UnexpectedCharacter { line: 2, column: 5, character: '$' };
    assert_eq!(e.message(), "Unexpected character '$'");
    assert_eq!((e.line(), e.column()), (Some(2), Some(5)));
    assert_eq!(ScanError::UnterminatedString { line: 1, column: 1 }.message(), "Unterminated string");
    assert_eq!(ScanError::UnterminatedBlockComment { line: 1, column: 1 }.message(), "Unterminated block comment");
}

#[test]
fn expected_token_message_lists_alternatives() {
    let e = ParseError::ExpectedToken {
        line: 3,
        column: 9,
        expected: vec![TokenType::Comma, TokenType::RightBrace],
        found: tok(TokenType::Identifier, "x", 3, 9),
    };
    assert_eq!(e.message(), "Expected ', or }', found 'identifier' (x)");
    assert_eq!((e.line(), e.column()), (Some(3), Some(9)));
    let e2 = ParseError::ExpectedToken {
        line: 1,
        column: 1,
        expected: vec![TokenType::RightParen],
        found: tok(TokenType::Eof, "", 1, 1),
    };
    assert_eq!(e2.message(), "Expected ')', found 'end of file'");
}

#[test]
fn other_parse_error_messages() {
    let t = tok(TokenType::Identifier, "foo", 1, 2);
    assert_eq!(ParseError::UnexpectedToken { line: 1, column: 2, found: t.clone() }.message(), "Unexpected token (foo)");
    assert_eq!(ParseError::InvalidKeyword { line: 1, column: 2, found: t.clone() }.message(), "Invalid keyword (foo)");
    assert_eq!(ParseError::InvalidPattern { line: 1, column: 2, found: t.clone() }.message(), "Invalid pattern (foo)");
    assert_eq!(
        ParseError::InvalidAssignmentTarget { line: 1, column: 2, found: t.clone() }.message(),
        "Invalid assignment target (foo)"
    );
    assert_eq!(
        ParseError::MismatchedRangeBounds {
            line: 1,
            column: 2,
            start_bound: tok(TokenType::Number, "1", 1, 2),
            end_bound: tok(TokenType::String, "\"a\"", 1, 6),
        }
        .message(),
        "Mismatched range bound types ('number' and 'string') - Range bounds must have the same literal type"
    );
    assert_eq!(
        ParseError::MissingRangeEnd { line: 1, column: 2, start_bound: tok(TokenType::Number, "1", 1, 2) }.message(),
        "Missing end bound for range starting with '1'"
    );
    assert_eq!(ParseError::DuplicateParameter { line: 1, column: 2, parameter: t }.message(), "Duplicate parameter 'foo'");
    assert_eq!(
        ParseError::EmptyTuple { line: 4, column: 1 }.message(),
        "Empty tuple () is not allowed; use Void for type-level no-value"
    );
}

#[test]
fn type_error_messages() {
    let e = TypeError::MismatchedTypes { line: 7, column: 3, expected: named("Int"), found: named("String") };
    assert_eq!(e.message(), "Type mismatch: expected Int, found String");
    assert_eq!((e.line(), e.column()), (Some(7), Some(3)));
    assert_eq!(
        TypeError::InfiniteType { line: 1, column: 1, type_var_id: 4, type_expr: TypeExpr::TypeVar { id: 4 } }.message(),
        "Cannot construct infinite type: type variable 4 occurs in ?4"
    );
    assert_eq!(
        TypeError::ArgumentCountMismatch { line: 1, column: 1, expected: 2, found: 3 }.message(),
        "Expected 2 arguments, found 3"
    );
    assert_eq!(
        TypeError::UnknownField { line: 1, column: 1, target_type: named("Point"), field_name: "z".to_string() }.message(),
        "Type Point has no field named 'z'"
    );
    assert_eq!(TypeError::BreakOutsideLoop { line: 1, column: 1 }.message(), "'break' must be inside a loop");
    assert_eq!(
        TypeError::InvalidBinaryOperands {
            line: 1,
            column: 1,
            operator: "+".to_string(),
            left_type: named("Bool"),
            right_type: named("Int"),
        }
        .message(),
        "Invalid operand types Bool and Int for operator '+'"
    );
    assert_eq!(
        TypeError::TupleFieldOutOfRange { line: 1, column: 1, tuple_type: named("T"), index: 10 }.message(),
        "Tuple field index 10 is out of range for type T"
    );
}

#[test]
fn unify_error_messages() {
    let e = UnifyError::MismatchedTypes { expected: named("Bool"), found: named("Int") };
    assert_eq!(e.message(), "Type mismatch: expected Bool, found Int");
}

#[test]
fn codegen_error_messages() {
    assert_eq!(
        CodegenError::InvalidCallTarget { line: 1, column: 1, target_type: None }.message(),
        "Cannot call value of type UNKNOWN"
    );
    assert_eq!(
        CodegenError::InvalidCallTarget { line: 1, column: 1, target_type: Some(named("Int")) }.message(),
        "Cannot call value of type Int"
    );
    assert_eq!(
        CodegenError::InvalidEnumPatternArgumentCount {
            line: 1,
            column: 1,
            enum_identifier: "Shape".to_string(),
            variant_identifier: "Circle".to_string(),
            expected: 1,
            found: 2,
        }
        .message(),
        "Invalid number of patterns for enum variant 'Circle' of enum 'Shape' - expected 1, but found 2"
    );
    assert_eq!(
        CodegenError::UnexpectedTypeInCodegen { line: 5, column: 6, expected: "array", found_type: named("Int") }.message(),
        "Internal codegen error: expected array, but found Int"
    );
}

#[test]
fn compiler_runner_error_messages() {
    let e = CompilerRunnerError::NoCompilerFound { compilers_tried: vec!["gcc".to_string(), "clang".to_string()] };
    assert_eq!(e.message(), "No compiler found, tried: gcc, clang");
    assert_eq!((e.line(), e.column()), (None, None));
    let f = CompilerRunnerError::CompilationFailed { compiler: "cc".to_string(), status: -1, stderr: "boom".to_string() };
    assert_eq!(f.message(), "Compilation failed using cc with status -1:\nboom");
    assert_eq!(CompilerRunnerError::FailedToGetCurrentDirectory.message(), "Failed to get current directory");
    assert_eq!(CompilerRunnerError::IoError { message: "denied".to_string() }.message(), "IO error: denied");
}

#[test]
fn report_of_an_error_with_a_column() {
    let e = ScanError::UnexpectedCharacter { line: 2, column: 3, character: '$' };
    let lines = vec!["var a = 1".to_string(), "a $ 2".to_string()];
    let report = error_report(&e, &lines, "main.delo");
    assert_eq!(
        report,
        vec![
            "error: Unexpected character '$'".to_string(),
            "@ main.delo:2:3".to_string(),
            "  |".to_string(),
            "2 | a $ 2".to_string(),
            "  |   ^".to_string(),
            "".to_string(),
        ]
    );
}

#[test]
fn report_of_an_error_past_the_last_line() {
    let e = ScanError::UnterminatedString { line: 12, column: 4 };
    let lines = vec!["x".to_string()];
    let report = error_report(&e, &lines, "f.delo");
    assert_eq!(report, vec!["error: Unterminated string".to_string(), "@ f.delo:12:4".to_string(), "".to_string()]);
}

#[test]
fn report_of_an_error_without_location() {
    let e = CompilerRunnerError::FailedToGetCurrentDirectory;
    let report = error_report(&e, &vec![], "f.delo");
    assert_eq!(report, vec!["error: Failed to get current directory".to_string(), "".to_string()]);
}

#[test]
fn banner_counts_errors() {
    let one = error_banner(1, ErrorKind::Scan);
    assert_eq!(one[1], ">>> Found 1 scan error <<<");
    assert_eq!(one[0], "=".repeat(one[1].len()));
    assert_eq!(one[2], one[0]);
    assert_eq!(one[3], "");
    let many = error_banner(12, ErrorKind::CompilerRunner);
    assert_eq!(many[1], ">>> Found 12 compiler runner errors <<<");
}
