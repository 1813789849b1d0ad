use delo::error::ScanError;
use delo::scanner::Scanner;
use delo::token::{Literal, Token, TokenType};

fn scan(source: &str) -> Result<Vec<Token>, Vec<ScanError>> {
    let mut scanner = Scanner::new(source.to_string());
    scanner.scan_tokens()
}

fn kinds(tokens: &[Token]) -> Vec<TokenType> {
    tokens.iter().map(|t| t.token_type).collect()
}

#[test]
fn empty_source_gives_only_eof() {
    let tokens = scan("").unwrap();
    assert_eq!(kinds(&tokens), vec![TokenType::Eof]);
    assert_eq!(tokens[0].line, 1);
    assert_eq!(tokens[0].column, 1);
}

#[test]
fn variable_declaration_tokens() {
    let tokens = scan("var x: Int = 42").unwrap();
    assert_eq!(
        kinds(&tokens),
        vec![
            TokenType::Var,
            TokenType::Identifier,
            TokenType::Colon,
            TokenType::Identifier,
            TokenType::Equal,
            TokenType::Number,
            TokenType::Eof
        ]
    );
    assert_eq!(tokens[1].lexeme, "x");
    assert_eq!(tokens[1].column, 5);
    assert_eq!(tokens[5].lexeme, "42");
    assert!(matches!(&tokens[5].literal, Some(Literal::Number(n)) if n == "42"));
}

#[test]
fn operators_take_the_longest_match() {
    let tokens = scan("== => >= <= += ++ -= -> -- ?? ..= .. @= @- && ||").unwrap();
    assert_eq!(
        kinds(&tokens),
        vec![
            TokenType::EqualEqual,
            TokenType::EqualGreater,
            TokenType::GreaterEqual,
            TokenType::LessEqual,
            TokenType::PlusEqual,
            TokenType::PlusPlus,
            TokenType::MinusEqual,
            TokenType::MinusGreater,
            TokenType::MinusMinus,
            TokenType::QuestionQuestion,
            TokenType::DotDotEqual,
            TokenType::DotDot,
            TokenType::AtEqual,
            TokenType::AtMinus,
            TokenType::AmpersandAmpersand,
            TokenType::PipePipe,
            TokenType::Eof
        ]
    );
}

#[test]
fn keywords_are_recognized() {
    let tokens = scan("var enum struct fn if else match for while break continue in other").unwrap();
    assert_eq!(
        kinds(&tokens),
        vec![
            TokenType::Var,
            TokenType::Enum,
            TokenType::Struct,
            TokenType::Fn,
            TokenType::If,
            TokenType::Else,
            TokenType::Match,
            TokenType::For,
            TokenType::While,
            TokenType::Break,
            TokenType::Continue,
            TokenType::In,
            TokenType::Identifier,
            TokenType::Eof
        ]
    );
}

#[test]
fn string_literal_keeps_its_contents() {
    let tokens = scan("\"hello world\"").unwrap();
    assert_eq!(tokens[0].token_type, TokenType::String);
    assert_eq!(tokens[0].lexeme, "\"hello world\"");
    assert!(matches!(&tokens[0].literal, Some(Literal::String(s)) if s == "hello world"));
}

#[test]
fn decimal_number_is_one_token() {
    let tokens = scan("3.25 7.").unwrap();
    assert_eq!(kinds(&tokens), vec![TokenType::Number, TokenType::Number, TokenType::Dot, TokenType::Eof]);
    assert_eq!(tokens[0].lexeme, "3.25");
    assert_eq!(tokens[1].lexeme, "7");
}

#[test]
fn comments_are_skipped_and_lines_counted() {
    let tokens = scan("a // note\n/* block\ncomment */ b").unwrap();
    assert_eq!(kinds(&tokens), vec![TokenType::Identifier, TokenType::Identifier, TokenType::Eof]);
    assert_eq!(tokens[0].line, 1);
    assert_eq!(tokens[1].line, 3);
    assert_eq!(tokens[1].column, 12);
}

#[test]
fn unexpected_character_is_reported_where_it_stands() {
    let errors = scan("a\n  $").unwrap_err();
    assert_eq!(errors, vec![ScanError::UnexpectedCharacter { line: 2, column: 3, character: '$' }]);
}

#[test]
fn unterminated_string_is_reported_at_the_end() {
    let errors = scan("\"abc").unwrap_err();
    assert_eq!(errors, vec![ScanError::UnterminatedString { line: 1, column: 5 }]);
}

#[test]
fn unterminated_block_comment_is_reported_at_the_end() {
    let errors = scan("/* never\nclosed").unwrap_err();
    assert_eq!(errors, vec![ScanError::UnterminatedBlockComment { line: 2, column: 7 }]);
}

#[test]
fn all_errors_are_reported_in_order() {
    let errors = scan("$ # \"x").unwrap_err();
    assert_eq!(
        errors,
        vec![
            ScanError::UnexpectedCharacter { line: 1, column: 1, character: '$' },
            ScanError::UnexpectedCharacter { line: 1, column: 3, character: '#' },
            ScanError::UnterminatedString { line: 1, column: 7 },
        ]
    );
}

#[test]
fn lone_ampersand_pipe_and_at_start_no_token() {
    let tokens = scan("& | @ x").unwrap();
    assert_eq!(kinds(&tokens), vec![TokenType::Identifier, TokenType::Eof]);
}

#[test]
fn token_stream_ends_with_exactly_one_eof() {
    let tokens = scan("fn f() { 1 + 2 }").unwrap();
    let eofs = tokens.iter().filter(|t| t.token_type == TokenType::Eof).count();
    assert_eq!(eofs, 1);
    assert_eq!(tokens.last().unwrap().token_type, TokenType::Eof);
}

#[test]
fn lexemes_are_slices_of_the_source() {
    let source = "var total = count * 2";
    let tokens = scan(source).unwrap();
    for token in &tokens {
        assert!(source.contains(token.lexeme.as_str()));
    }
}
