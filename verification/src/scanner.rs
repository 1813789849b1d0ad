use vstd::prelude::*;
use crate::token::{literal_view, tokens_view, Literal, LiteralView, Token, TokenType, TokenView};
use crate::error::ScanError;
use crate::text::chars_of;

verus! {

/// What one scanning step, started at a character of the source, finds.
#[derive(Debug, Clone, Copy, PartialEq, Eq, Structural)]
pub enum Lexeme {
    /// Whitespace, a comment, or an `@`, `&` or `|` that starts no token.
    Skip,
    /// A token with no literal value: punctuation or an operator.
    Simple(TokenType),
    /// A string literal, quotes included.
    StringLiteral,
    /// A numeral.
    NumberLiteral,
    /// An identifier or a keyword.
    Word,
    UnexpectedCharacter(char),
    UnterminatedString,
    UnterminatedBlockComment,
}

/// The character at `j`, or `'\0'` past either end.
pub open spec fn char_at(src: Seq<char>, j: int) -> char {
    if 0 <= j < src.len() { src[j] } else { '\0' }
}

pub open spec fn is_digit(c: char) -> bool {
    '0' <= c && c <= '9'
}

pub open spec fn is_alpha(c: char) -> bool {
    ('a' <= c && c <= 'z') || ('A' <= c && c <= 'Z') || c == '_'
}

pub open spec fn is_alpha_numeric(c: char) -> bool {
    is_alpha(c) || is_digit(c)
}

/// The first position at or after `j` that does not hold a digit.
pub open spec fn digits_end(src: Seq<char>, j: int) -> int
    decreases src.len() - j,
{
    if 0 <= j < src.len() && is_digit(src[j]) { digits_end(src, j + 1) } else { j }
}

/// The first position at or after `j` that does not hold a letter, a digit or `_`.
pub open spec fn word_end(src: Seq<char>, j: int) -> int
    decreases src.len() - j,
{
    if 0 <= j < src.len() && is_alpha_numeric(src[j]) { word_end(src, j + 1) } else { j }
}

/// The first position at or after `j` that holds a line break, or the end.
pub open spec fn line_comment_end(src: Seq<char>, j: int) -> int
    decreases src.len() - j,
{
    if 0 <= j < src.len() && src[j] != '\n' { line_comment_end(src, j + 1) } else { j }
}

/// The position just after the first `*/` at or after `j`, if there is one.
pub open spec fn block_comment_end(src: Seq<char>, j: int) -> Option<int>
    decreases src.len() - j,
{
    if j < 0 || j >= src.len() {
        None
    } else if src[j] == '*' && char_at(src, j + 1) == '/' {
        Some(j + 2)
    } else {
        block_comment_end(src, j + 1)
    }
}

/// The position just after the first `"` at or after `j`, if there is one.
pub open spec fn string_end(src: Seq<char>, j: int) -> Option<int>
    decreases src.len() - j,
{
    if j < 0 || j >= src.len() {
        None
    } else if src[j] == '"' {
        Some(j + 1)
    } else {
        string_end(src, j + 1)
    }
}

/// The end of a numeral that starts at `i`: digits, then optionally a `.`
/// followed by at least one digit and then more digits.
pub open spec fn number_end(src: Seq<char>, i: int) -> int {
    let d = digits_end(src, i + 1);
    if char_at(src, d) == '.' && is_digit(char_at(src, d + 1)) {
        digits_end(src, d + 1)
    } else {
        d
    }
}

/// The token kind of a one-character token.
pub open spec fn single_char_token(c: char) -> Option<TokenType> {
    match c {
        '(' => Some(TokenType::LeftParen),
        ')' => Some(TokenType::RightParen),
        '{' => Some(TokenType::LeftBrace),
        '}' => Some(TokenType::RightBrace),
        '[' => Some(TokenType::LeftBracket),
        ']' => Some(TokenType::RightBracket),
        ',' => Some(TokenType::Comma),
        ':' => Some(TokenType::Colon),
        ';' => Some(TokenType::Semicolon),
        '_' => Some(TokenType::Underscore),
        _ => None,
    }
}

/// The token kind of a word: a keyword's own kind, or `Identifier`.
pub open spec fn keyword_type(w: Seq<char>) -> TokenType {
    if false {
        TokenType::Identifier
    } else if w =~= seq!['v', 'a', 'r'] {
        TokenType::Var
    } else if w =~= seq!['e', 'n', 'u', 'm'] {
        TokenType::Enum
    } else if w =~= seq!['s', 't', 'r', 'u', 'c', 't'] {
        TokenType::Struct
    } else if w =~= seq!['f', 'n'] {
        TokenType::Fn
    } else if w =~= seq!['i', 'f'] {
        TokenType::If
    } else if w =~= seq!['e', 'l', 's', 'e'] {
        TokenType::Else
    } else if w =~= seq!['m', 'a', 't', 'c', 'h'] {
        TokenType::Match
    } else if w =~= seq!['f', 'o', 'r'] {
        TokenType::For
    } else if w =~= seq!['w', 'h', 'i', 'l', 'e'] {
        TokenType::While
    } else if w =~= seq!['b', 'r', 'e', 'a', 'k'] {
        TokenType::Break
    } else if w =~= seq!['c', 'o', 'n', 't', 'i', 'n', 'u', 'e'] {
        TokenType::Continue
    } else if w =~= seq!['i', 'n'] {
        TokenType::In
    } else {
        TokenType::Identifier
    }
}

/// `c` followed by `=` gives `with_equal`, otherwise `plain`.
pub open spec fn with_equal(src: Seq<char>, i: int, with_eq: TokenType, plain: TokenType) -> (int, Lexeme) {
    if char_at(src, i + 1) == '=' {
        (i + 2, Lexeme::Simple(with_eq))
    } else {
        (i + 1, Lexeme::Simple(plain))
    }
}

/// One scanning step from position `i`: where it ends and what it found.
pub open spec fn lex_step(src: Seq<char>, i: int) -> (int, Lexeme) {
    let c = char_at(src, i);
    let n1 = char_at(src, i + 1);
    let n2 = char_at(src, i + 2);
    if single_char_token(c) is Some {
        (i + 1, Lexeme::Simple(single_char_token(c).unwrap()))
    } else if c == '@' {
        if n1 == '=' {
            (i + 2, Lexeme::Simple(TokenType::AtEqual))
        } else if n1 == '-' {
            (i + 2, Lexeme::Simple(TokenType::AtMinus))
        } else {
            (i + 1, Lexeme::Skip)
        }
    } else if c == '&' {
        if n1 == '&' { (i + 2, Lexeme::Simple(TokenType::AmpersandAmpersand)) } else { (i + 1, Lexeme::Skip) }
    } else if c == '|' {
        if n1 == '|' { (i + 2, Lexeme::Simple(TokenType::PipePipe)) } else { (i + 1, Lexeme::Skip) }
    } else if c == '!' {
        with_equal(src, i, TokenType::ExclamationEqual, TokenType::Exclamation)
    } else if c == '=' {
        if n1 == '=' {
            (i + 2, Lexeme::Simple(TokenType::EqualEqual))
        } else if n1 == '>' {
            (i + 2, Lexeme::Simple(TokenType::EqualGreater))
        } else {
            (i + 1, Lexeme::Simple(TokenType::Equal))
        }
    } else if c == '>' {
        with_equal(src, i, TokenType::GreaterEqual, TokenType::Greater)
    } else if c == '<' {
        with_equal(src, i, TokenType::LessEqual, TokenType::Less)
    } else if c == '+' {
        if n1 == '=' {
            (i + 2, Lexeme::Simple(TokenType::PlusEqual))
        } else if n1 == '+' {
            (i + 2, Lexeme::Simple(TokenType::PlusPlus))
        } else {
            (i + 1, Lexeme::Simple(TokenType::Plus))
        }
    } else if c == '-' {
        if n1 == '=' {
            (i + 2, Lexeme::Simple(TokenType::MinusEqual))
        } else if n1 == '>' {
            (i + 2, Lexeme::Simple(TokenType::MinusGreater))
        } else if n1 == '-' {
            (i + 2, Lexeme::Simple(TokenType::MinusMinus))
        } else {
            (i + 1, Lexeme::Simple(TokenType::Minus))
        }
    } else if c == '*' {
        with_equal(src, i, TokenType::StarEqual, TokenType::Star)
    } else if c == '/' {
        if n1 == '/' {
            (line_comment_end(src, i + 2), Lexeme::Skip)
        } else if n1 == '*' {
            match block_comment_end(src, i + 2) {
                Some(e) => (e, Lexeme::Skip),
                None => (src.len() as int, Lexeme::UnterminatedBlockComment),
            }
        } else {
            with_equal(src, i, TokenType::SlashEqual, TokenType::Slash)
        }
    } else if c == '%' {
        with_equal(src, i, TokenType::PercentEqual, TokenType::Percent)
    } else if c == '^' {
        with_equal(src, i, TokenType::CaretEqual, TokenType::Caret)
    } else if c == '?' {
        if n1 == '?' {
            (i + 2, Lexeme::Simple(TokenType::QuestionQuestion))
        } else {
            (i + 1, Lexeme::Simple(TokenType::Question))
        }
    } else if c == '.' {
        if n1 == '.' {
            if n2 == '=' {
                (i + 3, Lexeme::Simple(TokenType::DotDotEqual))
            } else {
                (i + 2, Lexeme::Simple(TokenType::DotDot))
            }
        } else {
            (i + 1, Lexeme::Simple(TokenType::Dot))
        }
    } else if c == ' ' || c == '\r' || c == '\t' || c == '\n' {
        (i + 1, Lexeme::Skip)
    } else if c == '"' {
        match string_end(src, i + 1) {
            Some(e) => (e, Lexeme::StringLiteral),
            None => (src.len() as int, Lexeme::UnterminatedString),
        }
    } else if is_digit(c) {
        (number_end(src, i), Lexeme::NumberLiteral)
    } else if is_alpha(c) {
        (word_end(src, i + 1), Lexeme::Word)
    } else {
        (i + 1, Lexeme::UnexpectedCharacter(c))
    }
}

/// Where a line and column stand after one more character.
pub open spec fn advance_char(c: char, line: int, column: int) -> (int, int) {
    if c == '\n' { (line + 1, 1) } else { (line, column + 1) }
}

/// Where a line and column stand after the characters of `s`.
pub open spec fn advance_over(s: Seq<char>, line: int, column: int) -> (int, int)
    decreases s.len(),
{
    if s.len() == 0 {
        (line, column)
    } else {
        let p = advance_over(s.drop_last(), line, column);
        advance_char(s.last(), p.0, p.1)
    }
}

pub open spec fn token_view(
    token_type: TokenType,
    lexeme: Seq<char>,
    literal: Option<LiteralView>,
    line: int,
    column: int,
) -> TokenView {
    TokenView { token_type, lexeme, literal, line: line as u32, column: column as u32 }
}

pub open spec fn eof_token(line: int, column: int) -> TokenView {
    token_view(TokenType::Eof, Seq::empty(), None, line, column)
}

/// The tokens and errors that scanning `src` from position `i`, at the given
/// line and column, yields.  A token carries the line on which it ends and
/// the column at which it starts; the token list always ends with `Eof`.
pub open spec fn scan_from(src: Seq<char>, i: int, line: int, column: int) -> (Seq<TokenView>, Seq<ScanError>)
    decreases src.len() - i,
{
    if i < 0 || i >= src.len() {
        (seq![eof_token(line, column)], Seq::empty())
    } else {
        let (end, lexeme_kind) = lex_step(src, i);
        proof {
            lemma_lex_step_advances(src, i);
        }
        let p = advance_over(src.subrange(i, end), line, column);
        let rest = scan_from(src, end, p.0, p.1);
        let lexeme = src.subrange(i, end);
        match lexeme_kind {
            Lexeme::Skip => rest,
            Lexeme::Simple(t) => (seq![token_view(t, lexeme, None, p.0, column)] + rest.0, rest.1),
            Lexeme::StringLiteral => (
                seq![token_view(TokenType::String, lexeme, Some(LiteralView::String(src.subrange(i + 1, end - 1))), p.0, column)] + rest.0,
                rest.1,
            ),
            Lexeme::NumberLiteral => (
                seq![token_view(TokenType::Number, lexeme, Some(LiteralView::Number(lexeme)), p.0, column)] + rest.0,
                rest.1,
            ),
            Lexeme::Word => (seq![token_view(keyword_type(lexeme), lexeme, None, p.0, column)] + rest.0, rest.1),
            Lexeme::UnexpectedCharacter(c) => (
                rest.0,
                seq![ScanError::UnexpectedCharacter { line: line as u32, column: column as u32, character: c }] + rest.1,
            ),
            Lexeme::UnterminatedString => (
                rest.0,
                seq![ScanError::UnterminatedString { line: p.0 as u32, column: p.1 as u32 }] + rest.1,
            ),
            Lexeme::UnterminatedBlockComment => (
                rest.0,
                seq![ScanError::UnterminatedBlockComment { line: p.0 as u32, column: p.1 as u32 }] + rest.1,
            ),
        }
    }
}

/// The tokens and errors of a whole source text, scanned from line 1, column 1.
pub open spec fn scan(src: Seq<char>) -> (Seq<TokenView>, Seq<ScanError>) {
    scan_from(src, 0, 1, 1)
}

pub proof fn lemma_digits_end(src: Seq<char>, j: int)
    requires
        0 <= j,
    ensures
        j <= digits_end(src, j),
        digits_end(src, j) <= src.len() || digits_end(src, j) == j,
        forall|k: int| j <= k < digits_end(src, j) ==> is_digit(#[trigger] src[k]),
    decreases src.len() - j,
{
    if 0 <= j < src.len() && is_digit(src[j]) {
        lemma_digits_end(src, j + 1);
    }
}

pub proof fn lemma_word_end(src: Seq<char>, j: int)
    requires
        0 <= j,
    ensures
        j <= word_end(src, j),
        word_end(src, j) <= src.len() || word_end(src, j) == j,
        forall|k: int| j <= k < word_end(src, j) ==> is_alpha_numeric(#[trigger] src[k]),
    decreases src.len() - j,
{
    if 0 <= j < src.len() && is_alpha_numeric(src[j]) {
        lemma_word_end(src, j + 1);
    }
}

pub proof fn lemma_line_comment_end(src: Seq<char>, j: int)
    requires
        0 <= j,
    ensures
        j <= line_comment_end(src, j),
        line_comment_end(src, j) <= src.len() || line_comment_end(src, j) == j,
    decreases src.len() - j,
{
    if 0 <= j < src.len() && src[j] != '\n' {
        lemma_line_comment_end(src, j + 1);
    }
}

pub proof fn lemma_block_comment_end(src: Seq<char>, j: int)
    requires
        0 <= j,
    ensures
        block_comment_end(src, j) matches Some(e) ==> j + 2 <= e <= src.len(),
    decreases src.len() - j,
{
    if 0 <= j < src.len() && !(src[j] == '*' && char_at(src, j + 1) == '/') {
        lemma_block_comment_end(src, j + 1);
    }
}

pub proof fn lemma_string_end(src: Seq<char>, j: int)
    requires
        0 <= j,
    ensures
        string_end(src, j) matches Some(e) ==> j + 1 <= e <= src.len() && src[e - 1] == '"',
    decreases src.len() - j,
{
    if 0 <= j < src.len() && src[j] != '"' {
        lemma_string_end(src, j + 1);
    }
}

/// A scanning step consumes at least one character and stays within the source.
pub proof fn lemma_lex_step_advances(src: Seq<char>, i: int)
    requires
        0 <= i < src.len(),
    ensures
        i < lex_step(src, i).0 <= src.len(),
{
    lemma_digits_end(src, i + 1);
    let d = digits_end(src, i + 1);
    lemma_digits_end(src, d + 1);
    lemma_word_end(src, i + 1);
    lemma_line_comment_end(src, i + 2);
    lemma_block_comment_end(src, i + 2);
    lemma_string_end(src, i + 1);
}

/// Advancing over characters never moves a position backwards, and moves it
/// by at most one line or one column per character.
pub proof fn lemma_advance_over_bounds(s: Seq<char>, line: int, column: int)
    requires
        1 <= column,
    ensures
        line <= advance_over(s, line, column).0 <= line + s.len(),
        1 <= advance_over(s, line, column).1 <= column + s.len(),
    decreases s.len(),
{
    if s.len() > 0 {
        lemma_advance_over_bounds(s.drop_last(), line, column);
    }
}

/// A scanning step finds no `Eof`: that token only stands at the end.
proof fn lemma_lex_step_not_eof(src: Seq<char>, i: int)
    requires
        0 <= i < src.len(),
    ensures
        lex_step(src, i).1 matches Lexeme::Simple(t) ==> t != TokenType::Eof,
        keyword_type(src.subrange(i, lex_step(src, i).0)) != TokenType::Eof,
{
}

/// Law: the tokens of any scan end with exactly one `Eof`, and it is the
/// last token.
pub proof fn law_single_trailing_eof(src: Seq<char>, i: int, line: int, column: int)
    ensures
        scan_from(src, i, line, column).0.len() >= 1,
        scan_from(src, i, line, column).0.last().token_type == TokenType::Eof,
        forall|k: int|
            0 <= k < scan_from(src, i, line, column).0.len() - 1
                ==> #[trigger] scan_from(src, i, line, column).0[k].token_type != TokenType::Eof,
    decreases src.len() - i,
{
    if 0 <= i < src.len() {
        let (end, kind) = lex_step(src, i);
        lemma_lex_step_advances(src, i);
        lemma_lex_step_not_eof(src, i);
        let p = advance_over(src.subrange(i, end), line, column);
        law_single_trailing_eof(src, end, p.0, p.1);
        let rest = scan_from(src, end, p.0, p.1);
        let all = scan_from(src, i, line, column).0;
        if !(kind is Skip || kind is UnexpectedCharacter || kind is UnterminatedString || kind is UnterminatedBlockComment) {
            assert forall|k: int| 0 <= k < all.len() - 1 implies #[trigger] all[k].token_type != TokenType::Eof by {
                if k > 0 {
                    assert(all[k] == rest.0[k - 1]);
                }
            }
        }
    }
}

/// The operators written with two characters, by those characters.
pub open spec fn operator_pair(a: char, b: char) -> Option<TokenType> {
    if b == '=' && a == '!' {
        Some(TokenType::ExclamationEqual)
    } else if b == '=' && a == '=' {
        Some(TokenType::EqualEqual)
    } else if b == '=' && a == '<' {
        Some(TokenType::LessEqual)
    } else if b == '=' && a == '>' {
        Some(TokenType::GreaterEqual)
    } else if b == '=' && a == '+' {
        Some(TokenType::PlusEqual)
    } else if b == '=' && a == '-' {
        Some(TokenType::MinusEqual)
    } else if b == '=' && a == '*' {
        Some(TokenType::StarEqual)
    } else if b == '=' && a == '/' {
        Some(TokenType::SlashEqual)
    } else if b == '=' && a == '%' {
        Some(TokenType::PercentEqual)
    } else if b == '=' && a == '^' {
        Some(TokenType::CaretEqual)
    } else if b == '=' && a == '@' {
        Some(TokenType::AtEqual)
    } else if a == '@' && b == '-' {
        Some(TokenType::AtMinus)
    } else if a == '+' && b == '+' {
        Some(TokenType::PlusPlus)
    } else if a == '-' && b == '-' {
        Some(TokenType::MinusMinus)
    } else if a == '-' && b == '>' {
        Some(TokenType::MinusGreater)
    } else if a == '=' && b == '>' {
        Some(TokenType::EqualGreater)
    } else if a == '&' && b == '&' {
        Some(TokenType::AmpersandAmpersand)
    } else if a == '|' && b == '|' {
        Some(TokenType::PipePipe)
    } else if a == '?' && b == '?' {
        Some(TokenType::QuestionQuestion)
    } else {
        None
    }
}

/// Law: longest match.  Where the source holds the two characters of an
/// operator, scanning from there gives that operator as one token, whose
/// lexeme is exactly those two characters and which starts at the current
/// column; the next token is scanned from after both.
pub proof fn law_two_character_operators(src: Seq<char>, i: int, line: int, column: int)
    requires
        0 <= i,
        i + 1 < src.len(),
        operator_pair(src[i], src[i + 1]) is Some,
    ensures
        ({
            let first = scan_from(src, i, line, column).0[0];
            &&& first.token_type == operator_pair(src[i], src[i + 1]).unwrap()
            &&& first.lexeme == seq![src[i], src[i + 1]]
            &&& first.column == column as u32
            &&& first.literal is None
        }),
{
    lemma_lex_step_advances(src, i);
    assert(src.subrange(i, i + 2) =~= seq![src[i], src[i + 1]]);
}

/// Moving over `a` then `b` is moving over `a + b`.
pub proof fn lemma_advance_over_concat(a: Seq<char>, b: Seq<char>, line: int, column: int)
    ensures
        advance_over(a + b, line, column) == ({
            let p = advance_over(a, line, column);
            advance_over(b, p.0, p.1)
        }),
    decreases b.len(),
{
    if b.len() == 0 {
        assert(a + b =~= a);
    } else {
        lemma_advance_over_concat(a, b.drop_last(), line, column);
        assert((a + b).drop_last() =~= a + b.drop_last());
        assert((a + b).last() == b.last());
    }
}

/// Law: the final `Eof` stands at the line and column reached by moving
/// over the rest of the source from the starting line and column.
pub proof fn law_eof_position(src: Seq<char>, i: int, line: int, column: int)
    requires
        0 <= i <= src.len(),
    ensures
        ({
            let q = advance_over(src.subrange(i, src.len() as int), line, column);
            scan_from(src, i, line, column).0.last() == eof_token(q.0, q.1)
        }),
    decreases src.len() - i,
{
    if i < src.len() {
        let (end, kind) = lex_step(src, i);
        lemma_lex_step_advances(src, i);
        let p = advance_over(src.subrange(i, end), line, column);
        law_eof_position(src, end, p.0, p.1);
        law_single_trailing_eof(src, end, p.0, p.1);
        lemma_advance_over_concat(src.subrange(i, end), src.subrange(end, src.len() as int), line, column);
        assert(src.subrange(i, end) + src.subrange(end, src.len() as int) =~= src.subrange(i, src.len() as int));
        let rest = scan_from(src, end, p.0, p.1);
        let all = scan_from(src, i, line, column).0;
        if !(kind is Skip || kind is UnexpectedCharacter || kind is UnterminatedString || kind is UnterminatedBlockComment) {
            assert(all.last() == rest.0.last());
        }
    } else {
        assert(src.subrange(i, src.len() as int) =~= Seq::<char>::empty());
    }
}

/// Law: every token before the final `Eof` was scanned from a non-empty
/// stretch of the source that lies at or after the starting position, and
/// its lexeme is exactly that stretch.
pub proof fn law_lexemes_are_source_slices(src: Seq<char>, i: int, line: int, column: int)
    requires
        0 <= i,
    ensures
        forall|k: int|
            0 <= k < scan_from(src, i, line, column).0.len() - 1 ==> exists|a: int, b: int|
                i <= a < b <= src.len() && #[trigger] scan_from(src, i, line, column).0[k].lexeme == src.subrange(a, b),
    decreases src.len() - i,
{
    if i < src.len() {
        let (end, kind) = lex_step(src, i);
        lemma_lex_step_advances(src, i);
        let p = advance_over(src.subrange(i, end), line, column);
        law_lexemes_are_source_slices(src, end, p.0, p.1);
        let rest = scan_from(src, end, p.0, p.1);
        let all = scan_from(src, i, line, column).0;
        assert forall|k: int| 0 <= k < all.len() - 1 implies exists|a: int, b: int|
            i <= a < b <= src.len() && #[trigger] all[k].lexeme == src.subrange(a, b) by {
            if kind is Skip || kind is UnexpectedCharacter || kind is UnterminatedString || kind is UnterminatedBlockComment {
                assert(all[k] == rest.0[k]);
                let (a, b) = choose|a: int, b: int| end <= a < b <= src.len() && rest.0[k].lexeme == src.subrange(a, b);
                assert(i <= a < b <= src.len() && all[k].lexeme == src.subrange(a, b));
            } else if k == 0 {
                assert(all[k].lexeme == src.subrange(i, end));
            } else {
                assert(all[k] == rest.0[k - 1]);
                let (a, b) = choose|a: int, b: int| end <= a < b <= src.len() && rest.0[k - 1].lexeme == src.subrange(a, b);
                assert(i <= a < b <= src.len() && all[k].lexeme == src.subrange(a, b));
            }
        }
    }
}

/// Scans source text into tokens.
pub struct Scanner {
    source: Vec<char>,
    tokens: Vec<Token>,
    errors: Vec<ScanError>,
    start: usize,
    current: usize,
    line: u32,
    column: u32,
}

impl Scanner {
    /// The source text being scanned.
    pub closed spec fn source(&self) -> Seq<char> {
        self.source@
    }

    /// The position up to which the source has been scanned.
    pub closed spec fn position(&self) -> int {
        self.current as int
    }

    /// The line and column at the scanning position.
    pub closed spec fn line(&self) -> int {
        self.line as int
    }

    pub closed spec fn column(&self) -> int {
        self.column as int
    }

    /// The tokens and errors found so far and not yet handed out.
    pub closed spec fn pending_tokens(&self) -> Seq<TokenView> {
        tokens_view(self.tokens@)
    }

    pub closed spec fn pending_errors(&self) -> Seq<ScanError> {
        self.errors@
    }

    pub closed spec fn wf(&self) -> bool {
        &&& self.current <= self.source@.len()
        &&& self.source@.len() < u32::MAX
        &&& 1 <= self.line <= 1 + self.current
        &&& 1 <= self.column <= 1 + self.current
    }

    /// A scanner at the start of `source`.
    pub fn new(source: String) -> (s: Scanner)
        requires
            source@.len() < u32::MAX,
        ensures
            s.wf(),
            s.source() == source@,
            s.position() == 0,
            s.line() == 1,
            s.column() == 1,
            s.pending_tokens() == Seq::<TokenView>::empty(),
            s.pending_errors() == Seq::<ScanError>::empty(),
    {
        let chars = chars_of(source.as_str());
        let s = Scanner {
            source: chars,
            tokens: Vec::new(),
            errors: Vec::new(),
            start: 0,
            current: 0,
            line: 1,
            column: 1,
        };
        proof {
            assert(tokens_view(s.tokens@) =~= Seq::<TokenView>::empty());
        }
        s
    }

    /// Scans the rest of the source.  The tokens end with `Eof`; the result
    /// is `Ok` exactly when no error was found, and then holds all tokens,
    /// otherwise it holds all errors in the order in which they were found.
    pub fn scan_tokens(&mut self) -> (r: Result<Vec<Token>, Vec<ScanError>>)
        requires
            old(self).wf(),
        ensures
            final(self).wf(),
            final(self).source() == old(self).source(),
            final(self).position() == old(self).source().len(),
            final(self).pending_tokens() == Seq::<TokenView>::empty(),
            final(self).pending_errors() == Seq::<ScanError>::empty(),
            ({
                let found = scan_from(old(self).source(), old(self).position(), old(self).line(), old(self).column());
                let all_tokens = old(self).pending_tokens() + found.0;
                let all_errors = old(self).pending_errors() + found.1;
                match r {
                    Ok(ts) => all_errors.len() == 0 && tokens_view(ts@) == all_tokens,
                    Err(es) => all_errors.len() > 0 && es@ == all_errors,
                }
            }),
    {
        let ghost src = self.source@;
        let ghost found = scan_from(src, self.current as int, self.line as int, self.column as int);
        let ghost all_tokens = tokens_view(self.tokens@) + found.0;
        let ghost all_errors = self.errors@ + found.1;
        let n = self.source.len();
        while self.current < n
            invariant
                self.wf(),
                self.source@ == src,
                n == src.len(),
                tokens_view(self.tokens@) + scan_from(src, self.current as int, self.line as int, self.column as int).0 == all_tokens,
                self.errors@ + scan_from(src, self.current as int, self.line as int, self.column as int).1 == all_errors,
            decreases n - self.current,
        {
            self.start = self.current;
            let start_line = self.line;
            let start_column = self.column;
            let ghost before_tokens = tokens_view(self.tokens@);
            let ghost before_errors = self.errors@;
            let (end, kind) = self.scan_token();
            proof {
                lemma_lex_step_advances(src, self.start as int);
            }
            self.advance_to(end);
            let ghost p = advance_over(src.subrange(self.start as int, end as int), start_line as int, start_column as int);
            let ghost rest = scan_from(src, end as int, p.0, p.1);
            assert(self.line == p.0 && self.column == p.1);
            match kind {
                Lexeme::Skip => {},
                Lexeme::Simple(t) => {
                    let lexeme = self.text_between(self.start, end);
                    self.add_token(t, lexeme, None, start_column);
                },
                Lexeme::StringLiteral => {
                    proof {
                        lemma_string_end(src, self.start + 1);
                    }
                    let lexeme = self.text_between(self.start, end);
                    let value = self.text_between(self.start + 1, end - 1);
                    self.add_token(TokenType::String, lexeme, Some(Literal::String(value)), start_column);
                },
                Lexeme::NumberLiteral => {
                    let lexeme = self.text_between(self.start, end);
                    let value = self.text_between(self.start, end);
                    self.add_token(TokenType::Number, lexeme, Some(Literal::Number(value)), start_column);
                },
                Lexeme::Word => {
                    let token_type = self.word_type(self.start, end);
                    let lexeme = self.text_between(self.start, end);
                    self.add_token(token_type, lexeme, None, start_column);
                },
                Lexeme::UnexpectedCharacter(c) => {
                    self.errors.push(ScanError::UnexpectedCharacter { line: start_line, column: start_column, character: c });
                },
                Lexeme::UnterminatedString => {
                    self.errors.push(ScanError::UnterminatedString { line: self.line, column: self.column });
                },
                Lexeme::UnterminatedBlockComment => {
                    self.errors.push(ScanError::UnterminatedBlockComment { line: self.line, column: self.column });
                },
            }
            proof {
                assert(tokens_view(self.tokens@) + rest.0 =~= before_tokens + scan_from(src, self.start as int, start_line as int, start_column as int).0);
                assert(self.errors@ + rest.1 =~= before_errors + scan_from(src, self.start as int, start_line as int, start_column as int).1);
            }
        }
        let eof = Token {
            token_type: TokenType::Eof,
            lexeme: String::new(),
            literal: None,
            line: self.line,
            column: self.column,
        };
        self.tokens.push(eof);
        let mut tokens: Vec<Token> = Vec::new();
        std::mem::swap(&mut tokens, &mut self.tokens);
        let mut errors: Vec<ScanError> = Vec::new();
        std::mem::swap(&mut errors, &mut self.errors);
        proof {
            assert(tokens_view(tokens@) =~= all_tokens);
            assert(tokens_view(self.tokens@) =~= Seq::<TokenView>::empty());
        }
        if errors.len() == 0 {
            Ok(tokens)
        } else {
            Err(errors)
        }
    }

    /// Appends a token that ends at the scanning position.
    fn add_token(&mut self, token_type: TokenType, lexeme: String, literal: Option<Literal>, column: u32)
        ensures
            final(self).source@ == old(self).source@,
            final(self).current == old(self).current,
            final(self).line == old(self).line,
            final(self).column == old(self).column,
            final(self).start == old(self).start,
            final(self).errors@ == old(self).errors@,
            tokens_view(final(self).tokens@) == tokens_view(old(self).tokens@).push(
                TokenView { token_type, lexeme: lexeme@, literal: literal_view(literal), line: old(self).line, column },
            ),
    {
        let line = self.line;
        self.tokens.push(Token { token_type, lexeme, literal, line, column });
        proof {
            assert(tokens_view(self.tokens@) =~= tokens_view(old(self).tokens@).push(self.tokens@.last()@));
        }
    }

    /// The source text between two positions.
    fn text_between(&self, from: usize, to: usize) -> (s: String)
        requires
            from <= to <= self.source@.len(),
        ensures
            s@ == self.source@.subrange(from as int, to as int),
    {
        let mut s = String::new();
        let mut k = from;
        while k < to
            invariant
                from <= k <= to <= self.source@.len(),
                s@ == self.source@.subrange(from as int, k as int),
            decreases to - k,
        {
            s.push(self.source[k]);
            k = k + 1;
            assert(s@ =~= self.source@.subrange(from as int, k as int));
        }
        s
    }

    /// Moves the scanning position forward to `end`, keeping line and column.
    fn advance_to(&mut self, end: usize)
        requires
            old(self).wf(),
            old(self).current < end <= old(self).source@.len(),
        ensures
            final(self).wf(),
            final(self).source@ == old(self).source@,
            final(self).current == end,
            final(self).start == old(self).start,
            final(self).tokens@ == old(self).tokens@,
            final(self).errors@ == old(self).errors@,
            (final(self).line as int, final(self).column as int) == advance_over(
                old(self).source@.subrange(old(self).current as int, end as int),
                old(self).line as int,
                old(self).column as int,
            ),
    {
        let ghost from = self.current as int;
        let ghost l0 = self.line as int;
        let ghost c0 = self.column as int;
        assert(old(self).source@.subrange(from, from) =~= Seq::<char>::empty());
        while self.current < end
            invariant
                self.wf(),
                self.source@ == old(self).source@,
                from == old(self).current,
                from <= self.current <= end <= self.source@.len(),
                self.start == old(self).start,
                self.tokens@ == old(self).tokens@,
                self.errors@ == old(self).errors@,
                (self.line as int, self.column as int) == advance_over(self.source@.subrange(from, self.current as int), l0, c0),
            decreases end - self.current,
        {
            let ghost k = self.current as int;
            let ghost src = self.source@;
            let c = self.advance();
            assert(src.subrange(from, k + 1).drop_last() =~= src.subrange(from, k));
            assert(src.subrange(from, k + 1).last() == c);
        }
    }

    /// Consumes one character, moving the line and column past it.
    fn advance(&mut self) -> (c: char)
        requires
            old(self).wf(),
            old(self).current < old(self).source@.len(),
        ensures
            final(self).wf(),
            c == old(self).source@[old(self).current as int],
            final(self).source@ == old(self).source@,
            final(self).current == old(self).current + 1,
            final(self).start == old(self).start,
            final(self).tokens@ == old(self).tokens@,
            final(self).errors@ == old(self).errors@,
            (final(self).line as int, final(self).column as int) == advance_char(c, old(self).line as int, old(self).column as int),
    {
        let c = self.source[self.current];
        self.current = self.current + 1;
        if c == '\n' {
            self.line = self.line + 1;
            self.column = 1;
        } else {
            self.column = self.column + 1;
        }
        c
    }

    /// The character at `j`, or `'\0'` past the end.
    fn peek_at(&self, j: usize) -> (c: char)
        ensures
            c == char_at(self.source@, j as int),
    {
        if j < self.source.len() {
            self.source[j]
        } else {
            '\0'
        }
    }

    fn digits_end(&self, j: usize) -> (e: usize)
        requires
            j <= self.source@.len(),
        ensures
            e == digits_end(self.source@, j as int),
    {
        let mut k = j;
        while k < self.source.len() && Self::is_digit(self.source[k])
            invariant
                j <= k <= self.source@.len(),
                digits_end(self.source@, k as int) == digits_end(self.source@, j as int),
            decreases self.source@.len() - k,
        {
            k = k + 1;
        }
        k
    }

    fn word_end(&self, j: usize) -> (e: usize)
        requires
            j <= self.source@.len(),
        ensures
            e == word_end(self.source@, j as int),
    {
        let mut k = j;
        while k < self.source.len() && Self::is_alpha_numeric(self.source[k])
            invariant
                j <= k <= self.source@.len(),
                word_end(self.source@, k as int) == word_end(self.source@, j as int),
            decreases self.source@.len() - k,
        {
            k = k + 1;
        }
        k
    }

    fn line_comment_end(&self, j: usize) -> (e: usize)
        requires
            j <= self.source@.len(),
        ensures
            e == line_comment_end(self.source@, j as int),
    {
        let mut k = j;
        while k < self.source.len() && self.source[k] != '\n'
            invariant
                j <= k <= self.source@.len(),
                line_comment_end(self.source@, k as int) == line_comment_end(self.source@, j as int),
            decreases self.source@.len() - k,
        {
            k = k + 1;
        }
        k
    }

    fn block_comment_end(&self, j: usize) -> (e: Option<usize>)
        requires
            j <= self.source@.len(),
        ensures
            match e {
                Some(e) => block_comment_end(self.source@, j as int) == Some(e as int),
                None => block_comment_end(self.source@, j as int) is None,
            },
    {
        let mut k = j;
        while k < self.source.len()
            invariant
                j <= k <= self.source@.len(),
                block_comment_end(self.source@, k as int) == block_comment_end(self.source@, j as int),
            decreases self.source@.len() - k,
        {
            if self.source[k] == '*' && self.peek_at(k + 1) == '/' {
                return Some(k + 2);
            }
            k = k + 1;
        }
        None
    }

    fn string_end(&self, j: usize) -> (e: Option<usize>)
        requires
            j <= self.source@.len(),
        ensures
            match e {
                Some(e) => string_end(self.source@, j as int) == Some(e as int),
                None => string_end(self.source@, j as int) is None,
            },
    {
        let mut k = j;
        while k < self.source.len()
            invariant
                j <= k <= self.source@.len(),
                string_end(self.source@, k as int) == string_end(self.source@, j as int),
            decreases self.source@.len() - k,
        {
            if self.source[k] == '"' {
                return Some(k + 1);
            }
            k = k + 1;
        }
        None
    }

    fn number_end(&self, i: usize) -> (e: usize)
        requires
            self.wf(),
            i < self.source@.len(),
        ensures
            e == number_end(self.source@, i as int),
    {
        let d = self.digits_end(i + 1);
        proof {
            lemma_digits_end(self.source@, i + 1);
        }
        if self.peek_at(d) == '.' && Self::is_digit(self.peek_at(d + 1)) {
            self.digits_end(d + 1)
        } else {
            d
        }
    }

    /// The kind of the word between two positions.
    fn word_type(&self, from: usize, to: usize) -> (t: TokenType)
        requires
            from <= to <= self.source@.len(),
        ensures
            t == keyword_type(self.source@.subrange(from as int, to as int)),
    {
        let ghost word = self.source@.subrange(from as int, to as int);
        let n = to - from;
        if n == 3 && self.source[from + 0] == 'v' && self.source[from + 1] == 'a' && self.source[from + 2] == 'r' {
            assert(word =~= seq!['v', 'a', 'r']);
            return TokenType::Var;
        }
        if n == 4 && self.source[from + 0] == 'e' && self.source[from + 1] == 'n' && self.source[from + 2] == 'u' && self.source[from + 3] == 'm' {
            assert(word =~= seq!['e', 'n', 'u', 'm']);
            return TokenType::Enum;
        }
        if n == 6 && self.source[from + 0] == 's' && self.source[from + 1] == 't' && self.source[from + 2] == 'r' && self.source[from + 3] == 'u' && self.source[from + 4] == 'c' && self.source[from + 5] == 't' {
            assert(word =~= seq!['s', 't', 'r', 'u', 'c', 't']);
            return TokenType::Struct;
        }
        if n == 2 && self.source[from + 0] == 'f' && self.source[from + 1] == 'n' {
            assert(word =~= seq!['f', 'n']);
            return TokenType::Fn;
        }
        if n == 2 && self.source[from + 0] == 'i' && self.source[from + 1] == 'f' {
            assert(word =~= seq!['i', 'f']);
            return TokenType::If;
        }
        if n == 4 && self.source[from + 0] == 'e' && self.source[from + 1] == 'l' && self.source[from + 2] == 's' && self.source[from + 3] == 'e' {
            assert(word =~= seq!['e', 'l', 's', 'e']);
            return TokenType::Else;
        }
        if n == 5 && self.source[from + 0] == 'm' && self.source[from + 1] == 'a' && self.source[from + 2] == 't' && self.source[from + 3] == 'c' && self.source[from + 4] == 'h' {
            assert(word =~= seq!['m', 'a', 't', 'c', 'h']);
            return TokenType::Match;
        }
        if n == 3 && self.source[from + 0] == 'f' && self.source[from + 1] == 'o' && self.source[from + 2] == 'r' {
            assert(word =~= seq!['f', 'o', 'r']);
            return TokenType::For;
        }
        if n == 5 && self.source[from + 0] == 'w' && self.source[from + 1] == 'h' && self.source[from + 2] == 'i' && self.source[from + 3] == 'l' && self.source[from + 4] == 'e' {
            assert(word =~= seq!['w', 'h', 'i', 'l', 'e']);
            return TokenType::While;
        }
        if n == 5 && self.source[from + 0] == 'b' && self.source[from + 1] == 'r' && self.source[from + 2] == 'e' && self.source[from + 3] == 'a' && self.source[from + 4] == 'k' {
            assert(word =~= seq!['b', 'r', 'e', 'a', 'k']);
            return TokenType::Break;
        }
        if n == 8 && self.source[from + 0] == 'c' && self.source[from + 1] == 'o' && self.source[from + 2] == 'n' && self.source[from + 3] == 't' && self.source[from + 4] == 'i' && self.source[from + 5] == 'n' && self.source[from + 6] == 'u' && self.source[from + 7] == 'e' {
            assert(word =~= seq!['c', 'o', 'n', 't', 'i', 'n', 'u', 'e']);
            return TokenType::Continue;
        }
        if n == 2 && self.source[from + 0] == 'i' && self.source[from + 1] == 'n' {
            assert(word =~= seq!['i', 'n']);
            return TokenType::In;
        }
        TokenType::Identifier
    }

    fn single_char_token(c: char) -> (t: Option<TokenType>)
        ensures
            t == single_char_token(c),
    {
        match c {
            '(' => Some(TokenType::LeftParen),
            ')' => Some(TokenType::RightParen),
            '{' => Some(TokenType::LeftBrace),
            '}' => Some(TokenType::RightBrace),
            '[' => Some(TokenType::LeftBracket),
            ']' => Some(TokenType::RightBracket),
            ',' => Some(TokenType::Comma),
            ':' => Some(TokenType::Colon),
            ';' => Some(TokenType::Semicolon),
            '_' => Some(TokenType::Underscore),
            _ => None,
        }
    }

    fn with_equal(&self, i: usize, with_eq: TokenType, plain: TokenType) -> (r: (usize, Lexeme))
        requires
            self.wf(),
            i < self.source@.len(),
        ensures
            (r.0 as int, r.1) == with_equal(self.source@, i as int, with_eq, plain),
    {
        if self.peek_at(i + 1) == '=' {
            (i + 2, Lexeme::Simple(with_eq))
        } else {
            (i + 1, Lexeme::Simple(plain))
        }
    }

    /// One scanning step from the scanning position: where it ends and what it found.
    fn scan_token(&self) -> (r: (usize, Lexeme))
        requires
            self.wf(),
            self.current < self.source@.len(),
        ensures
            (r.0 as int, r.1) == lex_step(self.source@, self.current as int),
    {
        let i = self.current;
        let c = self.source[i];
        let n1 = self.peek_at(i + 1);
        let n2 = self.peek_at(i + 2);
        if let Some(t) = Self::single_char_token(c) {
            return (i + 1, Lexeme::Simple(t));
        }
        match c {
            '@' => {
                if n1 == '=' {
                    (i + 2, Lexeme::Simple(TokenType::AtEqual))
                } else if n1 == '-' {
                    (i + 2, Lexeme::Simple(TokenType::AtMinus))
                } else {
                    (i + 1, Lexeme::Skip)
                }
            },
            '&' => if n1 == '&' { (i + 2, Lexeme::Simple(TokenType::AmpersandAmpersand)) } else { (i + 1, Lexeme::Skip) },
            '|' => if n1 == '|' { (i + 2, Lexeme::Simple(TokenType::PipePipe)) } else { (i + 1, Lexeme::Skip) },
            '!' => self.with_equal(i, TokenType::ExclamationEqual, TokenType::Exclamation),
            '=' => {
                if n1 == '=' {
                    (i + 2, Lexeme::Simple(TokenType::EqualEqual))
                } else if n1 == '>' {
                    (i + 2, Lexeme::Simple(TokenType::EqualGreater))
                } else {
                    (i + 1, Lexeme::Simple(TokenType::Equal))
                }
            },
            '>' => self.with_equal(i, TokenType::GreaterEqual, TokenType::Greater),
            '<' => self.with_equal(i, TokenType::LessEqual, TokenType::Less),
            '+' => {
                if n1 == '=' {
                    (i + 2, Lexeme::Simple(TokenType::PlusEqual))
                } else if n1 == '+' {
                    (i + 2, Lexeme::Simple(TokenType::PlusPlus))
                } else {
                    (i + 1, Lexeme::Simple(TokenType::Plus))
                }
            },
            '-' => {
                if n1 == '=' {
                    (i + 2, Lexeme::Simple(TokenType::MinusEqual))
                } else if n1 == '>' {
                    (i + 2, Lexeme::Simple(TokenType::MinusGreater))
                } else if n1 == '-' {
                    (i + 2, Lexeme::Simple(TokenType::MinusMinus))
                } else {
                    (i + 1, Lexeme::Simple(TokenType::Minus))
                }
            },
            '*' => self.with_equal(i, TokenType::StarEqual, TokenType::Star),
            '/' => {
                if n1 == '/' {
                    (self.line_comment_end(i + 2), Lexeme::Skip)
                } else if n1 == '*' {
                    match self.block_comment_end(i + 2) {
                        Some(e) => (e, Lexeme::Skip),
                        None => (self.source.len(), Lexeme::UnterminatedBlockComment),
                    }
                } else {
                    self.with_equal(i, TokenType::SlashEqual, TokenType::Slash)
                }
            },
            '%' => self.with_equal(i, TokenType::PercentEqual, TokenType::Percent),
            '^' => self.with_equal(i, TokenType::CaretEqual, TokenType::Caret),
            '?' => {
                if n1 == '?' {
                    (i + 2, Lexeme::Simple(TokenType::QuestionQuestion))
                } else {
                    (i + 1, Lexeme::Simple(TokenType::Question))
                }
            },
            '.' => {
                if n1 == '.' {
                    if n2 == '=' {
                        (i + 3, Lexeme::Simple(TokenType::DotDotEqual))
                    } else {
                        (i + 2, Lexeme::Simple(TokenType::DotDot))
                    }
                } else {
                    (i + 1, Lexeme::Simple(TokenType::Dot))
                }
            },
            ' ' | '\r' | '\t' | '\n' => (i + 1, Lexeme::Skip),
            '"' => {
                match self.string_end(i + 1) {
                    Some(e) => (e, Lexeme::StringLiteral),
                    None => (self.source.len(), Lexeme::UnterminatedString),
                }
            },
            _ => {
                if Self::is_digit(c) {
                    (self.number_end(i), Lexeme::NumberLiteral)
                } else if Self::is_alpha(c) {
                    (self.word_end(i + 1), Lexeme::Word)
                } else {
                    (i + 1, Lexeme::UnexpectedCharacter(c))
                }
            },
        }
    }

    fn is_alpha_numeric(c: char) -> (b: bool)
        ensures
            b == is_alpha_numeric(c),
    {
        Self::is_alpha(c) || Self::is_digit(c)
    }

    fn is_alpha(c: char) -> (b: bool)
        ensures
            b == is_alpha(c),
    {
        (c >= 'a' && c <= 'z') || (c >= 'A' && c <= 'Z') || c == '_'
    }

    fn is_digit(c: char) -> (b: bool)
        ensures
            b == is_digit(c),
    {
        c >= '0' && c <= '9'
    }
}

} // verus!
