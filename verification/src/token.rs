use vstd::prelude::*;
use vstd::string::*;

verus! {

/// The kinds of token the scanner produces.
#[derive(Debug, Clone, Copy, PartialEq, Eq, Structural)]
pub enum TokenType {
    // One-character tokens
    LeftParen, RightParen, LeftBrace, RightBrace, LeftBracket, RightBracket,
    Comma, Colon, Semicolon, Underscore,
    // Two-character tokens
    AtEqual, AtMinus, AmpersandAmpersand, PipePipe,
    // One or two character tokens
    Exclamation, ExclamationEqual,
    Equal, EqualEqual, EqualGreater,
    Greater, GreaterEqual,
    Less, LessEqual,
    Plus, PlusEqual, PlusPlus,
    Minus, MinusEqual, MinusGreater, MinusMinus,
    Star, StarEqual,
    Slash, SlashEqual,
    Percent, PercentEqual,
    Caret, CaretEqual,
    Question, QuestionQuestion,
    // One, two, or three character tokens
    Dot, DotDot, DotDotEqual,
    // Literals
    Identifier, String, Number,
    // Keywords
    Var, Enum, Struct, Fn, If, Else, Match, For, While, Break, Continue, In,
    // End of file
    Eof,
}

/// The value a literal token carries.  A number keeps the numeral exactly as
/// it was written; its floating-point value is the numeral read as an `f64`.
#[derive(Debug)]
pub enum Literal {
    Number(String),
    String(String),
}

/// A token: its kind, the source text it was scanned from, its literal value
/// and the line and column (both counted from 1) at which it starts.
#[derive(Debug)]
pub struct Token {
    pub token_type: TokenType,
    pub lexeme: String,
    pub literal: Option<Literal>,
    pub line: u32,
    pub column: u32,
}

/// The mathematical value of a literal: the characters it holds.
#[verifier::ext_equal]
pub enum LiteralView {
    Number(Seq<char>),
    String(Seq<char>),
}

impl View for Literal {
    type V = LiteralView;

    open spec fn view(&self) -> LiteralView {
        match self {
            Literal::Number(s) => LiteralView::Number(s@),
            Literal::String(s) => LiteralView::String(s@),
        }
    }
}

/// The mathematical value of a token.
#[verifier::ext_equal]
pub struct TokenView {
    pub token_type: TokenType,
    pub lexeme: Seq<char>,
    pub literal: Option<LiteralView>,
    pub line: u32,
    pub column: u32,
}

pub open spec fn literal_view(l: Option<Literal>) -> Option<LiteralView> {
    match l {
        Some(l) => Some(l@),
        None => None,
    }
}

impl View for Token {
    type V = TokenView;

    open spec fn view(&self) -> TokenView {
        TokenView {
            token_type: self.token_type,
            lexeme: self.lexeme@,
            literal: literal_view(self.literal),
            line: self.line,
            column: self.column,
        }
    }
}

/// The values of a sequence of tokens.
pub open spec fn tokens_view(ts: Seq<Token>) -> Seq<TokenView> {
    ts.map_values(|t: Token| t@)
}

impl Clone for Literal {
    fn clone(&self) -> (r: Literal)
        ensures
            r@ == self@,
    {
        match self {
            Literal::Number(s) => Literal::Number(s.clone()),
            Literal::String(s) => Literal::String(s.clone()),
        }
    }
}

impl Clone for Token {
    fn clone(&self) -> (r: Token)
        ensures
            r@ == self@,
    {
        let literal = match &self.literal {
            Some(l) => Some(l.clone()),
            None => None,
        };
        Token {
            token_type: self.token_type,
            lexeme: self.lexeme.clone(),
            literal,
            line: self.line,
            column: self.column,
        }
    }
}

/// The text by which a token kind is shown in messages.
pub open spec fn token_type_text(t: TokenType) -> Seq<char> {
    match t {
        TokenType::LeftParen => "("@,
        TokenType::RightParen => ")"@,
        TokenType::LeftBrace => "{"@,
        TokenType::RightBrace => "}"@,
        TokenType::LeftBracket => "["@,
        TokenType::RightBracket => "]"@,
        TokenType::Comma => ","@,
        TokenType::Colon => ":"@,
        TokenType::Semicolon => ";"@,
        TokenType::Underscore => "_"@,
        TokenType::AtEqual => "@="@,
        TokenType::AtMinus => "@-"@,
        TokenType::AmpersandAmpersand => "&&"@,
        TokenType::PipePipe => "||"@,
        TokenType::Exclamation => "!"@,
        TokenType::ExclamationEqual => "!="@,
        TokenType::Equal => "="@,
        TokenType::EqualEqual => "=="@,
        TokenType::EqualGreater => ">="@,
        TokenType::Greater => ">"@,
        TokenType::GreaterEqual => ">="@,
        TokenType::Less => "<"@,
        TokenType::LessEqual => "<="@,
        TokenType::Plus => "+"@,
        TokenType::PlusEqual => "+="@,
        TokenType::PlusPlus => "++"@,
        TokenType::Minus => "-"@,
        TokenType::MinusEqual => "-="@,
        TokenType::MinusGreater => "->"@,
        TokenType::MinusMinus => "--"@,
        TokenType::Star => "*"@,
        TokenType::StarEqual => "*="@,
        TokenType::Slash => "/"@,
        TokenType::SlashEqual => "/="@,
        TokenType::Percent => "%"@,
        TokenType::PercentEqual => "%="@,
        TokenType::Caret => "^"@,
        TokenType::CaretEqual => "^="@,
        TokenType::Question => "?"@,
        TokenType::QuestionQuestion => "??"@,
        TokenType::Dot => "."@,
        TokenType::DotDot => ".."@,
        TokenType::DotDotEqual => "..="@,
        TokenType::Identifier => "identifier"@,
        TokenType::String => "string"@,
        TokenType::Number => "number"@,
        TokenType::Var => "var"@,
        TokenType::Enum => "enum"@,
        TokenType::Struct => "struct"@,
        TokenType::Fn => "fn"@,
        TokenType::If => "if"@,
        TokenType::Else => "else"@,
        TokenType::Match => "match"@,
        TokenType::For => "for"@,
        TokenType::While => "while"@,
        TokenType::Break => "break"@,
        TokenType::Continue => "continue"@,
        TokenType::In => "in"@,
        TokenType::Eof => "end of file"@,
    }
}

impl TokenType {
    /// The text by which this token kind is shown in messages.
    pub fn to_string(&self) -> (s: String)
        ensures
            s@ == token_type_text(*self),
    {
        let t: &str = match self {
            TokenType::LeftParen => "(",
            TokenType::RightParen => ")",
            TokenType::LeftBrace => "{",
            TokenType::RightBrace => "}",
            TokenType::LeftBracket => "[",
            TokenType::RightBracket => "]",
            TokenType::Comma => ",",
            TokenType::Colon => ":",
            TokenType::Semicolon => ";",
            TokenType::Underscore => "_",
            TokenType::AtEqual => "@=",
            TokenType::AtMinus => "@-",
            TokenType::AmpersandAmpersand => "&&",
            TokenType::PipePipe => "||",
            TokenType::Exclamation => "!",
            TokenType::ExclamationEqual => "!=",
            TokenType::Equal => "=",
            TokenType::EqualEqual => "==",
            TokenType::EqualGreater => ">=",
            TokenType::Greater => ">",
            TokenType::GreaterEqual => ">=",
            TokenType::Less => "<",
            TokenType::LessEqual => "<=",
            TokenType::Plus => "+",
            TokenType::PlusEqual => "+=",
            TokenType::PlusPlus => "++",
            TokenType::Minus => "-",
            TokenType::MinusEqual => "-=",
            TokenType::MinusGreater => "->",
            TokenType::MinusMinus => "--",
            TokenType::Star => "*",
            TokenType::StarEqual => "*=",
            TokenType::Slash => "/",
            TokenType::SlashEqual => "/=",
            TokenType::Percent => "%",
            TokenType::PercentEqual => "%=",
            TokenType::Caret => "^",
            TokenType::CaretEqual => "^=",
            TokenType::Question => "?",
            TokenType::QuestionQuestion => "??",
            TokenType::Dot => ".",
            TokenType::DotDot => "..",
            TokenType::DotDotEqual => "..=",
            TokenType::Identifier => "identifier",
            TokenType::String => "string",
            TokenType::Number => "number",
            TokenType::Var => "var",
            TokenType::Enum => "enum",
            TokenType::Struct => "struct",
            TokenType::Fn => "fn",
            TokenType::If => "if",
            TokenType::Else => "else",
            TokenType::Match => "match",
            TokenType::For => "for",
            TokenType::While => "while",
            TokenType::Break => "break",
            TokenType::Continue => "continue",
            TokenType::In => "in",
            TokenType::Eof => "end of file",
        };
        String::from_str(t)
    }
}

} // verus!
