use vstd::prelude::*;
use crate::token::{token_type_text, Token, TokenType, TokenView};
use crate::text::{decimal, joined_strings, push_decimal, push_joined_strings, push_signed_decimal, push_string, signed_decimal};
use crate::types::{push_type_text, type_text, TypeExpr};

verus! {

/// An error found while scanning source text.
#[derive(Debug, Clone, Copy, PartialEq, Eq, Structural)]
pub enum ScanError {
    UnexpectedCharacter { line: u32, column: u32, character: char },
    UnterminatedString { line: u32, column: u32 },
    UnterminatedBlockComment { line: u32, column: u32 },
}

} // verus!

verus! {

/// An error found while parsing tokens.
#[derive(Debug)]
pub enum ParseError {
    ExpectedToken { line: u32, column: u32, expected: Vec<TokenType>, found: Token },
    UnexpectedToken { line: u32, column: u32, found: Token },
    InvalidKeyword { line: u32, column: u32, found: Token },
    InvalidPattern { line: u32, column: u32, found: Token },
    InvalidAssignmentTarget { line: u32, column: u32, found: Token },
    MismatchedRangeBounds { line: u32, column: u32, start_bound: Token, end_bound: Token },
    MissingRangeEnd { line: u32, column: u32, start_bound: Token },
    DuplicateParameter { line: u32, column: u32, parameter: Token },
    EmptyTuple { line: u32, column: u32 },
}

/// An error found while checking types.
#[derive(Debug)]
pub enum TypeError {
    MismatchedTypes { line: u32, column: u32, expected: TypeExpr, found: TypeExpr },
    InfiniteType { line: u32, column: u32, type_var_id: usize, type_expr: TypeExpr },
    MissingTypeAnnotationAndInitializer { line: u32, column: u32, identifier: String },
    UndefinedVariable { line: u32, column: u32, identifier: String },
    ConditionNotBoolean { line: u32, column: u32, condition_type: TypeExpr },
    InvalidUnaryOperand { line: u32, column: u32, operator: String, operand_type: TypeExpr },
    InvalidBinaryOperands { line: u32, column: u32, operator: String, left_type: TypeExpr, right_type: TypeExpr },
    InvalidIndexTarget { line: u32, column: u32, target_type: TypeExpr },
    InvalidIndexType { line: u32, column: u32, target_type: TypeExpr, index_type: TypeExpr },
    InvalidFieldAccessTarget { line: u32, column: u32, target_type: TypeExpr },
    InvalidCallTarget { line: u32, column: u32, target_type: TypeExpr },
    InvalidMapKeyType { line: u32, column: u32, key_type: TypeExpr },
    InvalidForInTarget { line: u32, column: u32, target_type: TypeExpr },
    UnknownField { line: u32, column: u32, target_type: TypeExpr, field_name: String },
    BreakOutsideLoop { line: u32, column: u32 },
    ContinueOutsideLoop { line: u32, column: u32 },
    EmptyMatch { line: u32, column: u32 },
    UnknownLiteral { line: u32, column: u32, token: Token },
    MissingElseBranch { line: u32, column: u32 },
    ArgumentCountMismatch { line: u32, column: u32, expected: usize, found: usize },
    EnumVariantPayloadCountMismatch { line: u32, column: u32, variant_identifier: String, expected: usize, found: usize },
    InvalidEnumVariant { line: u32, column: u32, enum_type: TypeExpr, variant_identifier: String },
    InvalidEnumPatternTarget { line: u32, column: u32, subject_type: TypeExpr },
    DuplicateEnumVariant { line: u32, column: u32, variant_identifier: String },
    TupleFieldOutOfRange { line: u32, column: u32, tuple_type: TypeExpr, index: usize },
    TupleArityMismatch { line: u32, column: u32, expected: usize, found: usize },
    DestructureRequiresTuple { line: u32, column: u32, target_type: TypeExpr },
    TypeVariableLimit { line: u32, column: u32 },
}

/// Why two types could not be unified.
#[derive(Debug)]
pub enum UnifyError {
    MismatchedTypes { expected: TypeExpr, found: TypeExpr },
    InfiniteType { type_var_id: usize, type_expr: TypeExpr },
}

/// An error found while generating C code.
#[derive(Debug)]
pub enum CodegenError {
    MissingType { line: u32, column: u32, identifier: String },
    UnexpectedTypeInCodegen { line: u32, column: u32, expected: &'static str, found_type: TypeExpr },
    InvalidEnumArgumentCount { line: u32, column: u32, variant_identifier: String, expected: usize, found: usize },
    InvalidCallTarget { line: u32, column: u32, target_type: Option<TypeExpr> },
    MissingElseInIfExpression { line: u32, column: u32 },
    BlockExpressionMissingEndExpression { line: u32, column: u32 },
    UnsupportedMatchPattern { line: u32, column: u32 },
    UnknownEnumVariantInPattern { line: u32, column: u32, enum_identifier: String },
    InvalidEnumPatternArgumentCount {
        line: u32,
        column: u32,
        enum_identifier: String,
        variant_identifier: String,
        expected: usize,
        found: usize,
    },
}

/// An error met while compiling the generated C code.  An I/O error is
/// kept as the text it is shown by.
#[derive(Debug)]
pub enum CompilerRunnerError {
    FailedToGetCurrentDirectory,
    NoCompilerFound { compilers_tried: Vec<String> },
    CompilationFailed { compiler: String, status: i32, stderr: String },
    IoError { message: String },
}

} // verus!

verus! {

/// An error that can be shown to the user as a message.
pub trait ErrorMessage {
    /// The text of the message.
    spec fn message_text(&self) -> Seq<char>;

    fn message(&self) -> (m: String)
        ensures
            m@ == self.message_text(),
    ;
}

/// An error that may point at a line and column of the source.
pub trait ErrorWithLocation: ErrorMessage {
    spec fn line_of(&self) -> Option<u32>;

    spec fn column_of(&self) -> Option<u32>;

    fn line(&self) -> (l: Option<u32>)
        ensures
            l == self.line_of(),
    ;

    fn column(&self) -> (c: Option<u32>)
        ensures
            c == self.column_of(),
    ;
}

} // verus!

verus! {

/// The texts of the token kinds `ts`, separated by " or ".
pub open spec fn token_types_text(ts: Seq<TokenType>) -> Seq<char>
    decreases ts.len(),
{
    if ts.len() == 0 {
        Seq::empty()
    } else if ts.len() == 1 {
        token_type_text(ts[0])
    } else {
        token_types_text(ts.drop_last()) + " or "@ + token_type_text(ts.last())
    }
}

/// How the token found in place of an expected one is shown: its kind in
/// quotes, followed by its text in parentheses for an identifier, a number
/// or a string.
pub open spec fn found_text(t: TokenView) -> Seq<char> {
    match t.token_type {
        TokenType::Identifier | TokenType::Number | TokenType::String => "'"@ + token_type_text(t.token_type) + "' ("@
            + t.lexeme + ")"@,
        _ => "'"@ + token_type_text(t.token_type) + "'"@,
    }
}

fn push_token_types_text(s: &mut String, ts: &Vec<TokenType>)
    ensures
        final(s)@ == old(s)@ + token_types_text(ts@),
{
    let ghost s0 = s@;
    proof {
        assert(ts@.take(0) =~= Seq::<TokenType>::empty());
        assert(s@ =~= s0 + token_types_text(ts@.take(0)));
    }
    let mut i: usize = 0;
    while i < ts.len()
        invariant
            i <= ts@.len(),
            s@ == s0 + token_types_text(ts@.take(i as int)),
        decreases ts@.len() - i,
    {
        if i > 0 {
            s.push_str(" or ");
        }
        push_string(s, &ts[i].to_string());
        proof {
            let p = ts@.take(i + 1);
            assert(p.drop_last() =~= ts@.take(i as int));
            assert(p.last() == ts@[i as int]);
            if i == 0 {
                assert(p.len() == 1);
                assert(s@ =~= s0 + token_types_text(p));
            } else {
                assert(s@ =~= s0 + token_types_text(p));
            }
        }
        i = i + 1;
    }
    proof {
        assert(ts@.take(i as int) =~= ts@);
    }
}

fn push_found_text(s: &mut String, t: &Token)
    ensures
        final(s)@ == old(s)@ + found_text(t@),
{
    s.push_str("'");
    push_string(s, &t.token_type.to_string());
    match t.token_type {
        TokenType::Identifier | TokenType::Number | TokenType::String => {
            s.push_str("' (");
            push_string(s, &t.lexeme);
            s.push_str(")");
        },
        _ => {
            s.push_str("'");
        },
    }
    proof {
        assert(s@ =~= old(s)@ + found_text(t@));
    }
}

impl ErrorMessage for ScanError {
    open spec fn message_text(&self) -> Seq<char> {
        match self {
            ScanError::UnexpectedCharacter { character, .. } => "Unexpected character '"@ + seq![*character] + "'"@,
            ScanError::UnterminatedString { .. } => "Unterminated string"@,
            ScanError::UnterminatedBlockComment { .. } => "Unterminated block comment"@,
        }
    }

    fn message(&self) -> (m: String) {
        let mut s = String::new();
        match self {
            ScanError::UnexpectedCharacter { character, .. } => {
                s.push_str("Unexpected character '");
                s.push(*character);
                s.push_str("'");
            },
            ScanError::UnterminatedString { .. } => s.push_str("Unterminated string"),
            ScanError::UnterminatedBlockComment { .. } => s.push_str("Unterminated block comment"),
        }
        proof {
            assert(s@ =~= self.message_text());
        }
        s
    }
}

impl ErrorWithLocation for ScanError {
    open spec fn line_of(&self) -> Option<u32> {
        match self {
            ScanError::UnexpectedCharacter { line, .. } => Some(*line),
            ScanError::UnterminatedString { line, .. } => Some(*line),
            ScanError::UnterminatedBlockComment { line, .. } => Some(*line),
        }
    }

    open spec fn column_of(&self) -> Option<u32> {
        match self {
            ScanError::UnexpectedCharacter { column, .. } => Some(*column),
            ScanError::UnterminatedString { column, .. } => Some(*column),
            ScanError::UnterminatedBlockComment { column, .. } => Some(*column),
        }
    }

    fn line(&self) -> (l: Option<u32>) {
        match self {
            ScanError::UnexpectedCharacter { line, .. } => Some(*line),
            ScanError::UnterminatedString { line, .. } => Some(*line),
            ScanError::UnterminatedBlockComment { line, .. } => Some(*line),
        }
    }

    fn column(&self) -> (c: Option<u32>) {
        match self {
            ScanError::UnexpectedCharacter { column, .. } => Some(*column),
            ScanError::UnterminatedString { column, .. } => Some(*column),
            ScanError::UnterminatedBlockComment { column, .. } => Some(*column),
        }
    }
}

impl ErrorMessage for ParseError {
    open spec fn message_text(&self) -> Seq<char> {
        match self {
            ParseError::ExpectedToken { expected, found, .. } => "Expected '"@ + token_types_text(expected@) + "', found "@ + found_text(found@),
            ParseError::UnexpectedToken { found, .. } => "Unexpected token ("@ + found.lexeme@ + ")"@,
            ParseError::InvalidKeyword { found, .. } => "Invalid keyword ("@ + found.lexeme@ + ")"@,
            ParseError::InvalidPattern { found, .. } => "Invalid pattern ("@ + found.lexeme@ + ")"@,
            ParseError::InvalidAssignmentTarget { found, .. } => "Invalid assignment target ("@ + found.lexeme@ + ")"@,
            ParseError::MismatchedRangeBounds { start_bound, end_bound, .. } => "Mismatched range bound types ('"@ + token_type_text(start_bound.token_type) + "' and '"@ + token_type_text(end_bound.token_type) + "') - Range bounds must have the same literal type"@,
            ParseError::MissingRangeEnd { start_bound, .. } => "Missing end bound for range starting with '"@ + start_bound.lexeme@ + "'"@,
            ParseError::DuplicateParameter { parameter, .. } => "Duplicate parameter '"@ + parameter.lexeme@ + "'"@,
            ParseError::EmptyTuple { .. } => "Empty tuple () is not allowed; use Void for type-level no-value"@,
        }
    }

    fn message(&self) -> (m: String) {
        match self {
            ParseError::ExpectedToken { expected, found, .. } => {
                let mut s = String::new();
                s.push_str("Expected '");
                push_token_types_text(&mut s, expected);
                s.push_str("', found ");
                push_found_text(&mut s, found);
                proof {
                    assert(s@ =~= self.message_text());
                }
                s
            },
            ParseError::UnexpectedToken { found, .. } => {
                let mut s = String::new();
                s.push_str("Unexpected token (");
                push_string(&mut s, &found.lexeme);
                s.push_str(")");
                proof {
                    assert(s@ =~= self.message_text());
                }
                s
            },
            ParseError::InvalidKeyword { found, .. } => {
                let mut s = String::new();
                s.push_str("Invalid keyword (");
                push_string(&mut s, &found.lexeme);
                s.push_str(")");
                proof {
                    assert(s@ =~= self.message_text());
                }
                s
            },
            ParseError::InvalidPattern { found, .. } => {
                let mut s = String::new();
                s.push_str("Invalid pattern (");
                push_string(&mut s, &found.lexeme);
                s.push_str(")");
                proof {
                    assert(s@ =~= self.message_text());
                }
                s
            },
            ParseError::InvalidAssignmentTarget { found, .. } => {
                let mut s = String::new();
                s.push_str("Invalid assignment target (");
                push_string(&mut s, &found.lexeme);
                s.push_str(")");
                proof {
                    assert(s@ =~= self.message_text());
                }
                s
            },
            ParseError::MismatchedRangeBounds { start_bound, end_bound, .. } => {
                let mut s = String::new();
                s.push_str("Mismatched range bound types ('");
                push_string(&mut s, &start_bound.token_type.to_string());
                s.push_str("' and '");
                push_string(&mut s, &end_bound.token_type.to_string());
                s.push_str("') - Range bounds must have the same literal type");
                proof {
                    assert(s@ =~= self.message_text());
                }
                s
            },
            ParseError::MissingRangeEnd { start_bound, .. } => {
                let mut s = String::new();
                s.push_str("Missing end bound for range starting with '");
                push_string(&mut s, &start_bound.lexeme);
                s.push_str("'");
                proof {
                    assert(s@ =~= self.message_text());
                }
                s
            },
            ParseError::DuplicateParameter { parameter, .. } => {
                let mut s = String::new();
                s.push_str("Duplicate parameter '");
                push_string(&mut s, &parameter.lexeme);
                s.push_str("'");
                proof {
                    assert(s@ =~= self.message_text());
                }
                s
            },
            ParseError::EmptyTuple { .. } => {
                let mut s = String::new();
                s.push_str("Empty tuple () is not allowed; use Void for type-level no-value");
                proof {
                    assert(s@ =~= self.message_text());
                }
                s
            },
        }
    }
}

impl ErrorWithLocation for ParseError {
    open spec fn line_of(&self) -> Option<u32> {
        match self {
            ParseError::ExpectedToken { line, .. } => Some(*line),
            ParseError::UnexpectedToken { line, .. } => Some(*line),
            ParseError::InvalidKeyword { line, .. } => Some(*line),
            ParseError::InvalidPattern { line, .. } => Some(*line),
            ParseError::InvalidAssignmentTarget { line, .. } => Some(*line),
            ParseError::MismatchedRangeBounds { line, .. } => Some(*line),
            ParseError::MissingRangeEnd { line, .. } => Some(*line),
            ParseError::DuplicateParameter { line, .. } => Some(*line),
            ParseError::EmptyTuple { line, .. } => Some(*line),
        }
    }

    open spec fn column_of(&self) -> Option<u32> {
        match self {
            ParseError::ExpectedToken { column, .. } => Some(*column),
            ParseError::UnexpectedToken { column, .. } => Some(*column),
            ParseError::InvalidKeyword { column, .. } => Some(*column),
            ParseError::InvalidPattern { column, .. } => Some(*column),
            ParseError::InvalidAssignmentTarget { column, .. } => Some(*column),
            ParseError::MismatchedRangeBounds { column, .. } => Some(*column),
            ParseError::MissingRangeEnd { column, .. } => Some(*column),
            ParseError::DuplicateParameter { column, .. } => Some(*column),
            ParseError::EmptyTuple { column, .. } => Some(*column),
        }
    }

    fn line(&self) -> (l: Option<u32>) {
        match self {
            ParseError::ExpectedToken { line, .. } => Some(*line),
            ParseError::UnexpectedToken { line, .. } => Some(*line),
            ParseError::InvalidKeyword { line, .. } => Some(*line),
            ParseError::InvalidPattern { line, .. } => Some(*line),
            ParseError::InvalidAssignmentTarget { line, .. } => Some(*line),
            ParseError::MismatchedRangeBounds { line, .. } => Some(*line),
            ParseError::MissingRangeEnd { line, .. } => Some(*line),
            ParseError::DuplicateParameter { line, .. } => Some(*line),
            ParseError::EmptyTuple { line, .. } => Some(*line),
        }
    }

    fn column(&self) -> (c: Option<u32>) {
        match self {
            ParseError::ExpectedToken { column, .. } => Some(*column),
            ParseError::UnexpectedToken { column, .. } => Some(*column),
            ParseError::InvalidKeyword { column, .. } => Some(*column),
            ParseError::InvalidPattern { column, .. } => Some(*column),
            ParseError::InvalidAssignmentTarget { column, .. } => Some(*column),
            ParseError::MismatchedRangeBounds { column, .. } => Some(*column),
            ParseError::MissingRangeEnd { column, .. } => Some(*column),
            ParseError::DuplicateParameter { column, .. } => Some(*column),
            ParseError::EmptyTuple { column, .. } => Some(*column),
        }
    }
}

impl ErrorMessage for TypeError {
    open spec fn message_text(&self) -> Seq<char> {
        match self {
            TypeError::MismatchedTypes { expected, found, .. } => "Type mismatch: expected "@ + type_text(expected@) + ", found "@ + type_text(found@),
            TypeError::InfiniteType { type_var_id, type_expr, .. } => "Cannot construct infinite type: type variable "@ + decimal(*type_var_id as nat) + " occurs in "@ + type_text(type_expr@),
            TypeError::MissingTypeAnnotationAndInitializer { identifier, .. } => "Variable "@ + identifier@ + " must have a type annotation or an initializer"@,
            TypeError::UndefinedVariable { identifier, .. } => "Undefined variable ("@ + identifier@ + ")"@,
            TypeError::ConditionNotBoolean { condition_type, .. } => "Condition must be have type Bool, found "@ + type_text(condition_type@),
            TypeError::InvalidUnaryOperand { operand_type, operator, .. } => "Invalid operand type "@ + type_text(operand_type@) + " for operator '"@ + operator@ + "'"@,
            TypeError::InvalidBinaryOperands { left_type, right_type, operator, .. } => "Invalid operand types "@ + type_text(left_type@) + " and "@ + type_text(right_type@) + " for operator '"@ + operator@ + "'"@,
            TypeError::InvalidIndexTarget { target_type, .. } => "Target type "@ + type_text(target_type@) + " cannot be indexed"@,
            TypeError::InvalidIndexType { index_type, target_type, .. } => "Invalid index type "@ + type_text(index_type@) + " for "@ + type_text(target_type@),
            TypeError::InvalidFieldAccessTarget { target_type, .. } => "Cannot access fields on value of non-struct type "@ + type_text(target_type@),
            TypeError::InvalidCallTarget { target_type, .. } => "Cannot call value of non-function type "@ + type_text(target_type@),
            TypeError::InvalidMapKeyType { key_type, .. } => "Map keys must be Int, Double, Bool, or String, found "@ + type_text(key_type@),
            TypeError::InvalidForInTarget { target_type, .. } => "For-in iterable must be a Range, InclusiveRange, Array, or Map, found "@ + type_text(target_type@),
            TypeError::UnknownField { target_type, field_name, .. } => "Type "@ + type_text(target_type@) + " has no field named '"@ + field_name@ + "'"@,
            TypeError::BreakOutsideLoop { .. } => "'break' must be inside a loop"@,
            TypeError::ContinueOutsideLoop { .. } => "'continue' must be inside a loop"@,
            TypeError::EmptyMatch { .. } => "Must have at least one case in match statement"@,
            TypeError::UnknownLiteral { token, .. } => "Unknown literal ("@ + token.lexeme@ + ")"@,
            TypeError::MissingElseBranch { .. } => "Must have an else branch in if expression"@,
            TypeError::ArgumentCountMismatch { expected, found, .. } => "Expected "@ + decimal(*expected as nat) + " arguments, found "@ + decimal(*found as nat),
            TypeError::EnumVariantPayloadCountMismatch { variant_identifier, expected, found, .. } => "Enum variant '"@ + variant_identifier@ + "' expected "@ + decimal(*expected as nat) + " arguments, found "@ + decimal(*found as nat),
            TypeError::InvalidEnumVariant { enum_type, variant_identifier, .. } => "Enum type "@ + type_text(enum_type@) + " has no variant named '"@ + variant_identifier@ + "'"@,
            TypeError::InvalidEnumPatternTarget { subject_type, .. } => "Cannot pattern match enum variant on non-enum type "@ + type_text(subject_type@),
            TypeError::DuplicateEnumVariant { variant_identifier, .. } => "Duplicate enum variant '"@ + variant_identifier@ + "'"@,
            TypeError::TupleFieldOutOfRange { index, tuple_type, .. } => "Tuple field index "@ + decimal(*index as nat) + " is out of range for type "@ + type_text(tuple_type@),
            TypeError::TupleArityMismatch { expected, found, .. } => "Tuple size mismatch: expected "@ + decimal(*expected as nat) + " elements, found "@ + decimal(*found as nat),
            TypeError::DestructureRequiresTuple { target_type, .. } => "Tuple destructuring requires a tuple type, found "@ + type_text(target_type@),
            TypeError::TypeVariableLimit { .. } => "Too many type variables to check this program"@,
        }
    }

    fn message(&self) -> (m: String) {
        match self {
            TypeError::MismatchedTypes { expected, found, .. } => {
                let mut s = String::new();
                s.push_str("Type mismatch: expected ");
                push_type_text(&mut s, expected);
                s.push_str(", found ");
                push_type_text(&mut s, found);
                proof {
                    assert(s@ =~= self.message_text());
                }
                s
            },
            TypeError::InfiniteType { type_var_id, type_expr, .. } => {
                let mut s = String::new();
                s.push_str("Cannot construct infinite type: type variable ");
                push_decimal(&mut s, *type_var_id as u64);
                s.push_str(" occurs in ");
                push_type_text(&mut s, type_expr);
                proof {
                    assert(s@ =~= self.message_text());
                }
                s
            },
            TypeError::MissingTypeAnnotationAndInitializer { identifier, .. } => {
                let mut s = String::new();
                s.push_str("Variable ");
                push_string(&mut s, identifier);
                s.push_str(" must have a type annotation or an initializer");
                proof {
                    assert(s@ =~= self.message_text());
                }
                s
            },
            TypeError::UndefinedVariable { identifier, .. } => {
                let mut s = String::new();
                s.push_str("Undefined variable (");
                push_string(&mut s, identifier);
                s.push_str(")");
                proof {
                    assert(s@ =~= self.message_text());
                }
                s
            },
            TypeError::ConditionNotBoolean { condition_type, .. } => {
                let mut s = String::new();
                s.push_str("Condition must be have type Bool, found ");
                push_type_text(&mut s, condition_type);
                proof {
                    assert(s@ =~= self.message_text());
                }
                s
            },
            TypeError::InvalidUnaryOperand { operand_type, operator, .. } => {
                let mut s = String::new();
                s.push_str("Invalid operand type ");
                push_type_text(&mut s, operand_type);
                s.push_str(" for operator '");
                push_string(&mut s, operator);
                s.push_str("'");
                proof {
                    assert(s@ =~= self.message_text());
                }
                s
            },
            TypeError::InvalidBinaryOperands { left_type, right_type, operator, .. } => {
                let mut s = String::new();
                s.push_str("Invalid operand types ");
                push_type_text(&mut s, left_type);
                s.push_str(" and ");
                push_type_text(&mut s, right_type);
                s.push_str(" for operator '");
                push_string(&mut s, operator);
                s.push_str("'");
                proof {
                    assert(s@ =~= self.message_text());
                }
                s
            },
            TypeError::InvalidIndexTarget { target_type, .. } => {
                let mut s = String::new();
                s.push_str("Target type ");
                push_type_text(&mut s, target_type);
                s.push_str(" cannot be indexed");
                proof {
                    assert(s@ =~= self.message_text());
                }
                s
            },
            TypeError::InvalidIndexType { index_type, target_type, .. } => {
                let mut s = String::new();
                s.push_str("Invalid index type ");
                push_type_text(&mut s, index_type);
                s.push_str(" for ");
                push_type_text(&mut s, target_type);
                proof {
                    assert(s@ =~= self.message_text());
                }
                s
            },
            TypeError::InvalidFieldAccessTarget { target_type, .. } => {
                let mut s = String::new();
                s.push_str("Cannot access fields on value of non-struct type ");
                push_type_text(&mut s, target_type);
                proof {
                    assert(s@ =~= self.message_text());
                }
                s
            },
            TypeError::InvalidCallTarget { target_type, .. } => {
                let mut s = String::new();
                s.push_str("Cannot call value of non-function type ");
                push_type_text(&mut s, target_type);
                proof {
                    assert(s@ =~= self.message_text());
                }
                s
            },
            TypeError::InvalidMapKeyType { key_type, .. } => {
                let mut s = String::new();
                s.push_str("Map keys must be Int, Double, Bool, or String, found ");
                push_type_text(&mut s, key_type);
                proof {
                    assert(s@ =~= self.message_text());
                }
                s
            },
            TypeError::InvalidForInTarget { target_type, .. } => {
                let mut s = String::new();
                s.push_str("For-in iterable must be a Range, InclusiveRange, Array, or Map, found ");
                push_type_text(&mut s, target_type);
                proof {
                    assert(s@ =~= self.message_text());
                }
                s
            },
            TypeError::UnknownField { target_type, field_name, .. } => {
                let mut s = String::new();
                s.push_str("Type ");
                push_type_text(&mut s, target_type);
                s.push_str(" has no field named '");
                push_string(&mut s, field_name);
                s.push_str("'");
                proof {
                    assert(s@ =~= self.message_text());
                }
                s
            },
            TypeError::BreakOutsideLoop { .. } => {
                let mut s = String::new();
                s.push_str("'break' must be inside a loop");
                proof {
                    assert(s@ =~= self.message_text());
                }
                s
            },
            TypeError::ContinueOutsideLoop { .. } => {
                let mut s = String::new();
                s.push_str("'continue' must be inside a loop");
                proof {
                    assert(s@ =~= self.message_text());
                }
                s
            },
            TypeError::EmptyMatch { .. } => {
                let mut s = String::new();
                s.push_str("Must have at least one case in match statement");
                proof {
                    assert(s@ =~= self.message_text());
                }
                s
            },
            TypeError::UnknownLiteral { token, .. } => {
                let mut s = String::new();
                s.push_str("Unknown literal (");
                push_string(&mut s, &token.lexeme);
                s.push_str(")");
                proof {
                    assert(s@ =~= self.message_text());
                }
                s
            },
            TypeError::MissingElseBranch { .. } => {
                let mut s = String::new();
                s.push_str("Must have an else branch in if expression");
                proof {
                    assert(s@ =~= self.message_text());
                }
                s
            },
            TypeError::ArgumentCountMismatch { expected, found, .. } => {
                let mut s = String::new();
                s.push_str("Expected ");
                push_decimal(&mut s, *expected as u64);
                s.push_str(" arguments, found ");
                push_decimal(&mut s, *found as u64);
                proof {
                    assert(s@ =~= self.message_text());
                }
                s
            },
            TypeError::EnumVariantPayloadCountMismatch { variant_identifier, expected, found, .. } => {
                let mut s = String::new();
                s.push_str("Enum variant '");
                push_string(&mut s, variant_identifier);
                s.push_str("' expected ");
                push_decimal(&mut s, *expected as u64);
                s.push_str(" arguments, found ");
                push_decimal(&mut s, *found as u64);
                proof {
                    assert(s@ =~= self.message_text());
                }
                s
            },
            TypeError::InvalidEnumVariant { enum_type, variant_identifier, .. } => {
                let mut s = String::new();
                s.push_str("Enum type ");
                push_type_text(&mut s, enum_type);
                s.push_str(" has no variant named '");
                push_string(&mut s, variant_identifier);
                s.push_str("'");
                proof {
                    assert(s@ =~= self.message_text());
                }
                s
            },
            TypeError::InvalidEnumPatternTarget { subject_type, .. } => {
                let mut s = String::new();
                s.push_str("Cannot pattern match enum variant on non-enum type ");
                push_type_text(&mut s, subject_type);
                proof {
                    assert(s@ =~= self.message_text());
                }
                s
            },
            TypeError::DuplicateEnumVariant { variant_identifier, .. } => {
                let mut s = String::new();
                s.push_str("Duplicate enum variant '");
                push_string(&mut s, variant_identifier);
                s.push_str("'");
                proof {
                    assert(s@ =~= self.message_text());
                }
                s
            },
            TypeError::TupleFieldOutOfRange { index, tuple_type, .. } => {
                let mut s = String::new();
                s.push_str("Tuple field index ");
                push_decimal(&mut s, *index as u64);
                s.push_str(" is out of range for type ");
                push_type_text(&mut s, tuple_type);
                proof {
                    assert(s@ =~= self.message_text());
                }
                s
            },
            TypeError::TupleArityMismatch { expected, found, .. } => {
                let mut s = String::new();
                s.push_str("Tuple size mismatch: expected ");
                push_decimal(&mut s, *expected as u64);
                s.push_str(" elements, found ");
                push_decimal(&mut s, *found as u64);
                proof {
                    assert(s@ =~= self.message_text());
                }
                s
            },
            TypeError::DestructureRequiresTuple { target_type, .. } => {
                let mut s = String::new();
                s.push_str("Tuple destructuring requires a tuple type, found ");
                push_type_text(&mut s, target_type);
                proof {
                    assert(s@ =~= self.message_text());
                }
                s
            },
            TypeError::TypeVariableLimit { .. } => {
                let s = "Too many type variables to check this program".to_owned();
                s
            },
        }
    }
}

impl ErrorWithLocation for TypeError {
    open spec fn line_of(&self) -> Option<u32> {
        match self {
            TypeError::MismatchedTypes { line, .. } => Some(*line),
            TypeError::InfiniteType { line, .. } => Some(*line),
            TypeError::MissingTypeAnnotationAndInitializer { line, .. } => Some(*line),
            TypeError::UndefinedVariable { line, .. } => Some(*line),
            TypeError::ConditionNotBoolean { line, .. } => Some(*line),
            TypeError::InvalidUnaryOperand { line, .. } => Some(*line),
            TypeError::InvalidBinaryOperands { line, .. } => Some(*line),
            TypeError::InvalidIndexTarget { line, .. } => Some(*line),
            TypeError::InvalidIndexType { line, .. } => Some(*line),
            TypeError::InvalidFieldAccessTarget { line, .. } => Some(*line),
            TypeError::InvalidCallTarget { line, .. } => Some(*line),
            TypeError::InvalidMapKeyType { line, .. } => Some(*line),
            TypeError::InvalidForInTarget { line, .. } => Some(*line),
            TypeError::UnknownField { line, .. } => Some(*line),
            TypeError::BreakOutsideLoop { line, .. } => Some(*line),
            TypeError::ContinueOutsideLoop { line, .. } => Some(*line),
            TypeError::EmptyMatch { line, .. } => Some(*line),
            TypeError::UnknownLiteral { line, .. } => Some(*line),
            TypeError::MissingElseBranch { line, .. } => Some(*line),
            TypeError::ArgumentCountMismatch { line, .. } => Some(*line),
            TypeError::EnumVariantPayloadCountMismatch { line, .. } => Some(*line),
            TypeError::InvalidEnumVariant { line, .. } => Some(*line),
            TypeError::InvalidEnumPatternTarget { line, .. } => Some(*line),
            TypeError::DuplicateEnumVariant { line, .. } => Some(*line),
            TypeError::TupleFieldOutOfRange { line, .. } => Some(*line),
            TypeError::TupleArityMismatch { line, .. } => Some(*line),
            TypeError::DestructureRequiresTuple { line, .. } => Some(*line),
            TypeError::TypeVariableLimit { line, .. } => Some(*line),
        }
    }

    open spec fn column_of(&self) -> Option<u32> {
        match self {
            TypeError::MismatchedTypes { column, .. } => Some(*column),
            TypeError::InfiniteType { column, .. } => Some(*column),
            TypeError::MissingTypeAnnotationAndInitializer { column, .. } => Some(*column),
            TypeError::UndefinedVariable { column, .. } => Some(*column),
            TypeError::ConditionNotBoolean { column, .. } => Some(*column),
            TypeError::InvalidUnaryOperand { column, .. } => Some(*column),
            TypeError::InvalidBinaryOperands { column, .. } => Some(*column),
            TypeError::InvalidIndexTarget { column, .. } => Some(*column),
            TypeError::InvalidIndexType { column, .. } => Some(*column),
            TypeError::InvalidFieldAccessTarget { column, .. } => Some(*column),
            TypeError::InvalidCallTarget { column, .. } => Some(*column),
            TypeError::InvalidMapKeyType { column, .. } => Some(*column),
            TypeError::InvalidForInTarget { column, .. } => Some(*column),
            TypeError::UnknownField { column, .. } => Some(*column),
            TypeError::BreakOutsideLoop { column, .. } => Some(*column),
            TypeError::ContinueOutsideLoop { column, .. } => Some(*column),
            TypeError::EmptyMatch { column, .. } => Some(*column),
            TypeError::UnknownLiteral { column, .. } => Some(*column),
            TypeError::MissingElseBranch { column, .. } => Some(*column),
            TypeError::ArgumentCountMismatch { column, .. } => Some(*column),
            TypeError::EnumVariantPayloadCountMismatch { column, .. } => Some(*column),
            TypeError::InvalidEnumVariant { column, .. } => Some(*column),
            TypeError::InvalidEnumPatternTarget { column, .. } => Some(*column),
            TypeError::DuplicateEnumVariant { column, .. } => Some(*column),
            TypeError::TupleFieldOutOfRange { column, .. } => Some(*column),
            TypeError::TupleArityMismatch { column, .. } => Some(*column),
            TypeError::DestructureRequiresTuple { column, .. } => Some(*column),
            TypeError::TypeVariableLimit { column, .. } => Some(*column),
        }
    }

    fn line(&self) -> (l: Option<u32>) {
        match self {
            TypeError::MismatchedTypes { line, .. } => Some(*line),
            TypeError::InfiniteType { line, .. } => Some(*line),
            TypeError::MissingTypeAnnotationAndInitializer { line, .. } => Some(*line),
            TypeError::UndefinedVariable { line, .. } => Some(*line),
            TypeError::ConditionNotBoolean { line, .. } => Some(*line),
            TypeError::InvalidUnaryOperand { line, .. } => Some(*line),
            TypeError::InvalidBinaryOperands { line, .. } => Some(*line),
            TypeError::InvalidIndexTarget { line, .. } => Some(*line),
            TypeError::InvalidIndexType { line, .. } => Some(*line),
            TypeError::InvalidFieldAccessTarget { line, .. } => Some(*line),
            TypeError::InvalidCallTarget { line, .. } => Some(*line),
            TypeError::InvalidMapKeyType { line, .. } => Some(*line),
            TypeError::InvalidForInTarget { line, .. } => Some(*line),
            TypeError::UnknownField { line, .. } => Some(*line),
            TypeError::BreakOutsideLoop { line, .. } => Some(*line),
            TypeError::ContinueOutsideLoop { line, .. } => Some(*line),
            TypeError::EmptyMatch { line, .. } => Some(*line),
            TypeError::UnknownLiteral { line, .. } => Some(*line),
            TypeError::MissingElseBranch { line, .. } => Some(*line),
            TypeError::ArgumentCountMismatch { line, .. } => Some(*line),
            TypeError::EnumVariantPayloadCountMismatch { line, .. } => Some(*line),
            TypeError::InvalidEnumVariant { line, .. } => Some(*line),
            TypeError::InvalidEnumPatternTarget { line, .. } => Some(*line),
            TypeError::DuplicateEnumVariant { line, .. } => Some(*line),
            TypeError::TupleFieldOutOfRange { line, .. } => Some(*line),
            TypeError::TupleArityMismatch { line, .. } => Some(*line),
            TypeError::DestructureRequiresTuple { line, .. } => Some(*line),
            TypeError::TypeVariableLimit { line, .. } => Some(*line),
        }
    }

    fn column(&self) -> (c: Option<u32>) {
        match self {
            TypeError::MismatchedTypes { column, .. } => Some(*column),
            TypeError::InfiniteType { column, .. } => Some(*column),
            TypeError::MissingTypeAnnotationAndInitializer { column, .. } => Some(*column),
            TypeError::UndefinedVariable { column, .. } => Some(*column),
            TypeError::ConditionNotBoolean { column, .. } => Some(*column),
            TypeError::InvalidUnaryOperand { column, .. } => Some(*column),
            TypeError::InvalidBinaryOperands { column, .. } => Some(*column),
            TypeError::InvalidIndexTarget { column, .. } => Some(*column),
            TypeError::InvalidIndexType { column, .. } => Some(*column),
            TypeError::InvalidFieldAccessTarget { column, .. } => Some(*column),
            TypeError::InvalidCallTarget { column, .. } => Some(*column),
            TypeError::InvalidMapKeyType { column, .. } => Some(*column),
            TypeError::InvalidForInTarget { column, .. } => Some(*column),
            TypeError::UnknownField { column, .. } => Some(*column),
            TypeError::BreakOutsideLoop { column, .. } => Some(*column),
            TypeError::ContinueOutsideLoop { column, .. } => Some(*column),
            TypeError::EmptyMatch { column, .. } => Some(*column),
            TypeError::UnknownLiteral { column, .. } => Some(*column),
            TypeError::MissingElseBranch { column, .. } => Some(*column),
            TypeError::ArgumentCountMismatch { column, .. } => Some(*column),
            TypeError::EnumVariantPayloadCountMismatch { column, .. } => Some(*column),
            TypeError::InvalidEnumVariant { column, .. } => Some(*column),
            TypeError::InvalidEnumPatternTarget { column, .. } => Some(*column),
            TypeError::DuplicateEnumVariant { column, .. } => Some(*column),
            TypeError::TupleFieldOutOfRange { column, .. } => Some(*column),
            TypeError::TupleArityMismatch { column, .. } => Some(*column),
            TypeError::DestructureRequiresTuple { column, .. } => Some(*column),
            TypeError::TypeVariableLimit { column, .. } => Some(*column),
        }
    }
}

impl ErrorMessage for UnifyError {
    open spec fn message_text(&self) -> Seq<char> {
        match self {
            UnifyError::MismatchedTypes { expected, found, .. } => "Type mismatch: expected "@ + type_text(expected@) + ", found "@ + type_text(found@),
            UnifyError::InfiniteType { type_var_id, type_expr, .. } => "Cannot construct infinite type: type variable "@ + decimal(*type_var_id as nat) + " occurs in "@ + type_text(type_expr@),
        }
    }

    fn message(&self) -> (m: String) {
        match self {
            UnifyError::MismatchedTypes { expected, found, .. } => {
                let mut s = String::new();
                s.push_str("Type mismatch: expected ");
                push_type_text(&mut s, expected);
                s.push_str(", found ");
                push_type_text(&mut s, found);
                proof {
                    assert(s@ =~= self.message_text());
                }
                s
            },
            UnifyError::InfiniteType { type_var_id, type_expr, .. } => {
                let mut s = String::new();
                s.push_str("Cannot construct infinite type: type variable ");
                push_decimal(&mut s, *type_var_id as u64);
                s.push_str(" occurs in ");
                push_type_text(&mut s, type_expr);
                proof {
                    assert(s@ =~= self.message_text());
                }
                s
            },
        }
    }
}

impl ErrorMessage for CodegenError {
    open spec fn message_text(&self) -> Seq<char> {
        match self {
            CodegenError::MissingType { identifier, .. } => "Could not determine type for '"@ + identifier@ + "'"@,
            CodegenError::UnexpectedTypeInCodegen { expected, found_type, .. } => "Internal codegen error: expected "@ + expected@ + ", but found "@ + type_text(found_type@),
            CodegenError::InvalidEnumArgumentCount { variant_identifier, expected, found, .. } => "Enum variant '"@ + variant_identifier@ + "' expected "@ + decimal(*expected as nat) + " arguments, found "@ + decimal(*found as nat),
            CodegenError::InvalidCallTarget { target_type, .. } => "Cannot call value of type "@ + (match target_type { Some(t) => type_text(t@), None => "UNKNOWN"@ }),
            CodegenError::MissingElseInIfExpression { .. } => "Missing else branch in if expression"@,
            CodegenError::BlockExpressionMissingEndExpression { .. } => "Block expression must end with an expression"@,
            CodegenError::UnsupportedMatchPattern { .. } => "Unsupported match pattern"@,
            CodegenError::UnknownEnumVariantInPattern { enum_identifier, .. } => "Unknown enum variant in pattern for enum '"@ + enum_identifier@ + "'"@,
            CodegenError::InvalidEnumPatternArgumentCount { variant_identifier, enum_identifier, expected, found, .. } => "Invalid number of patterns for enum variant '"@ + variant_identifier@ + "' of enum '"@ + enum_identifier@ + "' - expected "@ + decimal(*expected as nat) + ", but found "@ + decimal(*found as nat),
        }
    }

    fn message(&self) -> (m: String) {
        match self {
            CodegenError::MissingType { identifier, .. } => {
                let mut s = String::new();
                s.push_str("Could not determine type for '");
                push_string(&mut s, identifier);
                s.push_str("'");
                proof {
                    assert(s@ =~= self.message_text());
                }
                s
            },
            CodegenError::UnexpectedTypeInCodegen { expected, found_type, .. } => {
                let mut s = String::new();
                s.push_str("Internal codegen error: expected ");
                s.push_str(expected);
                s.push_str(", but found ");
                push_type_text(&mut s, found_type);
                proof {
                    assert(s@ =~= self.message_text());
                }
                s
            },
            CodegenError::InvalidEnumArgumentCount { variant_identifier, expected, found, .. } => {
                let mut s = String::new();
                s.push_str("Enum variant '");
                push_string(&mut s, variant_identifier);
                s.push_str("' expected ");
                push_decimal(&mut s, *expected as u64);
                s.push_str(" arguments, found ");
                push_decimal(&mut s, *found as u64);
                proof {
                    assert(s@ =~= self.message_text());
                }
                s
            },
            CodegenError::InvalidCallTarget { target_type, .. } => {
                let mut s = String::new();
                s.push_str("Cannot call value of type ");
                match target_type { Some(t) => push_type_text(&mut s, t), None => s.push_str("UNKNOWN") }
                proof {
                    assert(s@ =~= self.message_text());
                }
                s
            },
            CodegenError::MissingElseInIfExpression { .. } => {
                let mut s = String::new();
                s.push_str("Missing else branch in if expression");
                proof {
                    assert(s@ =~= self.message_text());
                }
                s
            },
            CodegenError::BlockExpressionMissingEndExpression { .. } => {
                let mut s = String::new();
                s.push_str("Block expression must end with an expression");
                proof {
                    assert(s@ =~= self.message_text());
                }
                s
            },
            CodegenError::UnsupportedMatchPattern { .. } => {
                let mut s = String::new();
                s.push_str("Unsupported match pattern");
                proof {
                    assert(s@ =~= self.message_text());
                }
                s
            },
            CodegenError::UnknownEnumVariantInPattern { enum_identifier, .. } => {
                let mut s = String::new();
                s.push_str("Unknown enum variant in pattern for enum '");
                push_string(&mut s, enum_identifier);
                s.push_str("'");
                proof {
                    assert(s@ =~= self.message_text());
                }
                s
            },
            CodegenError::InvalidEnumPatternArgumentCount { variant_identifier, enum_identifier, expected, found, .. } => {
                let mut s = String::new();
                s.push_str("Invalid number of patterns for enum variant '");
                push_string(&mut s, variant_identifier);
                s.push_str("' of enum '");
                push_string(&mut s, enum_identifier);
                s.push_str("' - expected ");
                push_decimal(&mut s, *expected as u64);
                s.push_str(", but found ");
                push_decimal(&mut s, *found as u64);
                proof {
                    assert(s@ =~= self.message_text());
                }
                s
            },
        }
    }
}

impl ErrorWithLocation for CodegenError {
    open spec fn line_of(&self) -> Option<u32> {
        match self {
            CodegenError::MissingType { line, .. } => Some(*line),
            CodegenError::UnexpectedTypeInCodegen { line, .. } => Some(*line),
            CodegenError::InvalidEnumArgumentCount { line, .. } => Some(*line),
            CodegenError::InvalidCallTarget { line, .. } => Some(*line),
            CodegenError::MissingElseInIfExpression { line, .. } => Some(*line),
            CodegenError::BlockExpressionMissingEndExpression { line, .. } => Some(*line),
            CodegenError::UnsupportedMatchPattern { line, .. } => Some(*line),
            CodegenError::UnknownEnumVariantInPattern { line, .. } => Some(*line),
            CodegenError::InvalidEnumPatternArgumentCount { line, .. } => Some(*line),
        }
    }

    open spec fn column_of(&self) -> Option<u32> {
        match self {
            CodegenError::MissingType { column, .. } => Some(*column),
            CodegenError::UnexpectedTypeInCodegen { column, .. } => Some(*column),
            CodegenError::InvalidEnumArgumentCount { column, .. } => Some(*column),
            CodegenError::InvalidCallTarget { column, .. } => Some(*column),
            CodegenError::MissingElseInIfExpression { column, .. } => Some(*column),
            CodegenError::BlockExpressionMissingEndExpression { column, .. } => Some(*column),
            CodegenError::UnsupportedMatchPattern { column, .. } => Some(*column),
            CodegenError::UnknownEnumVariantInPattern { column, .. } => Some(*column),
            CodegenError::InvalidEnumPatternArgumentCount { column, .. } => Some(*column),
        }
    }

    fn line(&self) -> (l: Option<u32>) {
        match self {
            CodegenError::MissingType { line, .. } => Some(*line),
            CodegenError::UnexpectedTypeInCodegen { line, .. } => Some(*line),
            CodegenError::InvalidEnumArgumentCount { line, .. } => Some(*line),
            CodegenError::InvalidCallTarget { line, .. } => Some(*line),
            CodegenError::MissingElseInIfExpression { line, .. } => Some(*line),
            CodegenError::BlockExpressionMissingEndExpression { line, .. } => Some(*line),
            CodegenError::UnsupportedMatchPattern { line, .. } => Some(*line),
            CodegenError::UnknownEnumVariantInPattern { line, .. } => Some(*line),
            CodegenError::InvalidEnumPatternArgumentCount { line, .. } => Some(*line),
        }
    }

    fn column(&self) -> (c: Option<u32>) {
        match self {
            CodegenError::MissingType { column, .. } => Some(*column),
            CodegenError::UnexpectedTypeInCodegen { column, .. } => Some(*column),
            CodegenError::InvalidEnumArgumentCount { column, .. } => Some(*column),
            CodegenError::InvalidCallTarget { column, .. } => Some(*column),
            CodegenError::MissingElseInIfExpression { column, .. } => Some(*column),
            CodegenError::BlockExpressionMissingEndExpression { column, .. } => Some(*column),
            CodegenError::UnsupportedMatchPattern { column, .. } => Some(*column),
            CodegenError::UnknownEnumVariantInPattern { column, .. } => Some(*column),
            CodegenError::InvalidEnumPatternArgumentCount { column, .. } => Some(*column),
        }
    }
}

impl ErrorMessage for CompilerRunnerError {
    open spec fn message_text(&self) -> Seq<char> {
        match self {
            CompilerRunnerError::FailedToGetCurrentDirectory => "Failed to get current directory"@,
            CompilerRunnerError::NoCompilerFound { compilers_tried, .. } => "No compiler found, tried: "@ + joined_strings(compilers_tried@),
            CompilerRunnerError::CompilationFailed { compiler, status, stderr, .. } => "Compilation failed using "@ + compiler@ + " with status "@ + signed_decimal(*status as int) + ":\n"@ + stderr@,
            CompilerRunnerError::IoError { message, .. } => "IO error: "@ + message@,
        }
    }

    fn message(&self) -> (m: String) {
        match self {
            CompilerRunnerError::FailedToGetCurrentDirectory => {
                let mut s = String::new();
                s.push_str("Failed to get current directory");
                proof {
                    assert(s@ =~= self.message_text());
                }
                s
            },
            CompilerRunnerError::NoCompilerFound { compilers_tried, .. } => {
                let mut s = String::new();
                s.push_str("No compiler found, tried: ");
                push_joined_strings(&mut s, compilers_tried);
                proof {
                    assert(s@ =~= self.message_text());
                }
                s
            },
            CompilerRunnerError::CompilationFailed { compiler, status, stderr, .. } => {
                let mut s = String::new();
                s.push_str("Compilation failed using ");
                push_string(&mut s, compiler);
                s.push_str(" with status ");
                push_signed_decimal(&mut s, *status);
                s.push_str(":\n");
                push_string(&mut s, stderr);
                proof {
                    assert(s@ =~= self.message_text());
                }
                s
            },
            CompilerRunnerError::IoError { message, .. } => {
                let mut s = String::new();
                s.push_str("IO error: ");
                push_string(&mut s, message);
                proof {
                    assert(s@ =~= self.message_text());
                }
                s
            },
        }
    }
}

impl ErrorWithLocation for CompilerRunnerError {
    open spec fn line_of(&self) -> Option<u32> {
        None
    }

    open spec fn column_of(&self) -> Option<u32> {
        None
    }

    fn line(&self) -> (l: Option<u32>) {
        None
    }

    fn column(&self) -> (c: Option<u32>) {
        None
    }
}

} // verus!
