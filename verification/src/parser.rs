use vstd::prelude::*;
use std::rc::Rc;
use crate::ast::{copy_expr, Expr, FunctionStmt, MatchCase, Pattern, Stmt, VariableBinding};
use crate::error::{ErrorWithLocation, ParseError};
use crate::token::{Literal, Token, TokenType};
use crate::types::{types_view, EnumVariant, TypeExpr, TypeView};

verus! {

/// There is an `Eof` token at or after position `i`.
pub open spec fn eof_ahead(ts: Seq<Token>, i: int) -> bool {
    exists|e: int| i <= e < ts.len() && #[trigger] ts[e].token_type == TokenType::Eof
}

/// `e` is reported at the line and column of `t`.
pub open spec fn reported_at(e: ParseError, t: Token) -> bool {
    e.line_of() == Some(t.line) && e.column_of() == Some(t.column)
}

/// `e` is reported at the position of one of the tokens `ts`.
pub open spec fn located(e: ParseError, ts: Seq<Token>) -> bool {
    exists|i: int| 0 <= i < ts.len() && reported_at(e, #[trigger] ts[i])
}

/// Parses tokens into statements by recursive descent.
pub struct Parser {
    tokens: Vec<Token>,
    current: usize,
    errors: Vec<ParseError>,
}

/// `b` is `a` after some parsing: the same tokens, a position no earlier,
/// the same errors recorded.
pub open spec fn moved_on(a: Parser, b: Parser) -> bool {
    &&& b.wf()
    &&& b.tokens() == a.tokens()
    &&& b.pos() >= a.pos()
    &&& b.recorded() == a.recorded()
}

impl Parser {
    /// The tokens being parsed.
    pub closed spec fn tokens(&self) -> Seq<Token> {
        self.tokens@
    }

    /// The position of the next token to parse.
    pub closed spec fn pos(&self) -> int {
        self.current as int
    }

    /// The errors recorded and not yet handed out.
    pub closed spec fn recorded(&self) -> Seq<ParseError> {
        self.errors@
    }

    /// The number of errors recorded and not yet handed out.
    pub open spec fn error_count(&self) -> nat {
        self.recorded().len()
    }

    /// The position is within the tokens, with an `Eof` at or after it.
    pub open spec fn wf(&self) -> bool {
        0 <= self.pos() < self.tokens().len() && eof_ahead(self.tokens(), self.pos())
    }

    /// The next token is `Eof`.
    pub open spec fn at_end(&self) -> bool {
        self.tokens()[self.pos()].token_type == TokenType::Eof
    }

    /// How many tokens are left from the position on.
    pub open spec fn remaining(&self) -> nat {
        (self.tokens().len() - self.pos()) as nat
    }

    /// A parser at the start of `tokens`, which must hold an `Eof`.
    pub fn new(tokens: Vec<Token>) -> (p: Self)
        requires
            eof_ahead(tokens@, 0),
        ensures
            p.wf(),
            p.tokens() == tokens@,
            p.pos() == 0,
            p.error_count() == 0,
    {
        Self { tokens, current: 0, errors: Vec::new() }
    }

    fn peek(&self) -> (t: &Token)
        requires
            self.wf(),
        ensures
            *t == self.tokens()[self.pos()],
    {
        &self.tokens[self.current]
    }

    fn peek_next(&self) -> (t: &Token)
        requires
            self.wf(),
        ensures
            self.pos() + 1 < self.tokens().len() ==> *t == self.tokens()[self.pos() + 1],
            self.pos() + 1 >= self.tokens().len() ==> *t == self.tokens()[self.pos()],
    {
        let n = self.tokens.len();
        if self.current >= n - 1 {
            &self.tokens[self.current]
        } else {
            &self.tokens[self.current + 1]
        }
    }

    fn previous(&self) -> (t: &Token)
        requires
            self.wf(),
        ensures
            self.pos() == 0 ==> *t == self.tokens()[0],
            self.pos() > 0 ==> *t == self.tokens()[self.pos() - 1],
    {
        if self.current == 0 {
            &self.tokens[0]
        } else {
            &self.tokens[self.current - 1]
        }
    }

    fn is_at_end(&self) -> (b: bool)
        requires
            self.wf(),
        ensures
            b == self.at_end(),
    {
        self.tokens[self.current].token_type == TokenType::Eof
    }

    fn check(&self, token_type: TokenType) -> (b: bool)
        requires
            self.wf(),
        ensures
            b == (!self.at_end() && self.tokens()[self.pos()].token_type == token_type),
    {
        if self.is_at_end() {
            return false;
        }
        self.peek().token_type == token_type
    }

    fn advance(&mut self)
        requires
            old(self).wf(),
        ensures
            moved_on(*old(self), *final(self)),
            final(self).pos() == if old(self).at_end() {
                old(self).pos()
            } else {
                old(self).pos() + 1
            },
    {
        let n = self.tokens.len();
        if !self.is_at_end() {
            proof {
                let e = choose|e: int| self.pos() <= e < self.tokens().len() && #[trigger] self.tokens()[e].token_type
                    == TokenType::Eof;
                assert(e != self.pos());
            }
            self.current = self.current + 1;
        }
    }

    fn matches(&mut self, types: &[TokenType]) -> (b: bool)
        requires
            old(self).wf(),
        ensures
            moved_on(*old(self), *final(self)),
            b == (!old(self).at_end() && types@.contains(old(self).tokens()[old(self).pos()].token_type)),
            !b ==> *final(self) == *old(self),
            final(self).pos() == if b {
                old(self).pos() + 1
            } else {
                old(self).pos()
            },
    {
        let mut i: usize = 0;
        while i < types.len()
            invariant
                i <= types@.len(),
                self.wf(),
                *self == *old(self),
                forall|j: int| 0 <= j < i ==> !(!self.at_end() && types@[j] == self.tokens()[self.pos()].token_type),
            decreases types@.len() - i,
        {
            if self.check(types[i]) {
                self.advance();
                return true;
            }
            i = i + 1;
        }
        proof {
            if !old(self).at_end() && types@.contains(old(self).tokens()[old(self).pos()].token_type) {
                let j = choose|j: int| 0 <= j < types@.len() && types@[j] == old(self).tokens()[old(self).pos()].token_type;
                assert(!(!self.at_end() && types@[j] == self.tokens()[self.pos()].token_type));
            }
        }
        false
    }

    /// The error for a token of kind `expected` that is not next.
    fn expected(&self, expected: TokenType) -> (e: ParseError)
        requires
            self.wf(),
        ensures
            reported_at(e, self.tokens()[self.pos()]),
    {
        let next = self.peek();
        let mut kinds: Vec<TokenType> = Vec::new();
        kinds.push(expected);
        ParseError::ExpectedToken { line: next.line, column: next.column, expected: kinds, found: next.clone() }
    }

    fn consume(&mut self, token_type: TokenType) -> (r: Result<Token, ParseError>)
        requires
            old(self).wf(),
        ensures
            moved_on(*old(self), *final(self)),
            r is Ok <==> (!old(self).at_end() && old(self).tokens()[old(self).pos()].token_type == token_type),
            r is Ok ==> final(self).pos() == old(self).pos() + 1,
            r matches Ok(t) ==> t@ == old(self).tokens()[old(self).pos()]@ && t.token_type == token_type,
            r matches Err(e) ==> reported_at(e, old(self).tokens()[old(self).pos()]) && final(self).pos()
                == old(self).pos(),
    {
        if self.check(token_type) {
            let t = self.peek().clone();
            self.advance();
            Ok(t)
        } else {
            Err(self.expected(token_type))
        }
    }
}

} // verus!

verus! {

/// What a parsing step from `a` ends in, with result `r`: `b` has moved on
/// from `a`, past at least one token when `r` is `Ok`, and an error is
/// reported at one of the tokens.
pub open spec fn parsed_step<T>(a: Parser, b: Parser, r: Result<T, ParseError>) -> bool {
    &&& moved_on(a, b)
    &&& r is Ok ==> b.pos() > a.pos()
    &&& r matches Err(e) ==> located(e, a.tokens())
}

/// Like `parsed_step`, for a step that may succeed without consuming any
/// token.
pub open spec fn parsed_maybe<T>(a: Parser, b: Parser, r: Result<T, ParseError>) -> bool {
    &&& moved_on(a, b)
    &&& r matches Err(e) ==> located(e, a.tokens())
}

/// A one-kind list holds `k` exactly when `k` is that kind.
proof fn lemma_single_kind(t: TokenType, k: TokenType)
    ensures
        seq![t].contains(k) <==> k == t,
{
    if k == t {
        assert(seq![t][0] == k);
    }
}

/// A token kind that ends an expression begun before it: a comma, a
/// closing parenthesis, bracket or brace, or the end of the input.
pub open spec fn stop_kind(k: TokenType) -> bool {
    k == TokenType::Comma || k == TokenType::RightParen || k == TokenType::RightBracket || k == TokenType::RightBrace
        || k == TokenType::Eof
}

/// A token kind that ends an operand of a binary operator: a stop, or an
/// assignment operator.
pub open spec fn operand_end(k: TokenType) -> bool {
    stop_kind(k) || assignment_operator(k)
}

/// `=` or a compound assignment operator.
pub open spec fn assignment_operator(k: TokenType) -> bool {
    k == TokenType::Equal || k == TokenType::PlusEqual || k == TokenType::MinusEqual || k == TokenType::StarEqual || k
        == TokenType::SlashEqual || k == TokenType::PercentEqual || k == TokenType::CaretEqual
}

/// The next token is a literal or a name.
pub open spec fn simple_start(k: TokenType) -> bool {
    k == TokenType::Number || k == TokenType::String || k == TokenType::Identifier
}

/// The next token is a literal or a name that nothing continues: the
/// token after it is a stop.
pub open spec fn lone_literal(p: Parser) -> bool {
    simple_start(kind_at(p, 0)) && stop_kind(kind_at(p, 1))
}

/// The next token is a literal or a name followed by the end of an operand.
pub open spec fn lone_operand(p: Parser) -> bool {
    simple_start(kind_at(p, 0)) && operand_end(kind_at(p, 1))
}

/// `+` or `-`.
pub open spec fn additive_operator(k: TokenType) -> bool {
    k == TokenType::Plus || k == TokenType::Minus
}

/// The next token is a literal or a name followed by the end of an operand
/// or by `+` or `-`.
pub open spec fn lone_summand(p: Parser) -> bool {
    simple_start(kind_at(p, 0)) && (operand_end(kind_at(p, 1)) || additive_operator(kind_at(p, 1)))
}

/// From the position of `p` on: `n` literals or names with `+` or `-`
/// between each two, then the end of an operand.
pub open spec fn additive_chain(p: Parser, n: nat) -> bool {
    &&& n >= 1
    &&& forall|i: int| 0 <= i < n ==> #[trigger] simple_start(kind_at(p, 2 * i))
    &&& forall|i: int| 0 <= i < n - 1 ==> #[trigger] additive_operator(kind_at(p, 2 * i + 1))
    &&& operand_end(kind_at(p, 2 * n - 1))
}

/// `*`, `/` or `%`.
pub open spec fn multiplicative_operator(k: TokenType) -> bool {
    k == TokenType::Star || k == TokenType::Slash || k == TokenType::Percent
}

/// The next token is a literal or a name followed by the end of an operand
/// or by `*`, `/` or `%`.
pub open spec fn lone_multiplicand(p: Parser) -> bool {
    simple_start(kind_at(p, 0)) && (operand_end(kind_at(p, 1)) || multiplicative_operator(kind_at(p, 1)))
}

/// From the position of `p` on: `n` literals or names with `*`, `/` or
/// `%` between each two, then the end of an operand.
pub open spec fn multiplicative_chain(p: Parser, n: nat) -> bool {
    &&& n >= 1
    &&& forall|i: int| 0 <= i < n ==> #[trigger] simple_start(kind_at(p, 2 * i))
    &&& forall|i: int| 0 <= i < n - 1 ==> #[trigger] multiplicative_operator(kind_at(p, 2 * i + 1))
    &&& operand_end(kind_at(p, 2 * n - 1))
}

/// A three-kind list holds `k` exactly when `k` is one of them.
proof fn lemma_three_kinds(t: TokenType, u: TokenType, v: TokenType, k: TokenType)
    ensures
        seq![t, u, v].contains(k) <==> (k == t || k == u || k == v),
{
    if k == t {
        assert(seq![t, u, v][0] == k);
    }
    if k == u {
        assert(seq![t, u, v][1] == k);
    }
    if k == v {
        assert(seq![t, u, v][2] == k);
    }
}

/// `e` groups the first `n` operands of a chain at `p` to the left: the
/// operator before the last operand is at the root, its right side that
/// operand alone, its left side the first `n - 1` operands grouped the same
/// way.
pub open spec fn grouped_left(e: Expr, p: Parser, n: nat) -> bool
    decreases n,
{
    if n <= 1 {
        lone_expr(e, token_at(p, 0))
    } else {
        match e {
            Expr::Binary { left, operator, right } => {
                &&& operator@ == token_at(p, 2 * n - 3)
                &&& lone_expr(*right, token_at(p, 2 * n - 2))
                &&& grouped_left(*left, p, (n - 1) as nat)
            },
            _ => false,
        }
    }
}

/// From the position of `p` on: `n` literals or names joined by `+` and
/// `-`, or by `*`, `/` and `%`, then the end of an operand.
pub open spec fn left_chain(p: Parser, n: nat) -> bool {
    additive_chain(p, n) || multiplicative_chain(p, n)
}

/// Such a chain whose end is a stop.
pub open spec fn ended_chain(p: Parser, n: nat) -> bool {
    left_chain(p, n) && stop_kind(kind_at(p, 2 * n - 1))
}

/// `e` is every chain at `a` grouped to the left, and `b` is just past it.
pub open spec fn chain_parsed(a: Parser, b: Parser, e: Expr) -> bool {
    forall|n: nat| #[trigger] left_chain(a, n) ==> grouped_left(e, a, n) && b.pos() == a.pos() + 2 * n - 1
}

/// Where a chain starts at `a`, parsing it succeeds, grouped to the left.
pub open spec fn chain_outcome(a: Parser, b: Parser, r: Result<Expr, ParseError>) -> bool {
    (exists|n: nat| left_chain(a, n)) ==> (r matches Ok(e) && chain_parsed(a, b, e))
}

/// `e` is every chain at `a` that ends in a stop grouped to the left, and
/// `b` is just past it.
pub open spec fn ended_chain_parsed(a: Parser, b: Parser, e: Expr) -> bool {
    forall|n: nat| #[trigger] ended_chain(a, n) ==> grouped_left(e, a, n) && b.pos() == a.pos() + 2 * n - 1
}

/// Where a chain that ends in a stop starts at `a`, parsing it succeeds,
/// grouped to the left.
pub open spec fn ended_chain_outcome(a: Parser, b: Parser, r: Result<Expr, ParseError>) -> bool {
    (exists|n: nat| ended_chain(a, n)) ==> (r matches Ok(e) && ended_chain_parsed(a, b, e))
}

/// Where a chain that ends in a stop starts at `a`, the statement parsed
/// is that chain, grouped to the left, and `b` is just past it.
pub open spec fn chain_statement_outcome(a: Parser, b: Parser, r: Result<Stmt, ParseError>) -> bool {
    (exists|n: nat| ended_chain(a, n)) ==> (r matches Ok(Stmt::Expression(e)) && ended_chain_parsed(a, b, e))
}

/// Law: grouped to the left, `a op1 b op2 c` is `(a op1 b) op2 c`: the
/// second operator is at the root with `c` on its right, and the first
/// joins `a` and `b` on its left.
pub proof fn law_three_operands_group_left(e: Expr, p: Parser)
    requires
        grouped_left(e, p, 3),
    ensures
        e matches Expr::Binary { left, operator, right } && operator@ == token_at(p, 3) && lone_expr(
            *right,
            token_at(p, 4),
        ) && (*left matches Expr::Binary { left: l, operator: o, right: m } && lone_expr(*l, token_at(p, 0))
            && o@ == token_at(p, 1) && lone_expr(*m, token_at(p, 2))),
{
    if let Expr::Binary { left, .. } = e {
        assert(grouped_left(*left, p, 2));
        if let Expr::Binary { left: l, .. } = *left {
            assert(grouped_left(*l, p, 1));
        }
    }
}

/// A chain starts with a literal or a name.
proof fn lemma_chain_first(p: Parser, n: nat)
    requires
        left_chain(p, n),
    ensures
        simple_start(kind_at(p, 0)),
{
    let first: int = 0;
    assert(simple_start(kind_at(p, 2 * first)));
}

/// No list of operators holds the end of a chain.
proof fn lemma_chain_end_not_in(p: Parser, ops: Seq<TokenType>)
    requires
        forall|i: int| 0 <= i < ops.len() ==> !operand_end(#[trigger] ops[i]),
    ensures
        forall|n: nat| #[trigger] left_chain(p, n) ==> !ops.contains(kind_at(p, 2 * n - 1)),
{
    assert forall|n: nat| #[trigger] left_chain(p, n) implies !ops.contains(kind_at(p, 2 * n - 1)) by {
        lemma_operand_end_not_in(ops, kind_at(p, 2 * n - 1));
    }
}

/// `e` is the expression the single token `t` makes: a literal, or a
/// variable for a name.
pub open spec fn lone_expr(e: Expr, t: crate::token::TokenView) -> bool {
    match e {
        Expr::Literal(x) => x@ == t && (t.token_type == TokenType::Number || t.token_type == TokenType::String),
        Expr::Variable(x) => x@ == t && t.token_type == TokenType::Identifier,
        _ => false,
    }
}

/// No list of operators holds the end of an operand.
proof fn lemma_operand_end_not_in(ops: Seq<TokenType>, k: TokenType)
    requires
        forall|i: int| 0 <= i < ops.len() ==> !operand_end(#[trigger] ops[i]),
    ensures
        operand_end(k) ==> !ops.contains(k),
{
}

/// No list of operators holds a stop.
proof fn lemma_stop_kind_not_in(ops: Seq<TokenType>, k: TokenType)
    requires
        forall|i: int| 0 <= i < ops.len() ==> !stop_kind(#[trigger] ops[i]),
    ensures
        stop_kind(k) ==> !ops.contains(k),
{
}

/// The token before the position of `p` (the first token at the start).
pub open spec fn previous_token(p: Parser) -> crate::token::TokenView {
    if p.pos() > 0 {
        p.tokens()[p.pos() - 1]@
    } else {
        p.tokens()[0]@
    }
}

/// After `for`: `( ; ; ) break`, a loop with no clauses around a `break`.
pub open spec fn empty_for(p: Parser) -> bool {
    &&& kind_at(p, 0) == TokenType::LeftParen
    &&& kind_at(p, 1) == TokenType::Semicolon
    &&& kind_at(p, 2) == TokenType::Semicolon
    &&& kind_at(p, 3) == TokenType::RightParen
    &&& kind_at(p, 4) == TokenType::Break
}

/// `[t1, t2, ..., tn]` with `n` at least one and each `ti` a literal or a
/// name, starting at the position of `p`.
pub open spec fn simple_array(p: Parser, n: nat) -> bool {
    &&& n >= 1
    &&& kind_at(p, 0) == TokenType::LeftBracket
    &&& forall|i: int| 0 <= i < n ==> #[trigger] simple_start(kind_at(p, 1 + 2 * i)) && kind_at(p, 2 + 2 * i) == (if i + 1
        < n {
        TokenType::Comma
    } else {
        TokenType::RightBracket
    })
}

proof fn lemma_simple_array_unique(p: Parser, n: nat, m: nat)
    requires
        simple_array(p, n),
        simple_array(p, m),
    ensures
        n == m,
{
    if n < m {
        assert(simple_start(kind_at(p, 1 + 2 * (n - 1))));
        assert(simple_start(kind_at(p, 1 + 2 * ((n - 1) as int))));
    } else if m < n {
        assert(simple_start(kind_at(p, 1 + 2 * ((m - 1) as int))));
    }
}

/// `break`, `continue`, or the end of the input.
pub open spec fn jump_or_eof(k: TokenType) -> bool {
    k == TokenType::Break || k == TokenType::Continue || k == TokenType::Eof
}

/// Every token from the position of `p` on is `break`, `continue` or the
/// end of the input.
pub open spec fn jump_program(p: Parser) -> bool {
    forall|k: int| p.pos() <= k < p.tokens().len() ==> #[trigger] jump_or_eof(p.tokens()[k].token_type)
}

/// `s` is the statement the `break` or `continue` token `t` makes.
pub open spec fn jump_stmt(s: Stmt, t: crate::token::TokenView) -> bool {
    if t.token_type == TokenType::Break {
        s matches Stmt::Break(x) && x@ == t
    } else {
        s matches Stmt::Continue(x) && x@ == t
    }
}

/// A number or string literal.
pub open spec fn literal_kind(k: TokenType) -> bool {
    k == TokenType::Number || k == TokenType::String
}

/// A pattern that starts with a literal: the literal itself unless a range
/// operator follows; a range whose end is a literal of the same kind; a
/// mismatch error at an end of the other kind; a missing-end error at any
/// other token after the operator.
pub open spec fn range_pattern_outcome(p: Parser, q: Parser, r: Result<Pattern, ParseError>) -> bool {
    let k1 = kind_at(p, 1);
    let t0 = token_at(p, 0);
    let t2 = token_at(p, 2);
    if k1 != TokenType::DotDot && k1 != TokenType::DotDotEqual {
        r matches Ok(Pattern::Literal(t)) && t@ == t0 && q.pos() == p.pos() + 1
    } else if literal_kind(t2.token_type) && t2.token_type == t0.token_type {
        r matches Ok(Pattern::Range { start, end, is_inclusive }) && start@ == t0 && end@ == t2 && is_inclusive == (k1
            == TokenType::DotDotEqual) && q.pos() == p.pos() + 3
    } else if literal_kind(t2.token_type) {
        r matches Err(ParseError::MismatchedRangeBounds { line, column, start_bound, end_bound }) && line == t2.line
            && column == t2.column && start_bound@ == t0 && end_bound@ == t2
    } else {
        r matches Err(ParseError::MissingRangeEnd { line, column, start_bound }) && line == t2.line && column == t2.column
            && start_bound@ == t0
    }
}

/// A two-kind list holds `k` exactly when `k` is one of them.
proof fn lemma_two_kinds(t: TokenType, u: TokenType, k: TokenType)
    ensures
        seq![t, u].contains(k) <==> (k == t || k == u),
{
    if k == t {
        assert(seq![t, u][0] == k);
    }
    if k == u {
        assert(seq![t, u][1] == k);
    }
}

/// A token that can start a primary expression: a literal, a name, or an
/// opening bracket, brace or parenthesis.
pub open spec fn primary_start(k: TokenType) -> bool {
    k == TokenType::Number || k == TokenType::String || k == TokenType::Identifier || k == TokenType::LeftBracket || k
        == TokenType::LeftBrace || k == TokenType::LeftParen
}

/// The kind of the token `k` places after the position of `p`.
pub open spec fn kind_at(p: Parser, k: int) -> TokenType {
    p.tokens()[p.pos() + k].token_type
}

/// The token `k` places after the position of `p`.
pub open spec fn token_at(p: Parser, k: int) -> crate::token::TokenView {
    p.tokens()[p.pos() + k]@
}

/// The type named by the identifier `t`, with no type arguments.
pub open spec fn bare_type(t: crate::token::TokenView) -> TypeView {
    TypeView::Named {
        identifier: t,
        type_parameters: None,
        type_arguments: Seq::empty(),
        enum_variants: None,
        struct_fields: None,
    }
}

/// `Optional<inner>`, named at the `?` token `q`.
pub open spec fn optional_of(q: crate::token::TokenView, inner: TypeView) -> TypeView {
    TypeView::Named {
        identifier: crate::token::TokenView {
            token_type: TokenType::Identifier,
            lexeme: "Optional"@,
            literal: None,
            line: q.line,
            column: q.column,
        },
        type_parameters: None,
        type_arguments: seq![inner],
        enum_variants: None,
        struct_fields: None,
    }
}

/// A named type with no type arguments, written at a token's position.
fn plain_type(name: &str, at: &Token) -> (t: TypeExpr)
    ensures
        t@ == crate::type_ops::named_type(name@, at.line, at.column, Seq::empty()),
{
    let no_arguments: Vec<TypeExpr> = Vec::new();
    proof {
        assert(crate::types::types_view(no_arguments@) =~= Seq::<crate::types::TypeView>::empty());
    }
    TypeExpr::Named {
        identifier: Token {
            token_type: TokenType::Identifier,
            lexeme: name.to_owned(),
            literal: None,
            line: at.line,
            column: at.column,
        },
        type_parameters: None,
        type_arguments: no_arguments,
        enum_variants: None,
        struct_fields: None,
    }
}

impl Parser {
    /// A type: a name with optional type arguments in angle brackets and an
    /// optional `?` (making it `Optional`), a function type `(...) -> T`, a
    /// tuple type, a parenthesized type, or `()` for `Void`.
    fn type_expr(&mut self) -> (r: Result<TypeExpr, ParseError>)
        requires
            old(self).wf(),
        ensures
            parsed_step(*old(self), *final(self), r),
            kind_at(*old(self), 0) == TokenType::Identifier && kind_at(*old(self), 1) != TokenType::Less && kind_at(
                *old(self),
                1,
            ) != TokenType::Question ==> (r matches Ok(t) && t@ == bare_type(token_at(*old(self), 0)) && final(self).pos()
                == old(self).pos() + 1),
            kind_at(*old(self), 0) == TokenType::Identifier && kind_at(*old(self), 1) == TokenType::Question ==> (r matches Ok(
                t,
            ) && t@ == optional_of(token_at(*old(self), 1), bare_type(token_at(*old(self), 0))) && final(self).pos()
                == old(self).pos() + 2),
            kind_at(*old(self), 0) == TokenType::LeftParen && kind_at(*old(self), 1) == TokenType::RightParen && kind_at(
                *old(self),
                2,
            ) != TokenType::MinusGreater ==> (r matches Ok(t) && t@ == crate::type_ops::named_type(
                "Void"@,
                token_at(*old(self), 0).line,
                token_at(*old(self), 0).column,
                Seq::empty(),
            ) && final(self).pos() == old(self).pos() + 2),
            kind_at(*old(self), 0) == TokenType::LeftParen && kind_at(*old(self), 1) == TokenType::Identifier && kind_at(
                *old(self),
                2,
            ) == TokenType::RightParen && kind_at(*old(self), 3) != TokenType::MinusGreater ==> (r matches Ok(t) && t@
                == bare_type(token_at(*old(self), 1)) && final(self).pos() == old(self).pos() + 3),
            kind_at(*old(self), 0) == TokenType::LeftParen && kind_at(*old(self), 1) == TokenType::Identifier && kind_at(
                *old(self),
                2,
            ) == TokenType::Comma && kind_at(*old(self), 3) == TokenType::RightParen && kind_at(*old(self), 4)
                != TokenType::MinusGreater ==> (r matches Ok(t) && t@ == (TypeView::Tuple {
                element_types: seq![bare_type(token_at(*old(self), 1))],
            }) && final(self).pos() == old(self).pos() + 4),
            kind_at(*old(self), 0) != TokenType::LeftParen && kind_at(*old(self), 0) != TokenType::Identifier ==> (r matches Err(
                e,
            ) && reported_at(e, old(self).tokens()[old(self).pos()])),
        decreases old(self).remaining(),
    {
        let ghost start = *self;
        let ghost k0 = kind_at(start, 0);
        let ghost k1 = kind_at(start, 1);
        let ghost k2 = kind_at(start, 2);
        let ghost k3 = kind_at(start, 3);
        proof {
            lemma_single_kind(TokenType::LeftParen, k0);
        }
        if self.matches(&[TokenType::LeftParen]) {
            let left_paren = self.previous().clone();
            if self.check(TokenType::RightParen) {
                self.advance();
                proof {
                    lemma_single_kind(TokenType::MinusGreater, k2);
                }
                if self.matches(&[TokenType::MinusGreater]) {
                    let return_type = self.type_expr()?;
                    return Ok(TypeExpr::Function { parameter_types: Vec::new(), return_type: Box::new(return_type) });
                }
                return Ok(plain_type("Void", &left_paren));
            }
            let ghost scen_group = k1 == TokenType::Identifier && k2 == TokenType::RightParen;
            let ghost scen_tuple = k1 == TokenType::Identifier && k2 == TokenType::Comma && k3 == TokenType::RightParen;
            let first = self.type_expr()?;
            let mut element_types: Vec<TypeExpr> = Vec::new();
            element_types.push(first);
            let mut saw_comma = false;
            let mut had_trailing_comma = false;
            proof {
                lemma_single_kind(TokenType::Comma, k2);
                lemma_single_kind(TokenType::RightParen, k2);
            }
            while self.matches(&[TokenType::Comma])
                invariant_except_break
                    scen_group || scen_tuple ==> !saw_comma && self.pos() == start.pos() + 2,
                invariant
                    start == *old(self),
                    moved_on(start, *self),
                    self.pos() > start.pos(),
                    element_types@.len() >= 1,
                    !saw_comma ==> element_types@.len() == 1,
                    scen_group || scen_tuple ==> element_types@.len() == 1 && element_types@[0]@ == bare_type(
                        token_at(start, 1),
                    ),
                    k2 == kind_at(start, 2),
                    k3 == kind_at(start, 3),
                    scen_group == (kind_at(start, 1) == TokenType::Identifier && kind_at(start, 2) == TokenType::RightParen),
                    scen_tuple == (kind_at(start, 1) == TokenType::Identifier && kind_at(start, 2) == TokenType::Comma
                        && kind_at(start, 3) == TokenType::RightParen),
                    scen_tuple ==> kind_at(start, 2) == TokenType::Comma && kind_at(start, 3) == TokenType::RightParen,
                    scen_group ==> kind_at(start, 2) == TokenType::RightParen,
                    kind_at(start, 0) == TokenType::LeftParen,
                    kind_at(start, 1) != TokenType::RightParen,
                ensures
                    scen_group ==> !saw_comma && self.pos() == start.pos() + 2 && element_types@.len() == 1
                        && element_types@[0]@ == bare_type(token_at(start, 1)),
                    scen_tuple ==> saw_comma && had_trailing_comma && self.pos() == start.pos() + 3
                        && element_types@.len() == 1 && element_types@[0]@ == bare_type(token_at(start, 1)),
                    element_types@.len() >= 1,
                    !saw_comma ==> element_types@.len() == 1,
                    moved_on(start, *self),
                    self.pos() > start.pos(),
                decreases self.remaining(),
            {
                saw_comma = true;
                proof {
                    lemma_single_kind(TokenType::RightParen, k3);
                    lemma_single_kind(TokenType::Comma, kind_at(start, 2));
                }
                if self.check(TokenType::RightParen) {
                    had_trailing_comma = true;
                    break;
                }
                proof {
                    assert(!scen_group);
                    assert(!scen_tuple);
                }
                let t = self.type_expr()?;
                element_types.push(t);
            }
            self.consume(TokenType::RightParen)?;
            proof {
                lemma_single_kind(TokenType::MinusGreater, kind_at(start, 3));
                lemma_single_kind(TokenType::MinusGreater, kind_at(start, 4));
            }
            if self.matches(&[TokenType::MinusGreater]) {
                let return_type = self.type_expr()?;
                return Ok(TypeExpr::Function { parameter_types: element_types, return_type: Box::new(return_type) });
            }
            proof {
                crate::types::lemma_types_view_index(element_types@);
                if kind_at(start, 1) == TokenType::Identifier && kind_at(start, 2) == TokenType::Comma && kind_at(start, 3)
                    == TokenType::RightParen {
                    assert(types_view(element_types@) =~= seq![bare_type(token_at(start, 1))]);
                }
            }
            if saw_comma && !(element_types.len() == 1 && !had_trailing_comma) {
                return Ok(TypeExpr::Tuple { element_types });
            }
            let only = element_types.swap_remove(0);
            return Ok(only);
        }
        let identifier = self.consume(TokenType::Identifier)?;
        let mut type_arguments: Vec<TypeExpr> = Vec::new();
        proof {
            lemma_single_kind(TokenType::Less, kind_at(start, 1));
        }
        if self.matches(&[TokenType::Less]) {
            loop
                invariant
                    start == *old(self),
                    moved_on(start, *self),
                    self.pos() > start.pos(),
                    kind_at(start, 0) == TokenType::Identifier,
                    kind_at(start, 1) == TokenType::Less,
                decreases self.remaining(),
            {
                let t = self.type_expr()?;
                type_arguments.push(t);
                if !self.matches(&[TokenType::Comma]) {
                    break;
                }
            }
            self.consume(TokenType::Greater)?;
        }
        proof {
            if kind_at(start, 1) != TokenType::Less {
                assert(type_arguments@ =~= Seq::<TypeExpr>::empty());
                assert(types_view(type_arguments@) =~= Seq::<TypeView>::empty());
            }
            lemma_single_kind(TokenType::Question, kind_at(start, 1));
        }
        let inner = TypeExpr::Named {
            identifier,
            type_parameters: None,
            type_arguments,
            enum_variants: None,
            struct_fields: None,
        };
        if self.matches(&[TokenType::Question]) {
            let question = self.previous().clone();
            let mut arguments: Vec<TypeExpr> = Vec::new();
            arguments.push(inner);
            proof {
                crate::types::lemma_types_view_index(arguments@);
                if kind_at(start, 0) == TokenType::Identifier && kind_at(start, 1) == TokenType::Question {
                    assert(self.pos() == start.pos() + 2);
                    assert(question@ == token_at(start, 1));
                    assert(arguments@[0]@ == bare_type(token_at(start, 0)));
                    assert(types_view(arguments@) =~= seq![bare_type(token_at(start, 0))]);
                }
            }
            let optional = TypeExpr::Named {
                identifier: Token {
                    token_type: TokenType::Identifier,
                    lexeme: "Optional".to_owned(),
                    literal: None,
                    line: question.line,
                    column: question.column,
                },
                type_parameters: None,
                type_arguments: arguments,
                enum_variants: None,
                struct_fields: None,
            };
            proof {
                if kind_at(start, 0) == TokenType::Identifier && kind_at(start, 1) == TokenType::Question {
                    assert(optional@ =~= optional_of(token_at(start, 1), bare_type(token_at(start, 0))));
                }
            }
            return Ok(optional);
        }
        Ok(inner)
    }

    /// Type parameters in angle brackets, if any.
    fn type_parameters(&mut self) -> (r: Result<Vec<Token>, ParseError>)
        requires
            old(self).wf(),
        ensures
            parsed_maybe(*old(self), *final(self), r),
            old(self).at_end() || old(self).tokens()[old(self).pos()].token_type != TokenType::Less ==> (r matches Ok(
                ps,
            ) && ps@.len() == 0 && final(self).pos() == old(self).pos()),
            r matches Ok(ps) ==> forall|i: int| 0 <= i < ps@.len() ==> #[trigger] ps@[i].token_type
                == TokenType::Identifier,
    {
        let ghost start = *self;
        let mut type_parameters: Vec<Token> = Vec::new();
        if self.matches(&[TokenType::Less]) {
            proof {
                if start.tokens()[start.pos()].token_type != TokenType::Less {
                    assert(!seq![TokenType::Less].contains(start.tokens()[start.pos()].token_type));
                }
            }
            loop
                invariant
                    start == *old(self),
                    moved_on(start, *self),
                    !start.at_end() && start.tokens()[start.pos()].token_type == TokenType::Less,
                    forall|i: int| 0 <= i < type_parameters@.len() ==> #[trigger] type_parameters@[i].token_type
                        == TokenType::Identifier,
                decreases self.remaining(),
            {
                let t = self.consume(TokenType::Identifier)?;
                type_parameters.push(t);
                if !self.matches(&[TokenType::Comma]) {
                    break;
                }
            }
            self.consume(TokenType::Greater)?;
        }
        Ok(type_parameters)
    }
}

} // verus!

verus! {

impl Parser {
    /// What a declaration binds: a name, or bindings in parentheses
    /// separated by commas (one binding with no trailing comma is just that
    /// binding).
    fn variable_binding(&mut self) -> (r: Result<VariableBinding, ParseError>)
        requires
            old(self).wf(),
        ensures
            parsed_step(*old(self), *final(self), r),
        decreases old(self).remaining(),
    {
        let ghost start = *self;
        if self.matches(&[TokenType::LeftParen]) {
            let left_paren = self.previous().clone();
            if self.check(TokenType::RightParen) {
                let token = self.peek();
                return Err(ParseError::EmptyTuple { line: token.line, column: token.column });
            }
            let first = self.variable_binding()?;
            let mut elements: Vec<VariableBinding> = Vec::new();
            elements.push(first);
            let mut had_trailing_comma = false;
            while self.matches(&[TokenType::Comma])
                invariant
                    start == *old(self),
                    moved_on(start, *self),
                    self.pos() > start.pos(),
                    elements@.len() >= 1,
                decreases self.remaining(),
            {
                if self.check(TokenType::RightParen) {
                    had_trailing_comma = true;
                    break;
                }
                let b = self.variable_binding()?;
                elements.push(b);
            }
            self.consume(TokenType::RightParen)?;
            if elements.len() == 1 && !had_trailing_comma {
                let only = elements.swap_remove(0);
                return Ok(only);
            }
            return Ok(VariableBinding::Tuple { elements, left_paren });
        }
        let identifier = self.consume(TokenType::Identifier)?;
        Ok(VariableBinding::Identifier(identifier))
    }

    /// A pattern: `_`, a literal or a range between two literals of one
    /// kind, a variable, an enum variant with argument patterns, or patterns
    /// in parentheses.
    fn pattern(&mut self) -> (r: Result<Pattern, ParseError>)
        requires
            old(self).wf(),
        ensures
            parsed_step(*old(self), *final(self), r),
            kind_at(*old(self), 0) == TokenType::Underscore ==> (r matches Ok(Pattern::Wildcard(t)) && t@ == token_at(
                *old(self),
                0,
            ) && final(self).pos() == old(self).pos() + 1),
            literal_kind(kind_at(*old(self), 0)) ==> range_pattern_outcome(*old(self), *final(self), r),
            kind_at(*old(self), 0) == TokenType::Identifier && kind_at(*old(self), 1) != TokenType::LeftParen ==> (r matches Ok(
                Pattern::Variable(t),
            ) && t@ == token_at(*old(self), 0) && final(self).pos() == old(self).pos() + 1),
            kind_at(*old(self), 0) == TokenType::LeftParen && kind_at(*old(self), 1) == TokenType::RightParen ==> (r matches Err(
                ParseError::EmptyTuple { line, column },
            ) && line == token_at(*old(self), 1).line && column == token_at(*old(self), 1).column),
        decreases old(self).remaining(),
    {
        let ghost start = *self;
        proof {
            lemma_single_kind(TokenType::Underscore, kind_at(start, 0));
            lemma_two_kinds(TokenType::Number, TokenType::String, kind_at(start, 0));
            lemma_two_kinds(TokenType::DotDot, TokenType::DotDotEqual, kind_at(start, 1));
            lemma_single_kind(TokenType::Identifier, kind_at(start, 0));
            lemma_single_kind(TokenType::LeftParen, kind_at(start, 0));
            lemma_single_kind(TokenType::LeftParen, kind_at(start, 1));
        }
        if self.matches(&[TokenType::Underscore]) {
            return Ok(Pattern::Wildcard(self.previous().clone()));
        }
        if self.matches(&[TokenType::Number, TokenType::String]) {
            let start_token = self.previous().clone();
            let start_type = start_token.token_type;
            if self.matches(&[TokenType::DotDot, TokenType::DotDotEqual]) {
                let is_inclusive = self.previous().token_type == TokenType::DotDotEqual;
                let end = self.peek().clone();
                if end.token_type == TokenType::Number || end.token_type == TokenType::String {
                    if end.token_type != start_type {
                        return Err(
                            ParseError::MismatchedRangeBounds {
                                line: end.line,
                                column: end.column,
                                start_bound: start_token,
                                end_bound: end,
                            },
                        );
                    }
                    self.advance();
                    return Ok(Pattern::Range { start: start_token, end, is_inclusive });
                } else {
                    return Err(ParseError::MissingRangeEnd { line: end.line, column: end.column, start_bound: start_token });
                }
            }
            return Ok(Pattern::Literal(start_token));
        }
        if self.matches(&[TokenType::Identifier]) {
            let identifier = self.previous().clone();
            if self.matches(&[TokenType::LeftParen]) {
                let mut arguments: Vec<Pattern> = Vec::new();
                if !self.check(TokenType::RightParen) {
                    loop
                        invariant
                            start == *old(self),
                            moved_on(start, *self),
                            self.pos() > start.pos(),
                            kind_at(start, 0) == TokenType::Identifier,
                            kind_at(start, 1) == TokenType::LeftParen,
                        decreases self.remaining(),
                    {
                        let p = self.pattern()?;
                        arguments.push(p);
                        if !self.matches(&[TokenType::Comma]) {
                            break;
                        }
                    }
                }
                self.consume(TokenType::RightParen)?;
                return Ok(Pattern::EnumVariant { identifier, arguments });
            }
            return Ok(Pattern::Variable(identifier));
        }
        if self.matches(&[TokenType::LeftParen]) {
            let left_paren = self.previous().clone();
            if self.check(TokenType::RightParen) {
                let token = self.peek();
                return Err(ParseError::EmptyTuple { line: token.line, column: token.column });
            }
            let first = self.pattern()?;
            let mut elements: Vec<Pattern> = Vec::new();
            elements.push(first);
            let mut had_trailing_comma = false;
            while self.matches(&[TokenType::Comma])
                invariant
                    start == *old(self),
                    moved_on(start, *self),
                    self.pos() > start.pos(),
                    kind_at(start, 0) == TokenType::LeftParen,
                    kind_at(start, 1) != TokenType::RightParen,
                    elements@.len() >= 1,
                decreases self.remaining(),
            {
                if self.check(TokenType::RightParen) {
                    had_trailing_comma = true;
                    break;
                }
                let p = self.pattern()?;
                elements.push(p);
            }
            self.consume(TokenType::RightParen)?;
            if elements.len() == 1 && !had_trailing_comma {
                let only = elements.swap_remove(0);
                return Ok(only);
            }
            return Ok(Pattern::Tuple { elements, left_paren });
        }
        let found = self.peek().clone();
        Err(ParseError::InvalidPattern { line: found.line, column: found.column, found })
    }
}

} // verus!

verus! {

/// The binary operator a compound assignment applies.
fn compound_operator(t: TokenType) -> (r: TokenType)
    ensures
        r == match t {
            TokenType::PlusEqual => TokenType::Plus,
            TokenType::MinusEqual => TokenType::Minus,
            TokenType::StarEqual => TokenType::Star,
            TokenType::SlashEqual => TokenType::Slash,
            TokenType::PercentEqual => TokenType::Percent,
            _ => TokenType::Caret,
        },
        r == compound_operator_kind(t),
{
    if t == TokenType::PlusEqual {
        TokenType::Plus
    } else if t == TokenType::MinusEqual {
        TokenType::Minus
    } else if t == TokenType::StarEqual {
        TokenType::Star
    } else if t == TokenType::SlashEqual {
        TokenType::Slash
    } else if t == TokenType::PercentEqual {
        TokenType::Percent
    } else {
        TokenType::Caret
    }
}

/// The assignment of `value` to `target`, where `target` can be assigned
/// to: a variable, an indexed element or a past state.
/// The text of an arithmetic operator.
pub open spec fn operator_text(t: TokenType) -> Seq<char> {
    match t {
        TokenType::Plus => "+"@,
        TokenType::Minus => "-"@,
        TokenType::Star => "*"@,
        TokenType::Slash => "/"@,
        TokenType::Percent => "%"@,
        _ => "^"@,
    }
}

/// The text of the arithmetic operator of kind `t`.
fn operator_lexeme(t: TokenType) -> (r: String)
    ensures
        r@ == operator_text(t),
{
    match t {
        TokenType::Plus => "+".to_owned(),
        TokenType::Minus => "-".to_owned(),
        TokenType::Star => "*".to_owned(),
        TokenType::Slash => "/".to_owned(),
        TokenType::Percent => "%".to_owned(),
        _ => "^".to_owned(),
    }
}

/// The value assigned by `x op= v` or `x = v`, where `x` is `target`, the
/// operator the token `op` and `v` the single token `v`: `v` itself for
/// `=`, otherwise `x` combined with `v` by the operator, written at the
/// operator with its plain text.
pub open spec fn assigned_value(value: Expr, target: crate::token::TokenView, op: crate::token::TokenView, v: crate::token::TokenView) -> bool {
    if op.token_type == TokenType::Equal {
        lone_expr(value, v)
    } else {
        value matches Expr::Binary { left, operator, right } && lone_expr(*left, target) && lone_expr(*right, v)
            && operator@ == (crate::token::TokenView {
            token_type: compound_operator_kind(op.token_type),
            lexeme: operator_text(compound_operator_kind(op.token_type)),
            literal: None,
            line: op.line,
            column: op.column,
        })
    }
}

/// The arithmetic operator of a compound assignment operator.
pub open spec fn compound_operator_kind(t: TokenType) -> TokenType {
    match t {
        TokenType::PlusEqual => TokenType::Plus,
        TokenType::MinusEqual => TokenType::Minus,
        TokenType::StarEqual => TokenType::Star,
        TokenType::SlashEqual => TokenType::Slash,
        TokenType::PercentEqual => TokenType::Percent,
        _ => TokenType::Caret,
    }
}

/// `x++` or `x--` for a single token `x`, with nothing after: the
/// assignment of `x` plus or minus one, the operator and the one written at
/// the `++` or `--`; the invalid-target error there for a literal.
pub open spec fn increment_outcome(p: Parser, q: Parser, r: Result<Expr, ParseError>) -> bool {
    let t0 = token_at(p, 0);
    let t1 = token_at(p, 1);
    let op = if t1.token_type == TokenType::PlusPlus {
        TokenType::Plus
    } else {
        TokenType::Minus
    };
    if t0.token_type == TokenType::Identifier {
        &&& r matches Ok(Expr::Assign { identifier, value }) && identifier@ == t0 && (*value matches Expr::Binary {
            left,
            operator,
            right,
        } && lone_expr(*left, t0) && operator@ == (crate::token::TokenView {
            token_type: op,
            lexeme: operator_text(op),
            literal: None,
            line: t1.line,
            column: t1.column,
        }) && (*right matches Expr::Literal(one) && one@ == (crate::token::TokenView {
            token_type: TokenType::Number,
            lexeme: "1"@,
            literal: Some(crate::token::LiteralView::Number("1"@)),
            line: t1.line,
            column: t1.column,
        })))
        &&& q.pos() == p.pos() + 2
    } else {
        r matches Err(ParseError::InvalidAssignmentTarget { line, column, found }) && line == t1.line && column
            == t1.column && found@ == t1
    }
}

/// A simple assignment `x op= v`, with `x` and `v` single tokens and
/// nothing after `v`: an assignment to a name, or the invalid-target error
/// at the operator for a literal.
pub open spec fn simple_assignment_outcome(p: Parser, q: Parser, r: Result<Expr, ParseError>) -> bool {
    let t0 = token_at(p, 0);
    let t1 = token_at(p, 1);
    let t2 = token_at(p, 2);
    if t0.token_type == TokenType::Identifier {
        r matches Ok(Expr::Assign { identifier, value }) && identifier@ == t0 && assigned_value(*value, t0, t1, t2)
            && q.pos() == p.pos() + 3
    } else {
        r matches Err(ParseError::InvalidAssignmentTarget { line, column, found }) && line == t1.line && column
            == t1.column && found@ == t1
    }
}

fn assignment_to(target: Expr, value: Expr) -> (r: Option<Expr>)
    ensures
        r == match target {
            Expr::Variable(identifier) => Some(Expr::Assign { identifier, value: Box::new(value) }),
            Expr::IndexAccess { target, index, left_bracket } => Some(
                Expr::AssignIndex { target, index, value: Box::new(value), left_bracket },
            ),
            Expr::TimeTravelAbsolute { target, index, at_token } => Some(
                Expr::AssignTimeTravelAbsolute { target, index, value: Box::new(value), at_token },
            ),
            Expr::TimeTravelRelative { target, offset, at_token } => Some(
                Expr::AssignTimeTravelRelative { target, offset, value: Box::new(value), at_token },
            ),
            _ => None,
        },
{
    match target {
        Expr::Variable(identifier) => Some(Expr::Assign { identifier, value: Box::new(value) }),
        Expr::IndexAccess { target, index, left_bracket } => Some(
            Expr::AssignIndex { target, index, value: Box::new(value), left_bracket },
        ),
        Expr::TimeTravelAbsolute { target, index, at_token } => Some(
            Expr::AssignTimeTravelAbsolute { target, index, value: Box::new(value), at_token },
        ),
        Expr::TimeTravelRelative { target, offset, at_token } => Some(
            Expr::AssignTimeTravelRelative { target, offset, value: Box::new(value), at_token },
        ),
        _ => None,
    }
}

/// Whether one of `parameters` is named `name`.
fn has_parameter(parameters: &Vec<(Token, TypeExpr)>, name: &String) -> (b: bool)
    ensures
        b == exists|k: int| 0 <= k < parameters@.len() && #[trigger] parameters@[k].0.lexeme@ == name@,
{
    let mut k: usize = 0;
    while k < parameters.len()
        invariant
            k <= parameters@.len(),
            forall|j: int| 0 <= j < k ==> #[trigger] parameters@[j].0.lexeme@ != name@,
        decreases parameters@.len() - k,
    {
        if parameters[k].0.lexeme == *name {
            return true;
        }
        k = k + 1;
    }
    false
}

/// Whether `s` holds a `.`.
fn has_dot(s: &String) -> (b: bool)
    ensures
        b == s@.contains('.'),
{
    let cs = crate::text::chars_of(s.as_str());
    let mut i: usize = 0;
    while i < cs.len()
        invariant
            i <= cs@.len(),
            cs@ == s@,
            forall|j: int| 0 <= j < i ==> cs@[j] != '.',
        decreases cs@.len() - i,
    {
        if cs[i] == '.' {
            return true;
        }
        i = i + 1;
    }
    false
}

/// The pieces of `s` between the dots: one more than there are dots.
pub open spec fn dot_pieces(s: Seq<char>) -> Seq<Seq<char>>
    decreases s.len(),
{
    if s.len() == 0 {
        seq![Seq::empty()]
    } else {
        let p = dot_pieces(s.drop_last());
        if s.last() == '.' {
            p.push(Seq::empty())
        } else {
            p.update(p.len() - 1, p.last().push(s.last()))
        }
    }
}

proof fn lemma_dot_pieces_nonempty(s: Seq<char>)
    ensures
        dot_pieces(s).len() >= 1,
    decreases s.len(),
{
    if s.len() > 0 {
        lemma_dot_pieces_nonempty(s.drop_last());
    }
}

/// The pieces of `s` between the dots, as `str::split('.')` gives them.
fn split_on_dots(s: &String) -> (r: Vec<String>)
    ensures
        crate::c_names::strings_view(r@) == dot_pieces(s@),
{
    let cs = crate::text::chars_of(s.as_str());
    let mut r: Vec<String> = Vec::new();
    let mut piece = String::new();
    let mut i: usize = 0;
    proof {
        assert(cs@.take(0) =~= Seq::<char>::empty());
        assert(crate::c_names::strings_view(r@).push(piece@) =~= dot_pieces(cs@.take(0)));
    }
    while i < cs.len()
        invariant
            i <= cs@.len(),
            cs@ == s@,
            crate::c_names::strings_view(r@).push(piece@) == dot_pieces(cs@.take(i as int)),
        decreases cs@.len() - i,
    {
        let ghost before = crate::c_names::strings_view(r@);
        let ghost old_piece = piece@;
        proof {
            let q = cs@.take(i + 1);
            assert(q.drop_last() =~= cs@.take(i as int));
            assert(q.last() == cs@[i as int]);
            lemma_dot_pieces_nonempty(cs@.take(i as int));
        }
        if cs[i] == '.' {
            r.push(piece);
            piece = String::new();
            proof {
                assert(crate::c_names::strings_view(r@) =~= before.push(old_piece));
                assert(crate::c_names::strings_view(r@).push(piece@) =~= dot_pieces(cs@.take(i + 1)));
            }
        } else {
            piece.push(cs[i]);
            proof {
                assert(crate::c_names::strings_view(r@).push(piece@) =~= before.push(old_piece).update(
                    before.len() as int,
                    old_piece.push(cs@[i as int]),
                ));
                assert(crate::c_names::strings_view(r@).push(piece@) =~= dot_pieces(cs@.take(i + 1)));
            }
        }
        i = i + 1;
    }
    proof {
        assert(cs@.take(i as int) =~= cs@);
    }
    let ghost before = crate::c_names::strings_view(r@);
    let ghost last = piece@;
    r.push(piece);
    proof {
        assert(crate::c_names::strings_view(r@) =~= before.push(last));
    }
    r
}

impl Parser {
    /// Skips tokens after an error, up to a likely start of a statement.
    fn synchronize(&mut self)
        requires
            old(self).wf(),
        ensures
            moved_on(*old(self), *final(self)),
            !old(self).at_end() ==> final(self).pos() > old(self).pos(),
    {
        let ghost start = *self;
        self.advance();
        while !self.is_at_end()
            invariant
                start == *old(self),
                moved_on(start, *self),
                !start.at_end() ==> self.pos() > start.pos(),
            decreases self.remaining(),
        {
            if self.previous().token_type == TokenType::Semicolon {
                return;
            }
            let t = self.peek().token_type;
            if t == TokenType::Var || t == TokenType::Enum || t == TokenType::Struct || t == TokenType::Fn || t
                == TokenType::If || t == TokenType::For || t == TokenType::While || t == TokenType::Match || t
                == TokenType::Break || t == TokenType::Continue {
                return;
            }
            self.advance();
        }
    }

    /// All declarations up to the end of the tokens.  Each declaration that
    /// fails is recorded and skipped; the result is `Ok` exactly when none
    /// failed, and then holds the declarations in order, otherwise it holds
    /// every error, each reported at one of the tokens.  Tokens that are
    /// just literals or names joined by `+` and `-` (or just by `*`, `/`
    /// and `%`) give one expression statement whose operators associate to
    /// the left: `a - b - c` is `(a - b) - c`.
    pub fn parse(&mut self) -> (r: Result<Vec<Stmt>, Vec<ParseError>>)
        requires
            old(self).wf(),
            old(self).error_count() == 0,
        ensures
            final(self).wf(),
            final(self).tokens() == old(self).tokens(),
            final(self).at_end(),
            final(self).error_count() == 0,
            r matches Err(es) ==> es@.len() > 0 && forall|i: int|
                0 <= i < es@.len() ==> #[trigger] located(es@[i], old(self).tokens()),
            old(self).at_end() ==> (r matches Ok(s) && s@.len() == 0),
            !old(self).at_end() ==> (r matches Ok(s) ==> s@.len() > 0),
            kind_at(*old(self), 0) == TokenType::Break ==> (r matches Ok(s) ==> (s@[0] matches Stmt::Break(t) && t@ == token_at(
                *old(self),
                0,
            ))),
            kind_at(*old(self), 0) == TokenType::Continue ==> (r matches Ok(s) ==> (s@[0] matches Stmt::Continue(t) && t@
                == token_at(*old(self), 0))),
            r matches Ok(s) ==> s@.len() <= old(self).remaining(),
            r matches Err(es) ==> es@.len() <= old(self).remaining(),
            jump_program(*old(self)) ==> (r matches Ok(s) && old(self).tokens()[old(self).pos() + s@.len()].token_type
                == TokenType::Eof && forall|i: int| 0 <= i < s@.len() ==> #[trigger] jump_stmt(
                s@[i],
                old(self).tokens()[old(self).pos() + i]@,
            )),
            forall|n: nat| #[trigger] left_chain(*old(self), n) && kind_at(*old(self), 2 * n - 1) == TokenType::Eof ==> (
            r matches Ok(s) && s@.len() == 1 && (s@[0] matches Stmt::Expression(e) && grouped_left(e, *old(self), n))),
    {
        let ghost start = *self;
        let mut statements: Vec<Stmt> = Vec::new();
        while !self.is_at_end()
            invariant
                self.wf(),
                self.tokens() == start.tokens(),
                self.pos() >= start.pos(),
                statements@.len() + self.errors@.len() <= self.pos() - start.pos(),
                start.error_count() == 0,
                start.at_end() ==> self.pos() == start.pos(),
                !start.at_end() && self.pos() > start.pos() && self.errors@.len() == 0 ==> statements@.len() > 0,
                self.pos() == start.pos() ==> statements@.len() == 0 && self.errors@.len() == 0,
                kind_at(start, 0) == TokenType::Break && statements@.len() > 0 && self.errors@.len() == 0 ==> (
                statements@[0] matches Stmt::Break(t) && t@ == token_at(start, 0)),
                kind_at(start, 0) == TokenType::Continue && statements@.len() > 0 && self.errors@.len() == 0 ==> (
                statements@[0] matches Stmt::Continue(t) && t@ == token_at(start, 0)),
                forall|i: int| 0 <= i < self.errors@.len() ==> #[trigger] located(self.errors@[i], start.tokens()),
                jump_program(start) ==> self.errors@.len() == 0 && statements@.len() == self.pos() - start.pos()
                    && forall|i: int| 0 <= i < statements@.len() ==> #[trigger] jump_stmt(
                    statements@[i],
                    start.tokens()[start.pos() + i]@,
                ),
                self.pos() == start.pos() ==> *self == start,
                forall|n: nat| #[trigger] left_chain(start, n) && kind_at(start, 2 * n - 1) == TokenType::Eof
                    ==> self.errors@.len() == 0 && (self.pos() == start.pos() || (self.pos() == start.pos() + 2 * n - 1
                    && statements@.len() == 1 && (statements@[0] matches Stmt::Expression(e) && grouped_left(
                    e,
                    start,
                    n,
                )))),
            decreases self.remaining(),
        {
            let ghost before = statements@;
            let ghost at = *self;
            proof {
                if jump_program(start) {
                    assert(kind_at(*self, 0) == start.tokens()[self.pos()].token_type);
                    assert(jump_or_eof(start.tokens()[self.pos()].token_type));
                }
            }
            match self.declaration() {
                Ok(Some(stmt)) => statements.push(stmt),
                Ok(None) => {},
                Err(error) => self.errors.push(error),
            }
            proof {
                assert forall|n: nat| #[trigger] left_chain(start, n) && kind_at(start, 2 * n - 1) == TokenType::Eof
                    implies self.errors@.len() == 0 && self.pos() == start.pos() + 2 * n - 1 && statements@.len() == 1
                    && (statements@[0] matches Stmt::Expression(e) && grouped_left(e, start, n)) by {
                    assert(ended_chain(start, n));
                    if at.pos() != start.pos() {
                        assert(kind_at(start, 2 * n - 1) == at.tokens()[at.pos()].token_type);
                    }
                }
                if jump_program(start) {
                    assert forall|i: int| 0 <= i < statements@.len() implies #[trigger] jump_stmt(
                        statements@[i],
                        start.tokens()[start.pos() + i]@,
                    ) by {
                        if i < before.len() {
                            assert(statements@[i] == before[i]);
                        }
                    }
                }
            }
        }
        proof {
            assert forall|n: nat| #[trigger] left_chain(start, n) implies simple_start(kind_at(start, 0)) by {
                lemma_chain_first(start, n);
            }
        }
        if self.errors.len() == 0 {
            Ok(statements)
        } else {
            let mut errors: Vec<ParseError> = Vec::new();
            std::mem::swap(&mut errors, &mut self.errors);
            Err(errors)
        }
    }

    fn declaration(&mut self) -> (r: Result<Option<Stmt>, ParseError>)
        requires
            old(self).wf(),
        ensures
            parsed_step(*old(self), *final(self), r),
            !old(self).at_end() ==> final(self).pos() > old(self).pos(),
            r is Ok ==> r matches Ok(Some(_)),
            kind_at(*old(self), 0) == TokenType::Break ==> (r matches Ok(Some(Stmt::Break(t))) && t@ == token_at(
                *old(self),
                0,
            ) && final(self).pos() == old(self).pos() + 1),
            kind_at(*old(self), 0) == TokenType::Continue ==> (r matches Ok(Some(Stmt::Continue(t))) && t@ == token_at(
                *old(self),
                0,
            ) && final(self).pos() == old(self).pos() + 1),
            (exists|n: nat| ended_chain(*old(self), n)) ==> (r matches Ok(Some(Stmt::Expression(e)))
                && ended_chain_parsed(*old(self), *final(self), e)),
        decreases old(self).remaining(), 40nat,
    {
        proof {
            assert forall|m: nat| #[trigger] ended_chain(*self, m) implies simple_start(kind_at(*self, 0)) by {
                lemma_chain_first(*self, m);
            }
            let k = kind_at(*self, 0);
            lemma_single_kind(TokenType::Var, k);
            lemma_single_kind(TokenType::Enum, k);
            lemma_single_kind(TokenType::Struct, k);
            lemma_single_kind(TokenType::Fn, k);
        }
        let result = if self.matches(&[TokenType::Var]) {
            self.variable_declaration()
        } else if self.matches(&[TokenType::Enum]) {
            self.enum_declaration()
        } else if self.matches(&[TokenType::Struct]) {
            self.struct_declaration()
        } else if self.matches(&[TokenType::Fn]) {
            self.function_declaration()
        } else {
            self.statement()
        };
        match result {
            Ok(stmt) => Ok(Some(stmt)),
            Err(error) => {
                self.synchronize();
                Err(error)
            },
        }
    }

    fn variable_declaration(&mut self) -> (r: Result<Stmt, ParseError>)
        requires
            old(self).wf(),
        ensures
            parsed_step(*old(self), *final(self), r),
        decreases old(self).remaining(), 11nat,
    {
        let binding = self.variable_binding()?;
        let type_annotation = if self.matches(&[TokenType::Colon]) {
            Some(self.type_expr()?)
        } else {
            None
        };
        let initializer = if self.matches(&[TokenType::Equal]) {
            Some(self.expression()?)
        } else {
            None
        };
        Ok(Stmt::Variable { binding, type_annotation, initializer })
    }

    fn enum_declaration(&mut self) -> (r: Result<Stmt, ParseError>)
        requires
            old(self).wf(),
        ensures
            parsed_step(*old(self), *final(self), r),
        decreases old(self).remaining(), 11nat,
    {
        let ghost start = *self;
        let identifier = self.consume(TokenType::Identifier)?;
        let type_parameters = self.type_parameters()?;
        self.consume(TokenType::LeftBrace)?;
        let mut variants: Vec<EnumVariant> = Vec::new();
        while !self.check(TokenType::RightBrace) && !self.is_at_end()
            invariant
                start == *old(self),
                moved_on(start, *self),
                self.pos() > start.pos(),
            decreases self.remaining(),
        {
            let ghost iteration_start = self.pos();
            let variant_identifier = self.consume(TokenType::Identifier)?;
            let mut payload_types: Vec<TypeExpr> = Vec::new();
            if self.matches(&[TokenType::LeftParen]) {
                if !self.check(TokenType::RightParen) {
                    loop
                        invariant
                            start == *old(self),
                            moved_on(start, *self),
                            self.pos() > start.pos(),
                            self.pos() > iteration_start,
                        decreases self.remaining(),
                    {
                        let t = self.type_expr()?;
                        payload_types.push(t);
                        if !self.matches(&[TokenType::Comma]) {
                            break;
                        }
                    }
                }
                self.consume(TokenType::RightParen)?;
            }
            variants.push(EnumVariant { identifier: variant_identifier, payload_types });
            if !(self.matches(&[TokenType::Comma]) || self.check(TokenType::RightBrace)) {
                return Err(self.expected_comma_or_brace());
            }
        }
        self.consume(TokenType::RightBrace)?;
        Ok(Stmt::Enum { identifier, type_parameters, variants })
    }

    /// The error for a list item not followed by `,` or `}`.
    fn expected_comma_or_brace(&self) -> (e: ParseError)
        requires
            self.wf(),
        ensures
            reported_at(e, self.tokens()[self.pos()]),
    {
        let found = self.peek().clone();
        let mut expected: Vec<TokenType> = Vec::new();
        expected.push(TokenType::Comma);
        expected.push(TokenType::RightBrace);
        ParseError::ExpectedToken { line: found.line, column: found.column, expected, found }
    }

    fn struct_declaration(&mut self) -> (r: Result<Stmt, ParseError>)
        requires
            old(self).wf(),
        ensures
            parsed_step(*old(self), *final(self), r),
        decreases old(self).remaining(), 11nat,
    {
        let ghost start = *self;
        let identifier = self.consume(TokenType::Identifier)?;
        let type_parameters = self.type_parameters()?;
        self.consume(TokenType::LeftBrace)?;
        let mut fields: Vec<(Token, TypeExpr)> = Vec::new();
        while !self.check(TokenType::RightBrace) && !self.is_at_end()
            invariant
                start == *old(self),
                moved_on(start, *self),
                self.pos() > start.pos(),
            decreases self.remaining(),
        {
            let field_name = self.consume(TokenType::Identifier)?;
            self.consume(TokenType::Colon)?;
            let field_type = self.type_expr()?;
            fields.push((field_name, field_type));
            if !(self.matches(&[TokenType::Comma]) || self.check(TokenType::RightBrace)) {
                return Err(self.expected_comma_or_brace());
            }
        }
        self.consume(TokenType::RightBrace)?;
        Ok(Stmt::Struct { identifier, type_parameters, fields })
    }

    fn function_declaration(&mut self) -> (r: Result<Stmt, ParseError>)
        requires
            old(self).wf(),
        ensures
            parsed_step(*old(self), *final(self), r),
        decreases old(self).remaining(), 11nat,
    {
        let ghost start = *self;
        let identifier = self.consume(TokenType::Identifier)?;
        let type_parameters = self.type_parameters()?;
        self.consume(TokenType::LeftParen)?;
        let mut parameters: Vec<(Token, TypeExpr)> = Vec::new();
        if !self.check(TokenType::RightParen) {
            loop
                invariant
                    start == *old(self),
                    moved_on(start, *self),
                    self.pos() > start.pos(),
                decreases self.remaining(),
            {
                let ghost at = self.pos();
                let parameter_identifier = self.consume(TokenType::Identifier)?;
                self.consume(TokenType::Colon)?;
                let parameter_type = self.type_expr()?;
                if has_parameter(&parameters, &parameter_identifier.lexeme) {
                    let e = ParseError::DuplicateParameter {
                        line: parameter_identifier.line,
                        column: parameter_identifier.column,
                        parameter: parameter_identifier.clone(),
                    };
                    proof {
                        assert(reported_at(e, self.tokens()[at]));
                    }
                    return Err(e);
                }
                parameters.push((parameter_identifier, parameter_type));
                if !self.matches(&[TokenType::Comma]) {
                    break;
                }
            }
        }
        self.consume(TokenType::RightParen)?;
        let return_type = if self.matches(&[TokenType::MinusGreater]) {
            Some(self.type_expr()?)
        } else {
            None
        };
        self.consume(TokenType::LeftBrace)?;
        let body = self.block_statement()?;
        Ok(Stmt::Function(Rc::new(FunctionStmt { identifier, type_parameters, parameters, return_type, body })))
    }

    fn statement(&mut self) -> (r: Result<Stmt, ParseError>)
        requires
            old(self).wf(),
        ensures
            parsed_step(*old(self), *final(self), r),
            kind_at(*old(self), 0) == TokenType::Break ==> (r matches Ok(Stmt::Break(t)) && t@ == token_at(*old(self), 0)
                && final(self).pos() == old(self).pos() + 1),
            kind_at(*old(self), 0) == TokenType::Continue ==> (r matches Ok(Stmt::Continue(t)) && t@ == token_at(
                *old(self),
                0,
            ) && final(self).pos() == old(self).pos() + 1),
            chain_statement_outcome(*old(self), *final(self), r),
        decreases old(self).remaining(), 39nat,
    {
        proof {
            assert forall|m: nat| #[trigger] ended_chain(*self, m) implies simple_start(kind_at(*self, 0)) by {
                lemma_chain_first(*self, m);
            }
            let k = kind_at(*self, 0);
            lemma_single_kind(TokenType::If, k);
            lemma_single_kind(TokenType::For, k);
            lemma_single_kind(TokenType::While, k);
            lemma_single_kind(TokenType::Break, k);
            lemma_single_kind(TokenType::Continue, k);
        }
        if self.matches(&[TokenType::If]) {
            return self.if_statement();
        } else if self.matches(&[TokenType::For]) {
            return self.for_statement();
        } else if self.matches(&[TokenType::While]) {
            return self.while_statement();
        } else if self.matches(&[TokenType::Break]) {
            return Ok(Stmt::Break(self.previous().clone()));
        } else if self.matches(&[TokenType::Continue]) {
            return Ok(Stmt::Continue(self.previous().clone()));
        } else if self.matches(&[TokenType::LeftBrace]) {
            let stmts = self.block_statement()?;
            return Ok(Stmt::Block(stmts));
        }
        self.expression_statement()
    }

    fn if_statement(&mut self) -> (r: Result<Stmt, ParseError>)
        requires
            old(self).wf(),
        ensures
            parsed_step(*old(self), *final(self), r),
        decreases old(self).remaining(), 11nat,
    {
        let if_token = self.previous().clone();
        self.consume(TokenType::LeftParen)?;
        let condition = self.expression()?;
        self.consume(TokenType::RightParen)?;
        let then_branch = self.statement()?;
        let else_branch = if self.matches(&[TokenType::Else]) {
            Some(Box::new(self.statement()?))
        } else {
            None
        };
        Ok(Stmt::If { if_token, condition, then_branch: Box::new(then_branch), else_branch })
    }

    fn for_statement(&mut self) -> (r: Result<Stmt, ParseError>)
        requires
            old(self).wf(),
        ensures
            parsed_step(*old(self), *final(self), r),
            empty_for(*old(self)) ==> (r matches Ok(Stmt::While { while_token, condition, body }) && while_token@
                == previous_token(*old(self)) && (condition matches Expr::Variable(t) && t@ == (crate::token::TokenView {
                token_type: TokenType::Identifier,
                lexeme: "True"@,
                literal: None,
                line: token_at(*old(self), 5).line,
                column: token_at(*old(self), 5).column,
            })) && (*body matches Stmt::Break(b) && b@ == token_at(*old(self), 4)) && final(self).pos() == old(
                self,
            ).pos() + 5),
        decreases old(self).remaining(), 11nat,
    {
        let ghost start = *self;
        let for_token = self.previous().clone();
        self.consume(TokenType::LeftParen)?;
        if (self.check(TokenType::Identifier) && self.peek_next().token_type == TokenType::In) || self.check(
            TokenType::LeftParen,
        ) {
            let saved = self.current;
            let ghost saved_state = *self;
            let binding = self.variable_binding()?;
            if self.check(TokenType::In) {
                self.advance();
                let iterable = self.expression()?;
                self.consume(TokenType::RightParen)?;
                let body = self.statement()?;
                return Ok(Stmt::ForIn { binding, iterable, body: Box::new(body) });
            }
            self.current = saved;
            proof {
                assert(self.pos() == saved_state.pos());
                assert(moved_on(start, *self));
            }
        }
        let initializer = if self.check(TokenType::Semicolon) {
            None
        } else if self.matches(&[TokenType::Var]) {
            Some(self.variable_declaration()?)
        } else {
            Some(self.expression_statement()?)
        };
        self.consume(TokenType::Semicolon)?;
        let condition = if !self.check(TokenType::Semicolon) {
            Some(self.expression()?)
        } else {
            None
        };
        self.consume(TokenType::Semicolon)?;
        let increment = if !self.check(TokenType::RightParen) {
            Some(self.expression()?)
        } else {
            None
        };
        self.consume(TokenType::RightParen)?;
        let mut body = self.statement()?;
        match increment {
            Some(incr) => {
                let mut stmts: Vec<Stmt> = Vec::new();
                stmts.push(body);
                stmts.push(Stmt::Expression(incr));
                body = Stmt::Block(stmts);
            },
            None => {},
        }
        let current_token = self.peek();
        let condition = match condition {
            Some(c) => c,
            None => Expr::Variable(
                Token {
                    token_type: TokenType::Identifier,
                    lexeme: "True".to_owned(),
                    literal: None,
                    line: current_token.line,
                    column: current_token.column,
                },
            ),
        };
        let mut while_stmt = Stmt::While { while_token: for_token, condition, body: Box::new(body) };
        match initializer {
            Some(init) => {
                let mut stmts: Vec<Stmt> = Vec::new();
                stmts.push(init);
                stmts.push(while_stmt);
                while_stmt = Stmt::Block(stmts);
            },
            None => {},
        }
        Ok(while_stmt)
    }

    fn while_statement(&mut self) -> (r: Result<Stmt, ParseError>)
        requires
            old(self).wf(),
        ensures
            parsed_step(*old(self), *final(self), r),
        decreases old(self).remaining(), 11nat,
    {
        let while_token = self.previous().clone();
        self.consume(TokenType::LeftParen)?;
        let condition = self.expression()?;
        self.consume(TokenType::RightParen)?;
        let body = self.statement()?;
        Ok(Stmt::While { while_token, condition, body: Box::new(body) })
    }

    fn block_statement(&mut self) -> (r: Result<Vec<Stmt>, ParseError>)
        requires
            old(self).wf(),
        ensures
            parsed_step(*old(self), *final(self), r),
        decreases old(self).remaining(), 41nat,
    {
        let ghost start = *self;
        let mut statements: Vec<Stmt> = Vec::new();
        while !self.check(TokenType::RightBrace) && !self.is_at_end()
            invariant
                start == *old(self),
                moved_on(start, *self),
            decreases self.remaining(),
        {
            match self.declaration()? {
                Some(stmt) => statements.push(stmt),
                None => {},
            }
        }
        self.consume(TokenType::RightBrace)?;
        Ok(statements)
    }

    fn expression_statement(&mut self) -> (r: Result<Stmt, ParseError>)
        requires
            old(self).wf(),
        ensures
            parsed_step(*old(self), *final(self), r),
            chain_statement_outcome(*old(self), *final(self), r),
        decreases old(self).remaining(), 38nat,
    {
        let value = self.expression()?;
        Ok(Stmt::Expression(value))
    }

    fn expression(&mut self) -> (r: Result<Expr, ParseError>)
        requires
            old(self).wf(),
        ensures
            parsed_step(*old(self), *final(self), r),
            lone_literal(*old(self)) ==> (r matches Ok(e) && lone_expr(e, token_at(*old(self), 0))
                && final(self).pos() == old(self).pos() + 1),
            ended_chain_outcome(*old(self), *final(self), r),
        decreases old(self).remaining(), 30nat,
    {
        proof {
            assert forall|m: nat| #[trigger] ended_chain(*self, m) implies simple_start(kind_at(*self, 0)) by {
                lemma_chain_first(*self, m);
            }
            lemma_single_kind(TokenType::If, kind_at(*self, 0));
            lemma_single_kind(TokenType::Match, kind_at(*self, 0));
        }
        if self.matches(&[TokenType::If]) {
            return self.if_expression();
        } else if self.matches(&[TokenType::Match]) {
            return self.match_expression();
        }
        self.assignment()
    }

    fn if_expression(&mut self) -> (r: Result<Expr, ParseError>)
        requires
            old(self).wf(),
        ensures
            parsed_step(*old(self), *final(self), r),
        decreases old(self).remaining(), 31nat,
    {
        let if_token = self.previous().clone();
        self.consume(TokenType::LeftParen)?;
        let condition = self.expression()?;
        self.consume(TokenType::RightParen)?;
        let then_branch = self.block_expression()?;
        self.consume(TokenType::Else)?;
        let else_branch = if self.matches(&[TokenType::If]) {
            self.if_expression()?
        } else {
            self.block_expression()?
        };
        Ok(
            Expr::If {
                if_token,
                condition: Box::new(condition),
                then_branch: Box::new(then_branch),
                else_branch: Some(Box::new(else_branch)),
            },
        )
    }

    fn block_expression(&mut self) -> (r: Result<Expr, ParseError>)
        requires
            old(self).wf(),
        ensures
            parsed_step(*old(self), *final(self), r),
        decreases old(self).remaining(), 31nat,
    {
        let ghost start = *self;
        let left_brace = self.consume(TokenType::LeftBrace)?;
        let mut statements: Vec<Stmt> = Vec::new();
        while !self.check(TokenType::RightBrace) && !self.is_at_end()
            invariant
                start == *old(self),
                moved_on(start, *self),
                self.pos() > start.pos(),
            decreases self.remaining(),
        {
            match self.declaration()? {
                Some(stmt) => statements.push(stmt),
                None => {},
            }
        }
        self.consume(TokenType::RightBrace)?;
        Ok(Expr::Block { stmts: statements, left_brace })
    }

    fn match_expression(&mut self) -> (r: Result<Expr, ParseError>)
        requires
            old(self).wf(),
        ensures
            parsed_step(*old(self), *final(self), r),
        decreases old(self).remaining(), 31nat,
    {
        let ghost start = *self;
        let match_token = self.previous().clone();
        let subject = self.expression()?;
        self.consume(TokenType::LeftBrace)?;
        let mut cases: Vec<MatchCase> = Vec::new();
        while !self.check(TokenType::RightBrace) && !self.is_at_end()
            invariant
                start == *old(self),
                moved_on(start, *self),
                self.pos() > start.pos(),
            decreases self.remaining(),
        {
            let pattern = self.pattern()?;
            let (guard_token, guard) = if self.matches(&[TokenType::If]) {
                let if_token = self.previous().clone();
                let condition = self.expression()?;
                (Some(if_token), Some(condition))
            } else {
                (None, None)
            };
            self.consume(TokenType::EqualGreater)?;
            let body = self.expression()?;
            cases.push(MatchCase { pattern, guard_token, guard, body });
            if !self.matches(&[TokenType::Comma]) && !self.check(TokenType::RightBrace) {
                return Err(self.expected_comma_or_brace());
            }
        }
        self.consume(TokenType::RightBrace)?;
        Ok(Expr::Match { match_token, subject: Box::new(subject), cases })
    }
}

} // verus!

verus! {

impl Parser {
    fn assignment(&mut self) -> (r: Result<Expr, ParseError>)
        requires
            old(self).wf(),
        ensures
            parsed_step(*old(self), *final(self), r),
            lone_literal(*old(self)) ==> (r matches Ok(e) && lone_expr(e, token_at(*old(self), 0))
                && final(self).pos() == old(self).pos() + 1),
            simple_start(kind_at(*old(self), 0)) && assignment_operator(kind_at(*old(self), 1)) && simple_start(kind_at(
                *old(self),
                2,
            )) && stop_kind(kind_at(*old(self), 3)) ==> simple_assignment_outcome(*old(self), *final(self), r),
            ended_chain_outcome(*old(self), *final(self), r),
        decreases old(self).remaining(), 29nat,
    {
        let ghost start = *self;
        let expr = self.coalesce()?;
        let ghost at = self.pos();
        proof {
            lemma_stop_kind_not_in(
                seq![
                    TokenType::Equal,
                    TokenType::PlusEqual,
                    TokenType::MinusEqual,
                    TokenType::StarEqual,
                    TokenType::SlashEqual,
                    TokenType::PercentEqual,
                    TokenType::CaretEqual,
                ],
                kind_at(start, 1),
            );
            assert forall|m: nat| #[trigger] ended_chain(start, m) implies !seq![
                TokenType::Equal,
                TokenType::PlusEqual,
                TokenType::MinusEqual,
                TokenType::StarEqual,
                TokenType::SlashEqual,
                TokenType::PercentEqual,
                TokenType::CaretEqual,
            ].contains(kind_at(start, 2 * m - 1)) && left_chain(start, m) by {
                lemma_stop_kind_not_in(
                    seq![
                        TokenType::Equal,
                        TokenType::PlusEqual,
                        TokenType::MinusEqual,
                        TokenType::StarEqual,
                        TokenType::SlashEqual,
                        TokenType::PercentEqual,
                        TokenType::CaretEqual,
                    ],
                    kind_at(start, 2 * m - 1),
                );
            }
        }
        if self.matches(
            &[
                TokenType::Equal,
                TokenType::PlusEqual,
                TokenType::MinusEqual,
                TokenType::StarEqual,
                TokenType::SlashEqual,
                TokenType::PercentEqual,
                TokenType::CaretEqual,
            ],
        ) {
            let operator_token = self.previous().clone();
            let right_side = self.assignment()?;
            let value = if operator_token.token_type == TokenType::Equal {
                right_side
            } else {
                let operator_type = compound_operator(operator_token.token_type);
                let intermediate_operator = Token {
                    token_type: operator_type,
                    lexeme: operator_lexeme(operator_type),
                    literal: None,
                    line: operator_token.line,
                    column: operator_token.column,
                };
                Expr::Binary { left: Box::new(copy_expr(&expr)), operator: intermediate_operator, right: Box::new(right_side) }
            };
            return match assignment_to(expr, value) {
                Some(assigned) => Ok(assigned),
                None => {
                    let e = ParseError::InvalidAssignmentTarget {
                        line: operator_token.line,
                        column: operator_token.column,
                        found: operator_token.clone(),
                    };
                    proof {
                        assert(reported_at(e, self.tokens()[at]));
                    }
                    Err(e)
                },
            };
        }
        Ok(expr)
    }

    fn coalesce(&mut self) -> (r: Result<Expr, ParseError>)
        requires
            old(self).wf(),
        ensures
            parsed_step(*old(self), *final(self), r),
            lone_operand(*old(self)) ==> (r matches Ok(e) && lone_expr(e, token_at(*old(self), 0))
                && final(self).pos() == old(self).pos() + 1),
            chain_outcome(*old(self), *final(self), r),
        decreases old(self).remaining(), 28nat,
    {
        let ghost start = *self;
        let mut expr = self.or()?;
        proof {
            lemma_operand_end_not_in(seq![TokenType::QuestionQuestion], kind_at(start, 1));
            lemma_chain_end_not_in(start, seq![TokenType::QuestionQuestion]);
        }
        while self.matches(&[TokenType::QuestionQuestion])
            invariant
                start == *old(self),
                moved_on(start, *self),
                self.pos() > start.pos(),
                lone_operand(start) ==> self.pos() == start.pos() + 1 && lone_expr(expr, token_at(start, 0)),
                lone_operand(start) ==> !seq![TokenType::QuestionQuestion].contains(kind_at(start, 1)),
                forall|m: nat| #[trigger] left_chain(start, m) ==> !seq![TokenType::QuestionQuestion].contains(kind_at(start, 2 * m - 1)),
                chain_parsed(start, *self, expr),
            decreases self.remaining(),
        {
            let operator = self.previous().clone();
            let right = self.or()?;
            expr = Expr::Binary { left: Box::new(expr), operator, right: Box::new(right) };
        }
        Ok(expr)
    }

    fn or(&mut self) -> (r: Result<Expr, ParseError>)
        requires
            old(self).wf(),
        ensures
            parsed_step(*old(self), *final(self), r),
            lone_operand(*old(self)) ==> (r matches Ok(e) && lone_expr(e, token_at(*old(self), 0))
                && final(self).pos() == old(self).pos() + 1),
            chain_outcome(*old(self), *final(self), r),
        decreases old(self).remaining(), 27nat,
    {
        let ghost start = *self;
        let mut expr = self.and()?;
        proof {
            lemma_operand_end_not_in(seq![TokenType::PipePipe], kind_at(start, 1));
            lemma_chain_end_not_in(start, seq![TokenType::PipePipe]);
        }
        while self.matches(&[TokenType::PipePipe])
            invariant
                start == *old(self),
                moved_on(start, *self),
                self.pos() > start.pos(),
                lone_operand(start) ==> self.pos() == start.pos() + 1 && lone_expr(expr, token_at(start, 0)),
                lone_operand(start) ==> !seq![TokenType::PipePipe].contains(kind_at(start, 1)),
                forall|m: nat| #[trigger] left_chain(start, m) ==> !seq![TokenType::PipePipe].contains(kind_at(start, 2 * m - 1)),
                chain_parsed(start, *self, expr),
            decreases self.remaining(),
        {
            let operator = self.previous().clone();
            let right = self.and()?;
            expr = Expr::Logical { left: Box::new(expr), operator, right: Box::new(right) };
        }
        Ok(expr)
    }

    fn and(&mut self) -> (r: Result<Expr, ParseError>)
        requires
            old(self).wf(),
        ensures
            parsed_step(*old(self), *final(self), r),
            lone_operand(*old(self)) ==> (r matches Ok(e) && lone_expr(e, token_at(*old(self), 0))
                && final(self).pos() == old(self).pos() + 1),
            chain_outcome(*old(self), *final(self), r),
        decreases old(self).remaining(), 26nat,
    {
        let ghost start = *self;
        let mut expr = self.equality()?;
        proof {
            lemma_operand_end_not_in(seq![TokenType::AmpersandAmpersand], kind_at(start, 1));
            lemma_chain_end_not_in(start, seq![TokenType::AmpersandAmpersand]);
        }
        while self.matches(&[TokenType::AmpersandAmpersand])
            invariant
                start == *old(self),
                moved_on(start, *self),
                self.pos() > start.pos(),
                lone_operand(start) ==> self.pos() == start.pos() + 1 && lone_expr(expr, token_at(start, 0)),
                lone_operand(start) ==> !seq![TokenType::AmpersandAmpersand].contains(kind_at(start, 1)),
                forall|m: nat| #[trigger] left_chain(start, m) ==> !seq![TokenType::AmpersandAmpersand].contains(kind_at(start, 2 * m - 1)),
                chain_parsed(start, *self, expr),
            decreases self.remaining(),
        {
            let operator = self.previous().clone();
            let right = self.equality()?;
            expr = Expr::Logical { left: Box::new(expr), operator, right: Box::new(right) };
        }
        Ok(expr)
    }

    fn equality(&mut self) -> (r: Result<Expr, ParseError>)
        requires
            old(self).wf(),
        ensures
            parsed_step(*old(self), *final(self), r),
            lone_operand(*old(self)) ==> (r matches Ok(e) && lone_expr(e, token_at(*old(self), 0))
                && final(self).pos() == old(self).pos() + 1),
            chain_outcome(*old(self), *final(self), r),
        decreases old(self).remaining(), 25nat,
    {
        let ghost start = *self;
        let mut expr = self.comparison()?;
        proof {
            lemma_operand_end_not_in(seq![TokenType::ExclamationEqual, TokenType::EqualEqual], kind_at(start, 1));
            lemma_chain_end_not_in(start, seq![TokenType::ExclamationEqual, TokenType::EqualEqual]);
        }
        while self.matches(&[TokenType::ExclamationEqual, TokenType::EqualEqual])
            invariant
                start == *old(self),
                moved_on(start, *self),
                self.pos() > start.pos(),
                lone_operand(start) ==> self.pos() == start.pos() + 1 && lone_expr(expr, token_at(start, 0)),
                lone_operand(start) ==> !seq![TokenType::ExclamationEqual, TokenType::EqualEqual].contains(kind_at(start, 1)),
                forall|m: nat| #[trigger] left_chain(start, m) ==> !seq![TokenType::ExclamationEqual, TokenType::EqualEqual].contains(kind_at(start, 2 * m - 1)),
                chain_parsed(start, *self, expr),
            decreases self.remaining(),
        {
            let operator = self.previous().clone();
            let right = self.comparison()?;
            expr = Expr::Binary { left: Box::new(expr), operator, right: Box::new(right) };
        }
        Ok(expr)
    }

    fn comparison(&mut self) -> (r: Result<Expr, ParseError>)
        requires
            old(self).wf(),
        ensures
            parsed_step(*old(self), *final(self), r),
            lone_operand(*old(self)) ==> (r matches Ok(e) && lone_expr(e, token_at(*old(self), 0))
                && final(self).pos() == old(self).pos() + 1),
            chain_outcome(*old(self), *final(self), r),
        decreases old(self).remaining(), 24nat,
    {
        let ghost start = *self;
        let mut expr = self.range()?;
        proof {
            lemma_operand_end_not_in(seq![TokenType::Greater, TokenType::GreaterEqual, TokenType::Less, TokenType::LessEqual], kind_at(start, 1));
            lemma_chain_end_not_in(start, seq![TokenType::Greater, TokenType::GreaterEqual, TokenType::Less, TokenType::LessEqual]);
        }
        while self.matches(&[TokenType::Greater, TokenType::GreaterEqual, TokenType::Less, TokenType::LessEqual])
            invariant
                start == *old(self),
                moved_on(start, *self),
                self.pos() > start.pos(),
                lone_operand(start) ==> self.pos() == start.pos() + 1 && lone_expr(expr, token_at(start, 0)),
                lone_operand(start) ==> !seq![TokenType::Greater, TokenType::GreaterEqual, TokenType::Less, TokenType::LessEqual].contains(kind_at(start, 1)),
                forall|m: nat| #[trigger] left_chain(start, m) ==> !seq![TokenType::Greater, TokenType::GreaterEqual, TokenType::Less, TokenType::LessEqual].contains(kind_at(start, 2 * m - 1)),
                chain_parsed(start, *self, expr),
            decreases self.remaining(),
        {
            let operator = self.previous().clone();
            let right = self.range()?;
            expr = Expr::Binary { left: Box::new(expr), operator, right: Box::new(right) };
        }
        Ok(expr)
    }

    fn term(&mut self) -> (r: Result<Expr, ParseError>)
        requires
            old(self).wf(),
        ensures
            parsed_step(*old(self), *final(self), r),
            lone_operand(*old(self)) ==> (r matches Ok(e) && lone_expr(e, token_at(*old(self), 0))
                && final(self).pos() == old(self).pos() + 1),
            forall|n: nat| #[trigger] additive_chain(*old(self), n) ==> (r matches Ok(e) && grouped_left(e, *old(self), n)
                && final(self).pos() == old(self).pos() + 2 * n - 1),
            chain_outcome(*old(self), *final(self), r),
        decreases old(self).remaining(), 22nat,
    {
        let ghost start = *self;
        let ghost chain = exists|n: nat| additive_chain(start, n);
        let ghost n: nat = if chain {
            choose|n: nat| additive_chain(start, n)
        } else {
            0
        };
        let ghost mut k: int = 1;
        proof {
            if chain {
                let first: int = 0;
                assert(simple_start(kind_at(start, 2 * first)));
                if n > 1 {
                    assert(additive_operator(kind_at(start, 2 * first + 1)));
                }
            }
        }
        let mut expr = self.factor()?;
        proof {
            lemma_operand_end_not_in(seq![TokenType::Minus, TokenType::Plus], kind_at(start, 1));
            lemma_chain_end_not_in(start, seq![TokenType::Minus, TokenType::Plus]);
        }
        while self.matches(&[TokenType::Minus, TokenType::Plus])
            invariant
                start == *old(self),
                moved_on(start, *self),
                self.pos() > start.pos(),
                lone_operand(start) ==> self.pos() == start.pos() + 1 && lone_expr(expr, token_at(start, 0)),
                lone_operand(start) ==> !seq![TokenType::Minus, TokenType::Plus].contains(kind_at(start, 1)),
                chain == (exists|m: nat| additive_chain(start, m)),
                chain ==> additive_chain(start, n) && 1 <= k <= n && self.pos() == start.pos() + 2 * k - 1
                    && grouped_left(expr, start, k as nat),
                forall|m: nat| #[trigger] left_chain(start, m) ==> !seq![TokenType::Minus, TokenType::Plus].contains(
                    kind_at(start, 2 * m - 1),
                ),
                forall|m: nat| #[trigger] multiplicative_chain(start, m) ==> self.pos() == start.pos() + 2 * m - 1
                    && grouped_left(expr, start, m),
            decreases self.remaining(),
        {
            proof {
                if chain {
                    lemma_two_kinds(TokenType::Minus, TokenType::Plus, kind_at(start, 2 * k - 1));
                    assert(k < n);
                    assert(simple_start(kind_at(start, 2 * k)));
                    if k + 1 < n {
                        assert(additive_operator(kind_at(start, 2 * k + 1)));
                    }
                    assert(kind_at(*self, 0) == kind_at(start, 2 * k));
                    assert(kind_at(*self, 1) == kind_at(start, 2 * k + 1));
                    assert(lone_summand(*self));
                }
            }
            let operator = self.previous().clone();
            let right = self.factor()?;
            expr = Expr::Binary { left: Box::new(expr), operator, right: Box::new(right) };
            proof {
                if chain {
                    k = k + 1;
                }
            }
        }
        proof {
            if chain {
                lemma_two_kinds(TokenType::Minus, TokenType::Plus, kind_at(start, 2 * k - 1));
                if k < n {
                    assert(additive_operator(kind_at(start, 2 * (k - 1) + 1)));
                }
                assert forall|m: nat| #[trigger] additive_chain(start, m) implies m == n by {
                    if m < n {
                        assert(additive_operator(kind_at(start, 2 * (m - 1) + 1)));
                    } else if n < m {
                        assert(additive_operator(kind_at(start, 2 * (n - 1) + 1)));
                    }
                }
                assert forall|m: nat| #[trigger] multiplicative_chain(start, m) implies m == 1 && n == 1 by {
                    let first: int = 0;
                    if m > 1 {
                        assert(multiplicative_operator(kind_at(start, 2 * first + 1)));
                    }
                    if n > 1 {
                        assert(additive_operator(kind_at(start, 2 * first + 1)));
                    }
                }
            }
            assert forall|m: nat| #[trigger] left_chain(start, m) implies grouped_left(expr, start, m) && self.pos()
                == start.pos() + 2 * m - 1 by {
                if additive_chain(start, m) {
                    assert(chain);
                }
            }
        }
        Ok(expr)
    }

    fn factor(&mut self) -> (r: Result<Expr, ParseError>)
        requires
            old(self).wf(),
        ensures
            parsed_step(*old(self), *final(self), r),
            lone_operand(*old(self)) ==> (r matches Ok(e) && lone_expr(e, token_at(*old(self), 0))
                && final(self).pos() == old(self).pos() + 1),
            lone_summand(*old(self)) ==> (r matches Ok(e) && lone_expr(e, token_at(*old(self), 0))
                && final(self).pos() == old(self).pos() + 1),
            forall|n: nat| #[trigger] multiplicative_chain(*old(self), n) ==> (r matches Ok(e) && grouped_left(
                e,
                *old(self),
                n,
            ) && final(self).pos() == old(self).pos() + 2 * n - 1),
        decreases old(self).remaining(), 21nat,
    {
        let ghost start = *self;
        let ghost chain = exists|n: nat| multiplicative_chain(start, n);
        let ghost n: nat = if chain {
            choose|n: nat| multiplicative_chain(start, n)
        } else {
            0
        };
        let ghost mut k: int = 1;
        proof {
            if chain {
                let first: int = 0;
                assert(simple_start(kind_at(start, 2 * first)));
                if n > 1 {
                    assert(multiplicative_operator(kind_at(start, 2 * first + 1)));
                }
            }
        }
        let mut expr = self.power()?;
        proof {
            lemma_operand_end_not_in(seq![TokenType::Slash, TokenType::Star, TokenType::Percent], kind_at(start, 1));
        }
        while self.matches(&[TokenType::Slash, TokenType::Star, TokenType::Percent])
            invariant
                start == *old(self),
                moved_on(start, *self),
                self.pos() > start.pos(),
                lone_operand(start) ==> self.pos() == start.pos() + 1 && lone_expr(expr, token_at(start, 0)),
                lone_summand(start) ==> self.pos() == start.pos() + 1 && lone_expr(expr, token_at(start, 0)),
                lone_operand(start) ==> !seq![TokenType::Slash, TokenType::Star, TokenType::Percent].contains(kind_at(start, 1)),
                lone_summand(start) ==> !seq![TokenType::Slash, TokenType::Star, TokenType::Percent].contains(kind_at(start, 1)),
                chain == (exists|m: nat| multiplicative_chain(start, m)),
                chain ==> multiplicative_chain(start, n) && 1 <= k <= n && self.pos() == start.pos() + 2 * k - 1
                    && grouped_left(expr, start, k as nat),
            decreases self.remaining(),
        {
            proof {
                if chain {
                    lemma_three_kinds(TokenType::Slash, TokenType::Star, TokenType::Percent, kind_at(start, 2 * k - 1));
                    assert(k < n);
                    assert(simple_start(kind_at(start, 2 * k)));
                    if k + 1 < n {
                        assert(multiplicative_operator(kind_at(start, 2 * k + 1)));
                    }
                    assert(kind_at(*self, 0) == kind_at(start, 2 * k));
                    assert(kind_at(*self, 1) == kind_at(start, 2 * k + 1));
                    assert(lone_multiplicand(*self));
                }
            }
            let operator = self.previous().clone();
            let right = self.power()?;
            expr = Expr::Binary { left: Box::new(expr), operator, right: Box::new(right) };
            proof {
                if chain {
                    k = k + 1;
                }
            }
        }
        proof {
            if chain {
                lemma_three_kinds(TokenType::Slash, TokenType::Star, TokenType::Percent, kind_at(start, 2 * k - 1));
                if k < n {
                    assert(multiplicative_operator(kind_at(start, 2 * (k - 1) + 1)));
                }
                assert forall|m: nat| #[trigger] multiplicative_chain(start, m) implies m == n by {
                    if m < n {
                        assert(multiplicative_operator(kind_at(start, 2 * (m - 1) + 1)));
                    } else if n < m {
                        assert(multiplicative_operator(kind_at(start, 2 * (n - 1) + 1)));
                    }
                }
            }
        }
        Ok(expr)
    }

    fn range(&mut self) -> (r: Result<Expr, ParseError>)
        requires
            old(self).wf(),
        ensures
            parsed_step(*old(self), *final(self), r),
            lone_operand(*old(self)) ==> (r matches Ok(e) && lone_expr(e, token_at(*old(self), 0))
                && final(self).pos() == old(self).pos() + 1),
            chain_outcome(*old(self), *final(self), r),
        decreases old(self).remaining(), 23nat,
    {
        let ghost start = *self;
        let mut expr = self.term()?;
        proof {
            lemma_operand_end_not_in(seq![TokenType::DotDot, TokenType::DotDotEqual], kind_at(start, 1));
            lemma_chain_end_not_in(start, seq![TokenType::DotDot, TokenType::DotDotEqual]);
        }
        if self.matches(&[TokenType::DotDot, TokenType::DotDotEqual]) {
            let is_inclusive = self.previous().token_type == TokenType::DotDotEqual;
            let end = self.term()?;
            expr = Expr::RangeLiteral {
                start: Box::new(expr),
                end: Box::new(end),
                is_inclusive,
                range_token: self.previous().clone(),
            };
        }
        Ok(expr)
    }

    fn power(&mut self) -> (r: Result<Expr, ParseError>)
        requires
            old(self).wf(),
        ensures
            parsed_step(*old(self), *final(self), r),
            lone_operand(*old(self)) ==> (r matches Ok(e) && lone_expr(e, token_at(*old(self), 0))
                && final(self).pos() == old(self).pos() + 1),
            lone_summand(*old(self)) ==> (r matches Ok(e) && lone_expr(e, token_at(*old(self), 0))
                && final(self).pos() == old(self).pos() + 1),
            lone_multiplicand(*old(self)) ==> (r matches Ok(e) && lone_expr(e, token_at(*old(self), 0))
                && final(self).pos() == old(self).pos() + 1),
        decreases old(self).remaining(), 20nat,
    {
        let ghost start = *self;
        let mut expr = self.unary()?;
        proof {
            lemma_operand_end_not_in(seq![TokenType::Caret], kind_at(start, 1));
        }
        if self.matches(&[TokenType::Caret]) {
            let operator = self.previous().clone();
            let right = self.power()?;
            expr = Expr::Binary { left: Box::new(expr), operator, right: Box::new(right) };
        }
        Ok(expr)
    }

    fn unary(&mut self) -> (r: Result<Expr, ParseError>)
        requires
            old(self).wf(),
        ensures
            parsed_step(*old(self), *final(self), r),
            lone_operand(*old(self)) ==> (r matches Ok(e) && lone_expr(e, token_at(*old(self), 0))
                && final(self).pos() == old(self).pos() + 1),
            lone_summand(*old(self)) ==> (r matches Ok(e) && lone_expr(e, token_at(*old(self), 0))
                && final(self).pos() == old(self).pos() + 1),
            lone_multiplicand(*old(self)) ==> (r matches Ok(e) && lone_expr(e, token_at(*old(self), 0))
                && final(self).pos() == old(self).pos() + 1),
        decreases old(self).remaining(), 19nat,
    {
        if self.matches(&[TokenType::Exclamation, TokenType::Minus]) {
            let operator = self.previous().clone();
            let right = self.unary()?;
            Ok(Expr::Unary { operator, right: Box::new(right) })
        } else {
            self.postfix()
        }
    }

    fn postfix(&mut self) -> (r: Result<Expr, ParseError>)
        requires
            old(self).wf(),
        ensures
            parsed_step(*old(self), *final(self), r),
            lone_operand(*old(self)) ==> (r matches Ok(e) && lone_expr(e, token_at(*old(self), 0))
                && final(self).pos() == old(self).pos() + 1),
            lone_summand(*old(self)) ==> (r matches Ok(e) && lone_expr(e, token_at(*old(self), 0))
                && final(self).pos() == old(self).pos() + 1),
            lone_multiplicand(*old(self)) ==> (r matches Ok(e) && lone_expr(e, token_at(*old(self), 0))
                && final(self).pos() == old(self).pos() + 1),
            simple_start(kind_at(*old(self), 0)) && (kind_at(*old(self), 1) == TokenType::PlusPlus || kind_at(*old(self), 1)
                == TokenType::MinusMinus) && operand_end(kind_at(*old(self), 2)) ==> increment_outcome(
                *old(self),
                *final(self),
                r,
            ),
        decreases old(self).remaining(), 18nat,
    {
        let ghost start = *self;
        let ghost incr = simple_start(kind_at(start, 0)) && (kind_at(start, 1) == TokenType::PlusPlus || kind_at(start, 1)
            == TokenType::MinusMinus) && operand_end(kind_at(start, 2));
        let mut expr = self.primary()?;
        loop
            invariant
                incr == (simple_start(kind_at(start, 0)) && (kind_at(start, 1) == TokenType::PlusPlus || kind_at(start, 1)
                    == TokenType::MinusMinus) && operand_end(kind_at(start, 2))),
                incr ==> (self.pos() == start.pos() + 1 && lone_expr(expr, token_at(start, 0))) || (self.pos() == start.pos()
                    + 2 && increment_outcome(start, *self, Ok::<Expr, ParseError>(expr))),
                start == *old(self),
                moved_on(start, *self),
                self.pos() > start.pos(),
                lone_operand(start) ==> self.pos() == start.pos() + 1 && lone_expr(expr, token_at(start, 0)),
                lone_operand(start) ==> operand_end(kind_at(start, 1)),
                lone_summand(start) ==> self.pos() == start.pos() + 1 && lone_expr(expr, token_at(start, 0)),
                lone_summand(start) ==> operand_end(kind_at(start, 1)) || additive_operator(kind_at(start, 1)),
                lone_multiplicand(start) ==> self.pos() == start.pos() + 1 && lone_expr(expr, token_at(start, 0)),
                lone_multiplicand(start) ==> operand_end(kind_at(start, 1)) || multiplicative_operator(kind_at(start, 1)),
            ensures
                start == *old(self),
                moved_on(start, *self),
                self.pos() > start.pos(),
                lone_operand(start) ==> self.pos() == start.pos() + 1 && lone_expr(expr, token_at(start, 0)),
                lone_summand(start) ==> self.pos() == start.pos() + 1 && lone_expr(expr, token_at(start, 0)),
                lone_multiplicand(start) ==> self.pos() == start.pos() + 1 && lone_expr(expr, token_at(start, 0)),
                incr ==> self.pos() == start.pos() + 2 && increment_outcome(start, *self, Ok::<Expr, ParseError>(expr)),
            decreases self.remaining(),
        {
            proof {
                let k = kind_at(*self, 0);
                lemma_single_kind(TokenType::LeftParen, k);
                lemma_single_kind(TokenType::LeftBracket, k);
                lemma_single_kind(TokenType::Dot, k);
                lemma_single_kind(TokenType::AtEqual, k);
                lemma_single_kind(TokenType::AtMinus, k);
                lemma_two_kinds(TokenType::PlusPlus, TokenType::MinusMinus, k);
            }
            if self.matches(&[TokenType::LeftParen]) {
                expr = self.call(expr)?;
            } else if self.matches(&[TokenType::LeftBracket]) {
                expr = self.index_access(expr)?;
            } else if self.matches(&[TokenType::Dot]) {
                expr = self.field_access(expr)?;
            } else if self.matches(&[TokenType::AtEqual]) {
                expr = self.time_travel_absolute(expr)?;
            } else if self.matches(&[TokenType::AtMinus]) {
                expr = self.time_travel_relative(expr)?;
            } else if self.matches(&[TokenType::PlusPlus, TokenType::MinusMinus]) {
                let ghost at = (self.pos() - 1) as int;
                let operator_token = self.previous().clone();
                proof {
                    if incr {
                        assert(self.pos() == start.pos() + 2);
                    }
                }
                let one = Expr::Literal(
                    Token {
                        token_type: TokenType::Number,
                        lexeme: "1".to_owned(),
                        literal: Some(Literal::Number("1".to_owned())),
                        line: operator_token.line,
                        column: operator_token.column,
                    },
                );
                let (operator_type, operator_lexeme) = if operator_token.token_type == TokenType::PlusPlus {
                    (TokenType::Plus, "+")
                } else {
                    (TokenType::Minus, "-")
                };
                let intermediate_operator = Token {
                    token_type: operator_type,
                    lexeme: operator_lexeme.to_owned(),
                    literal: None,
                    line: operator_token.line,
                    column: operator_token.column,
                };
                let right_side = Expr::Binary {
                    left: Box::new(copy_expr(&expr)),
                    operator: intermediate_operator,
                    right: Box::new(one),
                };
                match assignment_to(expr, right_side) {
                    Some(assigned) => {
                        expr = assigned;
                    },
                    None => {
                        let e = ParseError::InvalidAssignmentTarget {
                            line: operator_token.line,
                            column: operator_token.column,
                            found: operator_token.clone(),
                        };
                        proof {
                            assert(reported_at(e, self.tokens()[at]));
                        }
                        return Err(e);
                    },
                }
            } else {
                break;
            }
        }
        Ok(expr)
    }

    fn call(&mut self, callee: Expr) -> (r: Result<Expr, ParseError>)
        requires
            old(self).wf(),
        ensures
            parsed_step(*old(self), *final(self), r),
        decreases old(self).remaining(), 31nat,
    {
        let ghost start = *self;
        let mut arguments: Vec<Expr> = Vec::new();
        if !self.check(TokenType::RightParen) {
            loop
                invariant
                    start == *old(self),
                    moved_on(start, *self),
                decreases self.remaining(),
            {
                let argument = self.expression()?;
                arguments.push(argument);
                if !self.matches(&[TokenType::Comma]) {
                    break;
                }
            }
        }
        let paren = self.consume(TokenType::RightParen)?;
        Ok(Expr::Call { callee: Box::new(callee), paren, arguments })
    }

    fn index_access(&mut self, target: Expr) -> (r: Result<Expr, ParseError>)
        requires
            old(self).wf(),
        ensures
            parsed_step(*old(self), *final(self), r),
        decreases old(self).remaining(), 31nat,
    {
        let left_bracket = self.previous().clone();
        let index = self.expression()?;
        self.consume(TokenType::RightBracket)?;
        Ok(Expr::IndexAccess { target: Box::new(target), index: Box::new(index), left_bracket })
    }

    fn field_access(&mut self, target: Expr) -> (r: Result<Expr, ParseError>)
        requires
            old(self).wf(),
        ensures
            parsed_step(*old(self), *final(self), r),
    {
        let field = if self.matches(&[TokenType::Number]) {
            self.previous().clone()
        } else {
            self.consume(TokenType::Identifier)?
        };
        if field.token_type == TokenType::Number && has_dot(&field.lexeme) {
            let parts = split_on_dots(&field.lexeme);
            let mut current = target;
            let mut i: usize = 0;
            while i < parts.len()
                decreases parts@.len() - i,
            {
                let part_token = Token {
                    token_type: TokenType::Number,
                    lexeme: parts[i].clone(),
                    literal: None,
                    line: field.line,
                    column: field.column,
                };
                current = Expr::FieldAccess { target: Box::new(current), field: part_token };
                i = i + 1;
            }
            return Ok(current);
        }
        Ok(Expr::FieldAccess { target: Box::new(target), field })
    }

    fn time_travel_absolute(&mut self, target: Expr) -> (r: Result<Expr, ParseError>)
        requires
            old(self).wf(),
        ensures
            parsed_step(*old(self), *final(self), r),
    {
        let at_token = self.previous().clone();
        let index = self.consume(TokenType::Number)?;
        Ok(Expr::TimeTravelAbsolute { target: Box::new(target), index: Box::new(Expr::Literal(index)), at_token })
    }

    fn time_travel_relative(&mut self, target: Expr) -> (r: Result<Expr, ParseError>)
        requires
            old(self).wf(),
        ensures
            parsed_step(*old(self), *final(self), r),
    {
        let at_token = self.previous().clone();
        let offset = self.consume(TokenType::Number)?;
        Ok(Expr::TimeTravelRelative { target: Box::new(target), offset: Box::new(Expr::Literal(offset)), at_token })
    }

    fn primary(&mut self) -> (r: Result<Expr, ParseError>)
        requires
            old(self).wf(),
        ensures
            parsed_step(*old(self), *final(self), r),
            kind_at(*old(self), 0) == TokenType::Number || kind_at(*old(self), 0) == TokenType::String ==> (r matches Ok(
                Expr::Literal(t),
            ) && t@ == token_at(*old(self), 0) && final(self).pos() == old(self).pos() + 1),
            kind_at(*old(self), 0) == TokenType::Identifier && kind_at(*old(self), 1) != TokenType::LeftBrace ==> (r matches Ok(
                Expr::Variable(t),
            ) && t@ == token_at(*old(self), 0) && final(self).pos() == old(self).pos() + 1),
            kind_at(*old(self), 0) == TokenType::LeftParen && kind_at(*old(self), 1) == TokenType::RightParen ==> (r matches Ok(
                Expr::TupleLiteral { elements, left_paren },
            ) && elements@.len() == 0 && left_paren@ == token_at(*old(self), 0) && final(self).pos() == old(self).pos()
                + 2),
            kind_at(*old(self), 0) == TokenType::LeftBracket && kind_at(*old(self), 1) == TokenType::RightBracket ==> (r matches Ok(
                Expr::ArrayLiteral { elements, left_bracket },
            ) && elements@.len() == 0 && left_bracket@ == token_at(*old(self), 0) && final(self).pos() == old(
                self,
            ).pos() + 2),
            kind_at(*old(self), 0) == TokenType::LeftBrace && kind_at(*old(self), 1) == TokenType::RightBrace ==> (r matches Ok(
                Expr::MapLiteral { elements, left_brace },
            ) && elements@.len() == 0 && left_brace@ == token_at(*old(self), 0) && final(self).pos() == old(self).pos()
                + 2),
            kind_at(*old(self), 0) == TokenType::LeftBracket ==> (r matches Ok(e) ==> e is ArrayLiteral),
            forall|n: nat| #[trigger] simple_array(*old(self), n) ==> (r matches Ok(Expr::ArrayLiteral { elements, .. })
                && elements@.len() == n && (forall|i: int| 0 <= i < n ==> #[trigger] lone_expr(elements@[i], token_at(*old(self), 1 + 2 * i)))
                && final(self).pos() == old(self).pos() + 2 * n + 1),
            kind_at(*old(self), 0) == TokenType::LeftBrace ==> (r matches Ok(e) ==> e is MapLiteral),
            kind_at(*old(self), 0) == TokenType::LeftParen ==> (r matches Ok(e) ==> (e is Grouping || e is TupleLiteral
                || e is Lambda)),
            kind_at(*old(self), 0) == TokenType::LeftParen && kind_at(*old(self), 1) == TokenType::Identifier && kind_at(
                *old(self),
                2,
            ) == TokenType::Colon ==> (r matches Ok(e) ==> e is Lambda),
            kind_at(*old(self), 0) == TokenType::LeftParen && (kind_at(*old(self), 1) == TokenType::Number || kind_at(
                *old(self),
                1,
            ) == TokenType::String) && kind_at(*old(self), 2) == TokenType::Comma && kind_at(*old(self), 3)
                == TokenType::RightParen ==> (r matches Ok(Expr::TupleLiteral { elements, left_paren }) && elements@.len()
                == 1 && (elements@[0] matches Expr::Literal(t) && t@ == token_at(*old(self), 1)) && left_paren@ == token_at(
                *old(self),
                0,
            ) && final(self).pos() == old(self).pos() + 4),
            kind_at(*old(self), 0) == TokenType::LeftParen && (kind_at(*old(self), 1) == TokenType::Number || kind_at(
                *old(self),
                1,
            ) == TokenType::String) && kind_at(*old(self), 2) == TokenType::RightParen ==> (r matches Ok(
                Expr::Grouping(inner),
            ) && (*inner matches Expr::Literal(t) && t@ == token_at(*old(self), 1)) && final(self).pos() == old(self).pos()
                + 3),
            !primary_start(kind_at(*old(self), 0)) ==> (r matches Err(ParseError::UnexpectedToken { line, column, found })
                && found@ == token_at(*old(self), 0) && line == found.line && column == found.column && final(self).pos()
                == old(self).pos()),
        decreases old(self).remaining(), 17nat,
    {
        let ghost start = *self;
        let previous_type = self.previous().token_type;
        proof {
            lemma_two_kinds(TokenType::Number, TokenType::String, kind_at(start, 0));
            lemma_single_kind(TokenType::Identifier, kind_at(start, 0));
            lemma_single_kind(TokenType::LeftBracket, kind_at(start, 0));
            lemma_single_kind(TokenType::LeftBrace, kind_at(start, 0));
            lemma_single_kind(TokenType::LeftParen, kind_at(start, 0));
        }
        if self.matches(&[TokenType::Number, TokenType::String]) {
            Ok(Expr::Literal(self.previous().clone()))
        } else if self.matches(&[TokenType::Identifier]) {
            if self.check(TokenType::LeftBrace) && previous_type != TokenType::Match {
                let identifier = self.previous().clone();
                self.consume(TokenType::LeftBrace)?;
                let mut fields: Vec<(Token, Expr)> = Vec::new();
                if !self.check(TokenType::RightBrace) {
                    loop
                        invariant
                            kind_at(start, 0) == TokenType::Identifier,
                            kind_at(start, 1) == TokenType::LeftBrace,
                            start == *old(self),
                            moved_on(start, *self),
                            self.pos() > start.pos(),
                        decreases self.remaining(),
                    {
                        let field_identifier = self.consume(TokenType::Identifier)?;
                        self.consume(TokenType::Colon)?;
                        let field_value = self.expression()?;
                        fields.push((field_identifier, field_value));
                        if !self.matches(&[TokenType::Comma]) {
                            break;
                        }
                    }
                }
                self.consume(TokenType::RightBrace)?;
                Ok(Expr::StructInstantiation { identifier, fields })
            } else {
                Ok(Expr::Variable(self.previous().clone()))
            }
        } else if self.matches(&[TokenType::LeftBracket]) {
            let left_bracket = self.previous().clone();
            let mut elements: Vec<Expr> = Vec::new();
            let ghost sa = exists|n: nat| simple_array(start, n);
            let ghost n: nat = if sa {
                choose|n: nat| simple_array(start, n)
            } else {
                0
            };
            proof {
                if sa {
                    assert(simple_start(kind_at(start, 1 + 2 * (0 as int))));
                }
                assert forall|m: nat| #[trigger] simple_array(start, m) implies m == n by {
                    lemma_simple_array_unique(start, m, n);
                }
            }
            if !self.check(TokenType::RightBracket) {
                loop
                    invariant_except_break
                        sa ==> self.pos() == start.pos() + 1 + 2 * elements@.len() && elements@.len() < n,
                    invariant
                        kind_at(start, 0) == TokenType::LeftBracket,
                        kind_at(start, 1) != TokenType::RightBracket,
                        start == *old(self),
                        moved_on(start, *self),
                        self.pos() > start.pos(),
                        sa ==> simple_array(start, n),
                        forall|m: nat| #[trigger] simple_array(start, m) ==> m == n && sa,
                        sa ==> forall|j: int| 0 <= j < elements@.len() ==> #[trigger] lone_expr(elements@[j], token_at(start, 1 + 2 * j)),
                        sa ==> elements@.len() <= n,
                    ensures
                        start == *old(self),
                        moved_on(start, *self),
                        self.pos() > start.pos(),
                        sa ==> elements@.len() == n && self.pos() == start.pos() + 2 * n && forall|j: int|
                            0 <= j < n ==> #[trigger] lone_expr(elements@[j], token_at(start, 1 + 2 * j)),
                    decreases self.remaining(),
                {
                    let ghost c = elements@.len() as int;
                    proof {
                        if sa {
                            assert(simple_start(kind_at(start, 1 + 2 * c)));
                            assert(kind_at(*self, 0) == kind_at(start, 1 + 2 * c));
                            assert(kind_at(*self, 1) == kind_at(start, 2 + 2 * c));
                            lemma_single_kind(TokenType::Comma, kind_at(start, 2 + 2 * c));
                            assert(lone_literal(*self));
                        }
                    }
                    let element = self.expression()?;
                    elements.push(element);
                    proof {
                        if sa {
                            assert forall|j: int| 0 <= j < elements@.len() implies #[trigger] lone_expr(elements@[j], token_at(start, 1 + 2 * j)) by {
                            }
                        }
                    }
                    if !self.matches(&[TokenType::Comma]) {
                        break;
                    }
                }
            }
            proof {
                if sa {
                    assert(simple_start(kind_at(start, 1 + 2 * ((n - 1) as int))));
                    assert(kind_at(*self, 0) == TokenType::RightBracket);
                }
            }
            self.consume(TokenType::RightBracket)?;
            Ok(Expr::ArrayLiteral { elements, left_bracket })
        } else if self.matches(&[TokenType::LeftBrace]) {
            let left_brace = self.previous().clone();
            let mut elements: Vec<(Expr, Expr)> = Vec::new();
            if !self.check(TokenType::RightBrace) {
                loop
                    invariant
                        kind_at(start, 0) == TokenType::LeftBrace,
                        kind_at(start, 1) != TokenType::RightBrace,
                        start == *old(self),
                        moved_on(start, *self),
                        self.pos() > start.pos(),
                    decreases self.remaining(),
                {
                    let key = self.expression()?;
                    self.consume(TokenType::Colon)?;
                    let value = self.expression()?;
                    elements.push((key, value));
                    if !self.matches(&[TokenType::Comma]) {
                        break;
                    }
                }
            }
            self.consume(TokenType::RightBrace)?;
            Ok(Expr::MapLiteral { elements, left_brace })
        } else if self.matches(&[TokenType::LeftParen]) {
            let left_paren = self.previous().clone();
            if self.check(TokenType::Identifier) && self.peek_next().token_type == TokenType::Colon {
                let mut parameters: Vec<(Token, TypeExpr)> = Vec::new();
                loop
                    invariant
                        kind_at(start, 0) == TokenType::LeftParen,
                        kind_at(start, 1) == TokenType::Identifier,
                        kind_at(start, 2) == TokenType::Colon,
                        start == *old(self),
                        moved_on(start, *self),
                        self.pos() > start.pos(),
                    decreases self.remaining(),
                {
                    let parameter_name = self.consume(TokenType::Identifier)?;
                    self.consume(TokenType::Colon)?;
                    let parameter_type = self.type_expr()?;
                    parameters.push((parameter_name, parameter_type));
                    if !self.matches(&[TokenType::Comma]) {
                        break;
                    }
                }
                self.consume(TokenType::RightParen)?;
                let return_type = if self.matches(&[TokenType::MinusGreater]) {
                    Some(self.type_expr()?)
                } else {
                    None
                };
                self.consume(TokenType::LeftBrace)?;
                let body = self.block_statement()?;
                Ok(Expr::Lambda { parameters, return_type, body })
            } else if self.check(TokenType::RightParen) {
                self.advance();
                Ok(Expr::TupleLiteral { elements: Vec::new(), left_paren })
            } else {
                let ghost scen = (kind_at(start, 1) == TokenType::Number || kind_at(start, 1) == TokenType::String)
                    && kind_at(start, 2) == TokenType::Comma && kind_at(start, 3) == TokenType::RightParen;
                let first = self.expression()?;
                proof {
                    lemma_single_kind(TokenType::Comma, kind_at(start, 2));
                }
                if self.matches(&[TokenType::Comma]) {
                    let mut elements: Vec<Expr> = Vec::new();
                    elements.push(first);
                    while !self.check(TokenType::RightParen)
                        invariant
                            scen == ((kind_at(start, 1) == TokenType::Number || kind_at(start, 1) == TokenType::String)
                                && kind_at(start, 2) == TokenType::Comma && kind_at(start, 3) == TokenType::RightParen),
                            !((kind_at(start, 1) == TokenType::Number || kind_at(start, 1) == TokenType::String)
                                && kind_at(start, 2) == TokenType::RightParen),
                            scen ==> self.pos() == start.pos() + 3 && elements@.len() == 1 && (elements@[0] matches Expr::Literal(
                                t,
                            ) && t@ == token_at(start, 1)),
                            kind_at(start, 0) == TokenType::LeftParen,
                            kind_at(start, 1) != TokenType::RightParen,
                            !(kind_at(start, 1) == TokenType::Identifier && kind_at(start, 2) == TokenType::Colon),
                            start == *old(self),
                            moved_on(start, *self),
                            self.pos() > start.pos(),
                        decreases self.remaining(),
                    {
                        let element = self.expression()?;
                        elements.push(element);
                        if !self.matches(&[TokenType::Comma]) {
                            break;
                        }
                    }
                    self.consume(TokenType::RightParen)?;
                    Ok(Expr::TupleLiteral { elements, left_paren })
                } else {
                    self.consume(TokenType::RightParen)?;
                    Ok(Expr::Grouping(Box::new(first)))
                }
            }
        } else {
            let found = self.peek().clone();
            Err(ParseError::UnexpectedToken { line: found.line, column: found.column, found })
        }
    }
}

} // verus!
