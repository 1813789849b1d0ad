use vstd::prelude::*;
use std::rc::Rc;
use crate::token::Token;
use crate::types::{copy_fields, copy_type, copy_variants, EnumVariant, TypeExpr};

verus! {

/// An expression.
#[derive(Debug)]
pub enum Expr {
    Literal(Token),
    ArrayLiteral { elements: Vec<Expr>, left_bracket: Token },
    MapLiteral { elements: Vec<(Expr, Expr)>, left_brace: Token },
    TupleLiteral { elements: Vec<Expr>, left_paren: Token },
    RangeLiteral { start: Box<Expr>, end: Box<Expr>, is_inclusive: bool, range_token: Token },
    Variable(Token),
    StructInstantiation { identifier: Token, fields: Vec<(Token, Expr)> },
    Assign { identifier: Token, value: Box<Expr> },
    AssignIndex { target: Box<Expr>, index: Box<Expr>, value: Box<Expr>, left_bracket: Token },
    AssignTimeTravelAbsolute { target: Box<Expr>, index: Box<Expr>, value: Box<Expr>, at_token: Token },
    AssignTimeTravelRelative { target: Box<Expr>, offset: Box<Expr>, value: Box<Expr>, at_token: Token },
    Grouping(Box<Expr>),
    Unary { operator: Token, right: Box<Expr> },
    Binary { left: Box<Expr>, operator: Token, right: Box<Expr> },
    Logical { left: Box<Expr>, operator: Token, right: Box<Expr> },
    Call { callee: Box<Expr>, paren: Token, arguments: Vec<Expr> },
    If { if_token: Token, condition: Box<Expr>, then_branch: Box<Expr>, else_branch: Option<Box<Expr>> },
    Match { match_token: Token, subject: Box<Expr>, cases: Vec<MatchCase> },
    Lambda { parameters: Vec<(Token, TypeExpr)>, return_type: Option<TypeExpr>, body: Vec<Stmt> },
    Block { stmts: Vec<Stmt>, left_brace: Token },
    IndexAccess { target: Box<Expr>, index: Box<Expr>, left_bracket: Token },
    FieldAccess { target: Box<Expr>, field: Token },
    TimeTravelAbsolute { target: Box<Expr>, index: Box<Expr>, at_token: Token },
    TimeTravelRelative { target: Box<Expr>, offset: Box<Expr>, at_token: Token },
}

/// One case of a match expression.
#[derive(Debug)]
pub struct MatchCase {
    pub pattern: Pattern,
    pub guard_token: Option<Token>,
    pub guard: Option<Expr>,
    pub body: Expr,
}

/// A pattern of a match case.
#[derive(Debug)]
pub enum Pattern {
    Wildcard(Token),
    Literal(Token),
    Variable(Token),
    EnumVariant { identifier: Token, arguments: Vec<Pattern> },
    Range { start: Token, end: Token, is_inclusive: bool },
    Tuple { elements: Vec<Pattern>, left_paren: Token },
}

/// What a variable declaration or a for-in loop binds: a name, or a tuple
/// of bindings.
#[derive(Debug)]
pub enum VariableBinding {
    Identifier(Token),
    Tuple { elements: Vec<VariableBinding>, left_paren: Token },
}

/// The token a binding starts with.
pub open spec fn first_token_of(b: VariableBinding) -> Token {
    match b {
        VariableBinding::Identifier(token) => token,
        VariableBinding::Tuple { left_paren, .. } => left_paren,
    }
}

impl VariableBinding {
    /// The token a binding starts with.
    pub fn first_token(&self) -> (t: &Token)
        ensures
            *t == first_token_of(*self),
    {
        match self {
            VariableBinding::Identifier(token) => token,
            VariableBinding::Tuple { left_paren, .. } => left_paren,
        }
    }
}

/// A statement.
#[derive(Debug)]
pub enum Stmt {
    Variable { binding: VariableBinding, type_annotation: Option<TypeExpr>, initializer: Option<Expr> },
    Enum { identifier: Token, type_parameters: Vec<Token>, variants: Vec<EnumVariant> },
    Struct { identifier: Token, type_parameters: Vec<Token>, fields: Vec<(Token, TypeExpr)> },
    If { if_token: Token, condition: Expr, then_branch: Box<Stmt>, else_branch: Option<Box<Stmt>> },
    While { while_token: Token, condition: Expr, body: Box<Stmt> },
    ForIn { binding: VariableBinding, iterable: Expr, body: Box<Stmt> },
    Function(Rc<FunctionStmt>),
    Block(Vec<Stmt>),
    Expression(Expr),
    Break(Token),
    Continue(Token),
}

/// A function declaration.
#[derive(Debug)]
pub struct FunctionStmt {
    pub identifier: Token,
    pub type_parameters: Vec<Token>,
    pub parameters: Vec<(Token, TypeExpr)>,
    pub return_type: Option<TypeExpr>,
    pub body: Vec<Stmt>,
}

} // verus!

verus! {

/// The same optional type, compared by value.
pub open spec fn same_opt_type(a: Option<TypeExpr>, b: Option<TypeExpr>) -> bool {
    match a {
        Some(x) => b matches Some(y) && x@ == y@,
        None => b is None,
    }
}

/// The same optional token, compared by value.
pub open spec fn same_opt_token(a: Option<Token>, b: Option<Token>) -> bool {
    match a {
        Some(x) => b matches Some(y) && x@ == y@,
        None => b is None,
    }
}

/// `b` is `a` over again: the same shape, with equal tokens and types.
pub open spec fn same_expr(a: Expr, b: Expr) -> bool
    decreases a, 0int,
{
    match a {
        Expr::Literal(t) => b matches Expr::Literal(u) && t@ == u@,
        Expr::ArrayLiteral { elements, left_bracket } => {
            &&& b matches Expr::ArrayLiteral { elements: f, left_bracket: u }
            &&& left_bracket@ == u@
            &&& elements@.len() == f@.len()
            &&& same_exprs_from(elements@, f@, 0)
        },
        Expr::MapLiteral { elements, left_brace } => {
            &&& b matches Expr::MapLiteral { elements: f, left_brace: u }
            &&& left_brace@ == u@
            &&& elements@.len() == f@.len()
            &&& same_pairs_from(elements@, f@, 0)
        },
        Expr::TupleLiteral { elements, left_paren } => {
            &&& b matches Expr::TupleLiteral { elements: f, left_paren: u }
            &&& left_paren@ == u@
            &&& elements@.len() == f@.len()
            &&& same_exprs_from(elements@, f@, 0)
        },
        Expr::RangeLiteral { start, end, is_inclusive, range_token } => {
            &&& b matches Expr::RangeLiteral { start: s2, end: e2, is_inclusive: i2, range_token: t2 }
            &&& same_expr(*start, *s2) && same_expr(*end, *e2) && is_inclusive == i2 && range_token@ == t2@
        },
        Expr::Variable(t) => b matches Expr::Variable(u) && t@ == u@,
        Expr::StructInstantiation { identifier, fields } => {
            &&& b matches Expr::StructInstantiation { identifier: i2, fields: f }
            &&& identifier@ == i2@
            &&& fields@.len() == f@.len()
            &&& same_named_from(fields@, f@, 0)
        },
        Expr::Assign { identifier, value } => {
            &&& b matches Expr::Assign { identifier: i2, value: v2 }
            &&& identifier@ == i2@ && same_expr(*value, *v2)
        },
        Expr::AssignIndex { target, index, value, left_bracket } => {
            &&& b matches Expr::AssignIndex { target: t2, index: x2, value: v2, left_bracket: l2 }
            &&& same_expr(*target, *t2) && same_expr(*index, *x2) && same_expr(*value, *v2) && left_bracket@ == l2@
        },
        Expr::AssignTimeTravelAbsolute { target, index, value, at_token } => {
            &&& b matches Expr::AssignTimeTravelAbsolute { target: t2, index: x2, value: v2, at_token: a2 }
            &&& same_expr(*target, *t2) && same_expr(*index, *x2) && same_expr(*value, *v2) && at_token@ == a2@
        },
        Expr::AssignTimeTravelRelative { target, offset, value, at_token } => {
            &&& b matches Expr::AssignTimeTravelRelative { target: t2, offset: o2, value: v2, at_token: a2 }
            &&& same_expr(*target, *t2) && same_expr(*offset, *o2) && same_expr(*value, *v2) && at_token@ == a2@
        },
        Expr::Grouping(inner) => b matches Expr::Grouping(i2) && same_expr(*inner, *i2),
        Expr::Unary { operator, right } => {
            &&& b matches Expr::Unary { operator: o2, right: r2 }
            &&& operator@ == o2@ && same_expr(*right, *r2)
        },
        Expr::Binary { left, operator, right } => {
            &&& b matches Expr::Binary { left: l2, operator: o2, right: r2 }
            &&& same_expr(*left, *l2) && operator@ == o2@ && same_expr(*right, *r2)
        },
        Expr::Logical { left, operator, right } => {
            &&& b matches Expr::Logical { left: l2, operator: o2, right: r2 }
            &&& same_expr(*left, *l2) && operator@ == o2@ && same_expr(*right, *r2)
        },
        Expr::Call { callee, paren, arguments } => {
            &&& b matches Expr::Call { callee: c2, paren: p2, arguments: a2 }
            &&& same_expr(*callee, *c2) && paren@ == p2@
            &&& arguments@.len() == a2@.len()
            &&& same_exprs_from(arguments@, a2@, 0)
        },
        Expr::If { if_token, condition, then_branch, else_branch } => {
            &&& b matches Expr::If { if_token: i2, condition: c2, then_branch: t2, else_branch: e2 }
            &&& if_token@ == i2@ && same_expr(*condition, *c2) && same_expr(*then_branch, *t2)
            &&& match else_branch {
                Some(x) => e2 matches Some(y) && same_expr(*x, *y),
                None => e2 is None,
            }
        },
        Expr::Match { match_token, subject, cases } => {
            &&& b matches Expr::Match { match_token: m2, subject: s2, cases: c2 }
            &&& match_token@ == m2@ && same_expr(*subject, *s2)
            &&& cases@.len() == c2@.len()
            &&& same_cases_from(cases@, c2@, 0)
        },
        Expr::Lambda { parameters, return_type, body } => {
            &&& b matches Expr::Lambda { parameters: p2, return_type: r2, body: b2 }
            &&& crate::types::fields_view(parameters@) == crate::types::fields_view(p2@)
            &&& same_opt_type(return_type, r2)
            &&& body@.len() == b2@.len()
            &&& same_stmts_from(body@, b2@, 0)
        },
        Expr::Block { stmts, left_brace } => {
            &&& b matches Expr::Block { stmts: s2, left_brace: l2 }
            &&& left_brace@ == l2@
            &&& stmts@.len() == s2@.len()
            &&& same_stmts_from(stmts@, s2@, 0)
        },
        Expr::IndexAccess { target, index, left_bracket } => {
            &&& b matches Expr::IndexAccess { target: t2, index: x2, left_bracket: l2 }
            &&& same_expr(*target, *t2) && same_expr(*index, *x2) && left_bracket@ == l2@
        },
        Expr::FieldAccess { target, field } => {
            &&& b matches Expr::FieldAccess { target: t2, field: f2 }
            &&& same_expr(*target, *t2) && field@ == f2@
        },
        Expr::TimeTravelAbsolute { target, index, at_token } => {
            &&& b matches Expr::TimeTravelAbsolute { target: t2, index: x2, at_token: a2 }
            &&& same_expr(*target, *t2) && same_expr(*index, *x2) && at_token@ == a2@
        },
        Expr::TimeTravelRelative { target, offset, at_token } => {
            &&& b matches Expr::TimeTravelRelative { target: t2, offset: o2, at_token: a2 }
            &&& same_expr(*target, *t2) && same_expr(*offset, *o2) && at_token@ == a2@
        },
    }
}

/// `b` is the match case `a` over again.
pub open spec fn same_case(a: MatchCase, b: MatchCase) -> bool
    decreases a, 0int,
{
    &&& same_pattern(a.pattern, b.pattern)
    &&& same_opt_token(a.guard_token, b.guard_token)
    &&& match a.guard {
        Some(x) => b.guard matches Some(y) && same_expr(x, y),
        None => b.guard is None,
    }
    &&& same_expr(a.body, b.body)
}

/// `b` is the pattern `a` over again.
pub open spec fn same_pattern(a: Pattern, b: Pattern) -> bool
    decreases a, 0int,
{
    match a {
        Pattern::Wildcard(t) => b matches Pattern::Wildcard(u) && t@ == u@,
        Pattern::Literal(t) => b matches Pattern::Literal(u) && t@ == u@,
        Pattern::Variable(t) => b matches Pattern::Variable(u) && t@ == u@,
        Pattern::EnumVariant { identifier, arguments } => {
            &&& b matches Pattern::EnumVariant { identifier: i2, arguments: a2 }
            &&& identifier@ == i2@
            &&& arguments@.len() == a2@.len()
            &&& same_patterns_from(arguments@, a2@, 0)
        },
        Pattern::Range { start, end, is_inclusive } => {
            &&& b matches Pattern::Range { start: s2, end: e2, is_inclusive: i2 }
            &&& start@ == s2@ && end@ == e2@ && is_inclusive == i2
        },
        Pattern::Tuple { elements, left_paren } => {
            &&& b matches Pattern::Tuple { elements: e2, left_paren: l2 }
            &&& left_paren@ == l2@
            &&& elements@.len() == e2@.len()
            &&& same_patterns_from(elements@, e2@, 0)
        },
    }
}

/// `b` is the binding `a` over again.
pub open spec fn same_binding(a: VariableBinding, b: VariableBinding) -> bool
    decreases a, 0int,
{
    match a {
        VariableBinding::Identifier(t) => b matches VariableBinding::Identifier(u) && t@ == u@,
        VariableBinding::Tuple { elements, left_paren } => {
            &&& b matches VariableBinding::Tuple { elements: e2, left_paren: l2 }
            &&& left_paren@ == l2@
            &&& elements@.len() == e2@.len()
            &&& same_bindings_from(elements@, e2@, 0)
        },
    }
}

/// `b` is the statement `a` over again.
pub open spec fn same_stmt(a: Stmt, b: Stmt) -> bool
    decreases a, 0int,
{
    match a {
        Stmt::Variable { binding, type_annotation, initializer } => {
            &&& b matches Stmt::Variable { binding: b2, type_annotation: t2, initializer: i2 }
            &&& same_binding(binding, b2) && same_opt_type(type_annotation, t2)
            &&& match initializer {
                Some(x) => i2 matches Some(y) && same_expr(x, y),
                None => i2 is None,
            }
        },
        Stmt::Enum { identifier, type_parameters, variants } => {
            &&& b matches Stmt::Enum { identifier: i2, type_parameters: p2, variants: v2 }
            &&& identifier@ == i2@ && crate::token::tokens_view(type_parameters@) == crate::token::tokens_view(p2@)
            &&& crate::types::variants_view(variants@) == crate::types::variants_view(v2@)
        },
        Stmt::Struct { identifier, type_parameters, fields } => {
            &&& b matches Stmt::Struct { identifier: i2, type_parameters: p2, fields: f2 }
            &&& identifier@ == i2@ && crate::token::tokens_view(type_parameters@) == crate::token::tokens_view(p2@)
            &&& crate::types::fields_view(fields@) == crate::types::fields_view(f2@)
        },
        Stmt::If { if_token, condition, then_branch, else_branch } => {
            &&& b matches Stmt::If { if_token: i2, condition: c2, then_branch: t2, else_branch: e2 }
            &&& if_token@ == i2@ && same_expr(condition, c2) && same_stmt(*then_branch, *t2)
            &&& match else_branch {
                Some(x) => e2 matches Some(y) && same_stmt(*x, *y),
                None => e2 is None,
            }
        },
        Stmt::While { while_token, condition, body } => {
            &&& b matches Stmt::While { while_token: w2, condition: c2, body: b2 }
            &&& while_token@ == w2@ && same_expr(condition, c2) && same_stmt(*body, *b2)
        },
        Stmt::ForIn { binding, iterable, body } => {
            &&& b matches Stmt::ForIn { binding: b2, iterable: i2, body: d2 }
            &&& same_binding(binding, b2) && same_expr(iterable, i2) && same_stmt(*body, *d2)
        },
        Stmt::Function(f) => {
            &&& b matches Stmt::Function(g)
            &&& f.identifier@ == g.identifier@
            &&& crate::token::tokens_view(f.type_parameters@) == crate::token::tokens_view(g.type_parameters@)
            &&& crate::types::fields_view(f.parameters@) == crate::types::fields_view(g.parameters@)
            &&& same_opt_type(f.return_type, g.return_type)
            &&& f.body@.len() == g.body@.len()
            &&& same_stmts_from(f.body@, g.body@, 0)
        },
        Stmt::Block(ss) => {
            &&& b matches Stmt::Block(s2)
            &&& ss@.len() == s2@.len()
            &&& same_stmts_from(ss@, s2@, 0)
        },
        Stmt::Expression(e) => b matches Stmt::Expression(e2) && same_expr(e, e2),
        Stmt::Break(t) => b matches Stmt::Break(u) && t@ == u@,
        Stmt::Continue(t) => b matches Stmt::Continue(u) && t@ == u@,
    }
}

/// From position `i` on, each of `b` is the element of `a` at its position
/// over again.
pub open spec fn same_exprs_from(a: Seq<Expr>, b: Seq<Expr>, i: int) -> bool
    decreases a, a.len() - i,
{
    if 0 <= i < a.len() && i < b.len() {
        same_expr(a[i], b[i]) && same_exprs_from(a, b, i + 1)
    } else {
        true
    }
}

proof fn lemma_same_exprs_from(a: Seq<Expr>, b: Seq<Expr>, i: int)
    requires
        0 <= i,
        forall|j: int| i <= j < a.len() && j < b.len() ==> same_expr(a[j], b[j]),
    ensures
        same_exprs_from(a, b, i),
    decreases a.len() - i,
{
    if i < a.len() && i < b.len() {
        lemma_same_exprs_from(a, b, i + 1);
    }
}

/// From position `i` on, each of `b` is the element of `a` at its position
/// over again.
pub open spec fn same_pairs_from(a: Seq<(Expr, Expr)>, b: Seq<(Expr, Expr)>, i: int) -> bool
    decreases a, a.len() - i,
{
    if 0 <= i < a.len() && i < b.len() {
        same_expr(a[i].0, b[i].0) && same_expr(a[i].1, b[i].1) && same_pairs_from(a, b, i + 1)
    } else {
        true
    }
}

proof fn lemma_same_pairs_from(a: Seq<(Expr, Expr)>, b: Seq<(Expr, Expr)>, i: int)
    requires
        0 <= i,
        forall|j: int| i <= j < a.len() && j < b.len() ==> same_expr(a[j].0, b[j].0) && same_expr(a[j].1, b[j].1),
    ensures
        same_pairs_from(a, b, i),
    decreases a.len() - i,
{
    if i < a.len() && i < b.len() {
        lemma_same_pairs_from(a, b, i + 1);
    }
}

/// From position `i` on, each of `b` is the element of `a` at its position
/// over again.
pub open spec fn same_named_from(a: Seq<(Token, Expr)>, b: Seq<(Token, Expr)>, i: int) -> bool
    decreases a, a.len() - i,
{
    if 0 <= i < a.len() && i < b.len() {
        a[i].0@ == b[i].0@ && same_expr(a[i].1, b[i].1) && same_named_from(a, b, i + 1)
    } else {
        true
    }
}

proof fn lemma_same_named_from(a: Seq<(Token, Expr)>, b: Seq<(Token, Expr)>, i: int)
    requires
        0 <= i,
        forall|j: int| i <= j < a.len() && j < b.len() ==> a[j].0@ == b[j].0@ && same_expr(a[j].1, b[j].1),
    ensures
        same_named_from(a, b, i),
    decreases a.len() - i,
{
    if i < a.len() && i < b.len() {
        lemma_same_named_from(a, b, i + 1);
    }
}

/// From position `i` on, each of `b` is the element of `a` at its position
/// over again.
pub open spec fn same_cases_from(a: Seq<MatchCase>, b: Seq<MatchCase>, i: int) -> bool
    decreases a, a.len() - i,
{
    if 0 <= i < a.len() && i < b.len() {
        same_case(a[i], b[i]) && same_cases_from(a, b, i + 1)
    } else {
        true
    }
}

proof fn lemma_same_cases_from(a: Seq<MatchCase>, b: Seq<MatchCase>, i: int)
    requires
        0 <= i,
        forall|j: int| i <= j < a.len() && j < b.len() ==> same_case(a[j], b[j]),
    ensures
        same_cases_from(a, b, i),
    decreases a.len() - i,
{
    if i < a.len() && i < b.len() {
        lemma_same_cases_from(a, b, i + 1);
    }
}

/// From position `i` on, each of `b` is the element of `a` at its position
/// over again.
pub open spec fn same_stmts_from(a: Seq<Stmt>, b: Seq<Stmt>, i: int) -> bool
    decreases a, a.len() - i,
{
    if 0 <= i < a.len() && i < b.len() {
        same_stmt(a[i], b[i]) && same_stmts_from(a, b, i + 1)
    } else {
        true
    }
}

proof fn lemma_same_stmts_from(a: Seq<Stmt>, b: Seq<Stmt>, i: int)
    requires
        0 <= i,
        forall|j: int| i <= j < a.len() && j < b.len() ==> same_stmt(a[j], b[j]),
    ensures
        same_stmts_from(a, b, i),
    decreases a.len() - i,
{
    if i < a.len() && i < b.len() {
        lemma_same_stmts_from(a, b, i + 1);
    }
}

/// From position `i` on, each of `b` is the element of `a` at its position
/// over again.
pub open spec fn same_patterns_from(a: Seq<Pattern>, b: Seq<Pattern>, i: int) -> bool
    decreases a, a.len() - i,
{
    if 0 <= i < a.len() && i < b.len() {
        same_pattern(a[i], b[i]) && same_patterns_from(a, b, i + 1)
    } else {
        true
    }
}

proof fn lemma_same_patterns_from(a: Seq<Pattern>, b: Seq<Pattern>, i: int)
    requires
        0 <= i,
        forall|j: int| i <= j < a.len() && j < b.len() ==> same_pattern(a[j], b[j]),
    ensures
        same_patterns_from(a, b, i),
    decreases a.len() - i,
{
    if i < a.len() && i < b.len() {
        lemma_same_patterns_from(a, b, i + 1);
    }
}

/// From position `i` on, each of `b` is the element of `a` at its position
/// over again.
pub open spec fn same_bindings_from(a: Seq<VariableBinding>, b: Seq<VariableBinding>, i: int) -> bool
    decreases a, a.len() - i,
{
    if 0 <= i < a.len() && i < b.len() {
        same_binding(a[i], b[i]) && same_bindings_from(a, b, i + 1)
    } else {
        true
    }
}

proof fn lemma_same_bindings_from(a: Seq<VariableBinding>, b: Seq<VariableBinding>, i: int)
    requires
        0 <= i,
        forall|j: int| i <= j < a.len() && j < b.len() ==> same_binding(a[j], b[j]),
    ensures
        same_bindings_from(a, b, i),
    decreases a.len() - i,
{
    if i < a.len() && i < b.len() {
        lemma_same_bindings_from(a, b, i + 1);
    }
}

/// A copy of an expression.
pub fn copy_expr(e: &Expr) -> (r: Expr)
    ensures
        same_expr(*e, r),
    decreases e,
{
    match e {
        Expr::Literal(t) => Expr::Literal(t.clone()),
        Expr::ArrayLiteral { elements, left_bracket } => Expr::ArrayLiteral {
            elements: copy_exprs(elements),
            left_bracket: left_bracket.clone(),
        },
        Expr::MapLiteral { elements, left_brace } => Expr::MapLiteral {
            elements: copy_expr_pairs(elements),
            left_brace: left_brace.clone(),
        },
        Expr::TupleLiteral { elements, left_paren } => Expr::TupleLiteral {
            elements: copy_exprs(elements),
            left_paren: left_paren.clone(),
        },
        Expr::RangeLiteral { start, end, is_inclusive, range_token } => Expr::RangeLiteral {
            start: Box::new(copy_expr(start)),
            end: Box::new(copy_expr(end)),
            is_inclusive: *is_inclusive,
            range_token: range_token.clone(),
        },
        Expr::Variable(t) => Expr::Variable(t.clone()),
        Expr::StructInstantiation { identifier, fields } => Expr::StructInstantiation {
            identifier: identifier.clone(),
            fields: copy_named_exprs(fields),
        },
        Expr::Assign { identifier, value } => Expr::Assign {
            identifier: identifier.clone(),
            value: Box::new(copy_expr(value)),
        },
        Expr::AssignIndex { target, index, value, left_bracket } => Expr::AssignIndex {
            target: Box::new(copy_expr(target)),
            index: Box::new(copy_expr(index)),
            value: Box::new(copy_expr(value)),
            left_bracket: left_bracket.clone(),
        },
        Expr::AssignTimeTravelAbsolute { target, index, value, at_token } => Expr::AssignTimeTravelAbsolute {
            target: Box::new(copy_expr(target)),
            index: Box::new(copy_expr(index)),
            value: Box::new(copy_expr(value)),
            at_token: at_token.clone(),
        },
        Expr::AssignTimeTravelRelative { target, offset, value, at_token } => Expr::AssignTimeTravelRelative {
            target: Box::new(copy_expr(target)),
            offset: Box::new(copy_expr(offset)),
            value: Box::new(copy_expr(value)),
            at_token: at_token.clone(),
        },
        Expr::Grouping(inner) => Expr::Grouping(Box::new(copy_expr(inner))),
        Expr::Unary { operator, right } => Expr::Unary { operator: operator.clone(), right: Box::new(copy_expr(right)) },
        Expr::Binary { left, operator, right } => Expr::Binary {
            left: Box::new(copy_expr(left)),
            operator: operator.clone(),
            right: Box::new(copy_expr(right)),
        },
        Expr::Logical { left, operator, right } => Expr::Logical {
            left: Box::new(copy_expr(left)),
            operator: operator.clone(),
            right: Box::new(copy_expr(right)),
        },
        Expr::Call { callee, paren, arguments } => Expr::Call {
            callee: Box::new(copy_expr(callee)),
            paren: paren.clone(),
            arguments: copy_exprs(arguments),
        },
        Expr::If { if_token, condition, then_branch, else_branch } => Expr::If {
            if_token: if_token.clone(),
            condition: Box::new(copy_expr(condition)),
            then_branch: Box::new(copy_expr(then_branch)),
            else_branch: match else_branch {
                Some(b) => Some(Box::new(copy_expr(b))),
                None => None,
            },
        },
        Expr::Match { match_token, subject, cases } => Expr::Match {
            match_token: match_token.clone(),
            subject: Box::new(copy_expr(subject)),
            cases: copy_cases(cases),
        },
        Expr::Lambda { parameters, return_type, body } => Expr::Lambda {
            parameters: copy_fields(parameters),
            return_type: match return_type {
                Some(t) => Some(copy_type(t)),
                None => None,
            },
            body: copy_stmts(body),
        },
        Expr::Block { stmts, left_brace } => Expr::Block { stmts: copy_stmts(stmts), left_brace: left_brace.clone() },
        Expr::IndexAccess { target, index, left_bracket } => Expr::IndexAccess {
            target: Box::new(copy_expr(target)),
            index: Box::new(copy_expr(index)),
            left_bracket: left_bracket.clone(),
        },
        Expr::FieldAccess { target, field } => Expr::FieldAccess { target: Box::new(copy_expr(target)), field: field.clone() },
        Expr::TimeTravelAbsolute { target, index, at_token } => Expr::TimeTravelAbsolute {
            target: Box::new(copy_expr(target)),
            index: Box::new(copy_expr(index)),
            at_token: at_token.clone(),
        },
        Expr::TimeTravelRelative { target, offset, at_token } => Expr::TimeTravelRelative {
            target: Box::new(copy_expr(target)),
            offset: Box::new(copy_expr(offset)),
            at_token: at_token.clone(),
        },
    }
}

/// Copies of a list of expressions.
pub fn copy_exprs(es: &Vec<Expr>) -> (r: Vec<Expr>)
    ensures
        same_exprs_from(es@, r@, 0),
        r@.len() == es@.len(),
        forall|i: int| 0 <= i < es@.len() ==> #[trigger] same_expr(es@[i], r@[i]),
    decreases es,
{
    let mut r: Vec<Expr> = Vec::new();
    let mut i: usize = 0;
    while i < es.len()
        invariant
            i <= es@.len(),
            r@.len() == i,
            forall|j: int| 0 <= j < i ==> #[trigger] same_expr(es@[j], r@[j]),
        decreases es@.len() - i,
    {
        r.push(copy_expr(&es[i]));
        i = i + 1;
    }
    proof {
        lemma_same_exprs_from(es@, r@, 0);
    }
    r
}

fn copy_expr_pairs(es: &Vec<(Expr, Expr)>) -> (r: Vec<(Expr, Expr)>)
    ensures
        same_pairs_from(es@, r@, 0),
        r@.len() == es@.len(),
        forall|i: int| 0 <= i < es@.len() ==> #[trigger] same_expr(es@[i].0, r@[i].0) && same_expr(es@[i].1, r@[i].1),
    decreases es,
{
    let mut r: Vec<(Expr, Expr)> = Vec::new();
    let mut i: usize = 0;
    while i < es.len()
        invariant
            i <= es@.len(),
            r@.len() == i,
            forall|j: int| 0 <= j < i ==> #[trigger] same_expr(es@[j].0, r@[j].0) && same_expr(es@[j].1, r@[j].1),
        decreases es@.len() - i,
    {
        r.push((copy_expr(&es[i].0), copy_expr(&es[i].1)));
        i = i + 1;
    }
    proof {
        lemma_same_pairs_from(es@, r@, 0);
    }
    r
}

fn copy_named_exprs(es: &Vec<(Token, Expr)>) -> (r: Vec<(Token, Expr)>)
    ensures
        same_named_from(es@, r@, 0),
        r@.len() == es@.len(),
        forall|i: int| 0 <= i < es@.len() ==> #[trigger] es@[i].0@ == r@[i].0@ && same_expr(es@[i].1, r@[i].1),
    decreases es,
{
    let mut r: Vec<(Token, Expr)> = Vec::new();
    let mut i: usize = 0;
    while i < es.len()
        invariant
            i <= es@.len(),
            r@.len() == i,
            forall|j: int| 0 <= j < i ==> #[trigger] es@[j].0@ == r@[j].0@ && same_expr(es@[j].1, r@[j].1),
        decreases es@.len() - i,
    {
        r.push((es[i].0.clone(), copy_expr(&es[i].1)));
        i = i + 1;
    }
    proof {
        lemma_same_named_from(es@, r@, 0);
    }
    r
}

fn copy_cases(cs: &Vec<MatchCase>) -> (r: Vec<MatchCase>)
    ensures
        same_cases_from(cs@, r@, 0),
        r@.len() == cs@.len(),
        forall|i: int| 0 <= i < cs@.len() ==> #[trigger] same_case(cs@[i], r@[i]),
    decreases cs,
{
    let mut r: Vec<MatchCase> = Vec::new();
    let mut i: usize = 0;
    while i < cs.len()
        invariant
            i <= cs@.len(),
            r@.len() == i,
            forall|j: int| 0 <= j < i ==> #[trigger] same_case(cs@[j], r@[j]),
        decreases cs@.len() - i,
    {
        let c = &cs[i];
        r.push(
            MatchCase {
                pattern: copy_pattern(&c.pattern),
                guard_token: match &c.guard_token {
                    Some(t) => Some(t.clone()),
                    None => None,
                },
                guard: match &c.guard {
                    Some(g) => Some(copy_expr(g)),
                    None => None,
                },
                body: copy_expr(&c.body),
            },
        );
        i = i + 1;
    }
    proof {
        lemma_same_cases_from(cs@, r@, 0);
    }
    r
}

/// A copy of a pattern.
pub fn copy_pattern(p: &Pattern) -> (r: Pattern)
    ensures
        same_pattern(*p, r),
    decreases p,
{
    match p {
        Pattern::Wildcard(t) => Pattern::Wildcard(t.clone()),
        Pattern::Literal(t) => Pattern::Literal(t.clone()),
        Pattern::Variable(t) => Pattern::Variable(t.clone()),
        Pattern::EnumVariant { identifier, arguments } => Pattern::EnumVariant {
            identifier: identifier.clone(),
            arguments: copy_patterns(arguments),
        },
        Pattern::Range { start, end, is_inclusive } => Pattern::Range {
            start: start.clone(),
            end: end.clone(),
            is_inclusive: *is_inclusive,
        },
        Pattern::Tuple { elements, left_paren } => Pattern::Tuple {
            elements: copy_patterns(elements),
            left_paren: left_paren.clone(),
        },
    }
}

fn copy_patterns(ps: &Vec<Pattern>) -> (r: Vec<Pattern>)
    ensures
        same_patterns_from(ps@, r@, 0),
        r@.len() == ps@.len(),
        forall|i: int| 0 <= i < ps@.len() ==> #[trigger] same_pattern(ps@[i], r@[i]),
    decreases ps,
{
    let mut r: Vec<Pattern> = Vec::new();
    let mut i: usize = 0;
    while i < ps.len()
        invariant
            i <= ps@.len(),
            r@.len() == i,
            forall|j: int| 0 <= j < i ==> #[trigger] same_pattern(ps@[j], r@[j]),
        decreases ps@.len() - i,
    {
        r.push(copy_pattern(&ps[i]));
        i = i + 1;
    }
    proof {
        lemma_same_patterns_from(ps@, r@, 0);
    }
    r
}

/// A copy of a variable binding.
pub fn copy_binding(b: &VariableBinding) -> (r: VariableBinding)
    ensures
        same_binding(*b, r),
    decreases b,
{
    match b {
        VariableBinding::Identifier(t) => VariableBinding::Identifier(t.clone()),
        VariableBinding::Tuple { elements, left_paren } => VariableBinding::Tuple {
            elements: copy_bindings(elements),
            left_paren: left_paren.clone(),
        },
    }
}

fn copy_bindings(bs: &Vec<VariableBinding>) -> (r: Vec<VariableBinding>)
    ensures
        same_bindings_from(bs@, r@, 0),
        r@.len() == bs@.len(),
        forall|i: int| 0 <= i < bs@.len() ==> #[trigger] same_binding(bs@[i], r@[i]),
    decreases bs,
{
    let mut r: Vec<VariableBinding> = Vec::new();
    let mut i: usize = 0;
    while i < bs.len()
        invariant
            i <= bs@.len(),
            r@.len() == i,
            forall|j: int| 0 <= j < i ==> #[trigger] same_binding(bs@[j], r@[j]),
        decreases bs@.len() - i,
    {
        r.push(copy_binding(&bs[i]));
        i = i + 1;
    }
    proof {
        lemma_same_bindings_from(bs@, r@, 0);
    }
    r
}

/// A copy of a statement.
pub fn copy_stmt(s: &Stmt) -> (r: Stmt)
    ensures
        same_stmt(*s, r),
    decreases s,
{
    match s {
        Stmt::Variable { binding, type_annotation, initializer } => Stmt::Variable {
            binding: copy_binding(binding),
            type_annotation: match type_annotation {
                Some(t) => Some(copy_type(t)),
                None => None,
            },
            initializer: match initializer {
                Some(e) => Some(copy_expr(e)),
                None => None,
            },
        },
        Stmt::Enum { identifier, type_parameters, variants } => Stmt::Enum {
            identifier: identifier.clone(),
            type_parameters: copy_tokens(type_parameters),
            variants: copy_variants(variants),
        },
        Stmt::Struct { identifier, type_parameters, fields } => Stmt::Struct {
            identifier: identifier.clone(),
            type_parameters: copy_tokens(type_parameters),
            fields: copy_fields(fields),
        },
        Stmt::If { if_token, condition, then_branch, else_branch } => Stmt::If {
            if_token: if_token.clone(),
            condition: copy_expr(condition),
            then_branch: Box::new(copy_stmt(then_branch)),
            else_branch: match else_branch {
                Some(b) => Some(Box::new(copy_stmt(b))),
                None => None,
            },
        },
        Stmt::While { while_token, condition, body } => Stmt::While {
            while_token: while_token.clone(),
            condition: copy_expr(condition),
            body: Box::new(copy_stmt(body)),
        },
        Stmt::ForIn { binding, iterable, body } => Stmt::ForIn {
            binding: copy_binding(binding),
            iterable: copy_expr(iterable),
            body: Box::new(copy_stmt(body)),
        },
        Stmt::Function(f) => {
            let g: &FunctionStmt = f;
            Stmt::Function(
                Rc::new(
                    FunctionStmt {
                        identifier: g.identifier.clone(),
                        type_parameters: copy_tokens(&g.type_parameters),
                        parameters: copy_fields(&g.parameters),
                        return_type: match &g.return_type {
                            Some(t) => Some(copy_type(t)),
                            None => None,
                        },
                        body: copy_stmts(&g.body),
                    },
                ),
            )
        },
        Stmt::Block(stmts) => Stmt::Block(copy_stmts(stmts)),
        Stmt::Expression(e) => Stmt::Expression(copy_expr(e)),
        Stmt::Break(t) => Stmt::Break(t.clone()),
        Stmt::Continue(t) => Stmt::Continue(t.clone()),
    }
}

/// Copies of a list of statements.
pub fn copy_stmts(ss: &Vec<Stmt>) -> (r: Vec<Stmt>)
    ensures
        same_stmts_from(ss@, r@, 0),
        r@.len() == ss@.len(),
        forall|i: int| 0 <= i < ss@.len() ==> #[trigger] same_stmt(ss@[i], r@[i]),
    decreases ss,
{
    let mut r: Vec<Stmt> = Vec::new();
    let mut i: usize = 0;
    while i < ss.len()
        invariant
            i <= ss@.len(),
            r@.len() == i,
            forall|j: int| 0 <= j < i ==> #[trigger] same_stmt(ss@[j], r@[j]),
        decreases ss@.len() - i,
    {
        r.push(copy_stmt(&ss[i]));
        i = i + 1;
    }
    proof {
        lemma_same_stmts_from(ss@, r@, 0);
    }
    r
}

pub(crate) fn copy_tokens(ts: &Vec<Token>) -> (r: Vec<Token>)
    ensures
        crate::token::tokens_view(r@) == crate::token::tokens_view(ts@),
{
    let mut r: Vec<Token> = Vec::new();
    let mut i: usize = 0;
    while i < ts.len()
        invariant
            i <= ts@.len(),
            crate::token::tokens_view(r@) == crate::token::tokens_view(ts@.take(i as int)),
        decreases ts@.len() - i,
    {
        let t = ts[i].clone();
        let ghost before = r@;
        r.push(t);
        proof {
            let p = ts@.take(i + 1);
            assert(p.drop_last() =~= ts@.take(i as int));
            assert(crate::token::tokens_view(before).len() == i);
            assert forall|j: int| 0 <= j < i + 1 implies #[trigger] crate::token::tokens_view(r@)[j]
                == crate::token::tokens_view(p)[j] by {
                if j < i {
                    assert(crate::token::tokens_view(before)[j] == crate::token::tokens_view(ts@.take(i as int))[j]);
                    assert(r@[j] == before[j]);
                    assert(p[j] == ts@.take(i as int)[j]);
                }
            }
            assert(crate::token::tokens_view(r@) =~= crate::token::tokens_view(p));
        }
        i = i + 1;
    }
    proof {
        assert(ts@.take(i as int) =~= ts@);
    }
    r
}

} // verus!
