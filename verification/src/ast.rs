use vstd::prelude::*;

use crate::intern::StringId;
use crate::location::{Span, Spanned};
use crate::token::Identifier;

verus! {

/// A unary operator in prefix position.
#[derive(Debug, PartialEq, Eq, Structural, Clone, Copy)]
pub enum PrefixOperatorKind {
    Exclamation,
}

#[derive(Debug, PartialEq, Eq, Structural, Clone, Copy)]
pub struct PrefixOperator {
    pub kind: PrefixOperatorKind,
    pub span: Span,
}

impl Spanned for PrefixOperator {
    open spec fn spec_span(&self) -> Span {
        self.span
    }

    fn span(&self) -> (r: Span) {
        self.span
    }
}

/// An operator joining two subexpressions.
#[derive(Debug, PartialEq, Eq, Structural, Clone, Copy)]
pub enum BinaryOperatorKind {
    Plus,
    Minus,
    Star,
    Slash,
    Assign,
}

/// Binding strength of a binary operator: a higher value binds tighter.
/// Assignment binds loosest, additive operators next, multiplicative
/// operators tightest.
pub open spec fn spec_precedence(kind: BinaryOperatorKind) -> int {
    match kind {
        BinaryOperatorKind::Assign => 1,
        BinaryOperatorKind::Plus => 2,
        BinaryOperatorKind::Minus => 2,
        BinaryOperatorKind::Star => 3,
        BinaryOperatorKind::Slash => 3,
    }
}

impl BinaryOperatorKind {
    pub fn precedence(&self) -> (r: usize)
        ensures
            r == spec_precedence(*self),
    {
        match self {
            Self::Assign => 1,
            Self::Plus | Self::Minus => 2,
            Self::Star | Self::Slash => 3,
        }
    }
}

#[derive(Debug, PartialEq, Eq, Structural, Clone, Copy)]
pub struct BinaryOperator {
    pub kind: BinaryOperatorKind,
    pub span: Span,
}

impl BinaryOperator {
    pub fn precedence(&self) -> (r: usize)
        ensures
            r == spec_precedence(self.kind),
    {
        self.kind.precedence()
    }
}

impl Spanned for BinaryOperator {
    open spec fn spec_span(&self) -> Span {
        self.span
    }

    fn span(&self) -> (r: Span) {
        self.span
    }
}

/// An expression of the language. Operator expressions carry no stored span;
/// their span is derived from their operands.
#[derive(Debug, PartialEq)]
pub enum Expression {
    Float { value: StringId, span: Span },
    Integer { value: i64, span: Span },
    String { value: StringId, span: Span },
    Bool { value: bool, span: Span },
    Binary { operator: BinaryOperator, left: Box<Expression>, right: Box<Expression> },
    Prefix { operator: PrefixOperator, operand: Box<Expression> },
    List { expressions: Vec<Expression>, span: Span },
    Identifier(Identifier),
    LoadSample { sample: Box<Expression>, span: Span },
}

/// The source range an expression covers: stored for literals and lists,
/// derived from the operands for operator expressions.
pub open spec fn expr_span(e: Expression) -> Span
    decreases e,
{
    match e {
        Expression::Binary { left, right, .. } => Span {
            start: expr_span(*left).start,
            end: expr_span(*right).end,
        },
        Expression::Prefix { operator, operand } => Span {
            start: operator.span.start,
            end: expr_span(*operand).end,
        },
        Expression::Float { span, .. } => span,
        Expression::Integer { span, .. } => span,
        Expression::String { span, .. } => span,
        Expression::Bool { span, .. } => span,
        Expression::List { span, .. } => span,
        Expression::Identifier(identifier) => identifier.span,
        Expression::LoadSample { span, .. } => span,
    }
}

impl Expression {
    pub fn span(&self) -> (r: Span)
        ensures
            r == expr_span(*self),
        decreases *self,
    {
        match self {
            Self::Binary { left, right, .. } => Span::new(left.span().start(), right.span().end()),
            Self::Prefix { operator, operand } => Span::new(
                operator.span.start,
                operand.span().end(),
            ),
            Self::Float { span, .. } => *span,
            Self::Integer { span, .. } => *span,
            Self::String { span, .. } => *span,
            Self::Bool { span, .. } => *span,
            Self::List { span, .. } => *span,
            Self::Identifier(identifier) => identifier.span,
            Self::LoadSample { span, .. } => *span,
        }
    }
}

/// One `name: value` entry of a `with` statement.
#[derive(Debug, PartialEq)]
pub struct Property {
    pub name: Identifier,
    pub value: Expression,
}

impl Spanned for Property {
    open spec fn spec_span(&self) -> Span {
        Span { start: self.name.span.start, end: expr_span(self.value).end }
    }

    fn span(&self) -> (r: Span) {
        Span::new(self.name.span.start, self.value.span().end())
    }
}

/// A brace-delimited sequence of statements; the span covers the braces.
#[derive(Debug, PartialEq)]
pub struct Block {
    pub statements: Vec<Statement>,
    pub span: Span,
}

/// A statement of the language.
#[derive(Debug, PartialEq)]
pub enum Statement {
    Wait { expression: Expression },
    Play { expression: Expression },
    Sequence { name: Identifier, block: Block },
    With { properties: Vec<Property>, block: Block },
    Let { name: Identifier, value: Expression },
    Expression(Expression),
}

} // verus!
