use vstd::prelude::*;

use crate::ast::{BinaryOperator, Block, Expression, PrefixOperator, Property, Statement,
    expr_span, spec_precedence};
use crate::intern::StringId;
use crate::location::{Span, Spanned};
use crate::token::{spec_binary_operator_kind, spec_prefix_operator_kind, stream_valid, tok_at,
    token_spec_span, Identifier, Keyword, Operator, Punctuator, Token, TokenStream,
    TokenStreamCursor};

verus! {

// ---------------------------------------------------------------------------
// Parse errors.
// ---------------------------------------------------------------------------

/// A structural error; the first one aborts the whole parse.
#[derive(Debug, PartialEq, Eq, Structural, Clone, Copy)]
pub enum ParseError {
    InvalidTokenStream,
    ExpectedExpression { got: Token },
    ExpectedIdentifier { got: Token },
    ExpectedPunctuation { expected: Punctuator, got: Token },
    ExpectedOperator { expected: Operator, got: Token },
}

// ---------------------------------------------------------------------------
// The abstract syntax tree as a mathematical value: the same shape as the
// executable tree, with sequences for vectors.
// ---------------------------------------------------------------------------

pub ghost enum AExpr {
    Float { value: StringId, span: Span },
    Integer { value: i64, span: Span },
    String { value: StringId, span: Span },
    Bool { value: bool, span: Span },
    Binary { operator: BinaryOperator, left: Box<AExpr>, right: Box<AExpr> },
    Prefix { operator: PrefixOperator, operand: Box<AExpr> },
    List { expressions: Seq<AExpr>, span: Span },
    Identifier(Identifier),
    LoadSample { sample: Box<AExpr>, span: Span },
}

pub ghost struct AProp {
    pub name: Identifier,
    pub value: AExpr,
}

pub ghost struct ABlock {
    pub statements: Seq<AStmt>,
    pub span: Span,
}

pub ghost enum AStmt {
    Wait { expression: AExpr },
    Play { expression: AExpr },
    Sequence { name: Identifier, block: ABlock },
    With { properties: Seq<AProp>, block: ABlock },
    Let { name: Identifier, value: AExpr },
    Expression(AExpr),
}

/// The mathematical value of an executable expression.
pub open spec fn expr_view(e: Expression) -> AExpr
    decreases e,
{
    match e {
        Expression::Float { value, span } => AExpr::Float { value, span },
        Expression::Integer { value, span } => AExpr::Integer { value, span },
        Expression::String { value, span } => AExpr::String { value, span },
        Expression::Bool { value, span } => AExpr::Bool { value, span },
        Expression::Binary { operator, left, right } => AExpr::Binary {
            operator,
            left: Box::new(expr_view(*left)),
            right: Box::new(expr_view(*right)),
        },
        Expression::Prefix { operator, operand } => AExpr::Prefix {
            operator,
            operand: Box::new(expr_view(*operand)),
        },
        Expression::List { expressions, span } => AExpr::List {
            expressions: exprs_view(expressions@),
            span,
        },
        Expression::Identifier(identifier) => AExpr::Identifier(identifier),
        Expression::LoadSample { sample, span } => AExpr::LoadSample {
            sample: Box::new(expr_view(*sample)),
            span,
        },
    }
}

pub open spec fn exprs_view(es: Seq<Expression>) -> Seq<AExpr>
    decreases es,
{
    if es.len() == 0 {
        Seq::empty()
    } else {
        exprs_view(es.drop_last()).push(expr_view(es.last()))
    }
}

/// The mathematical value of an executable statement.
pub open spec fn stmt_view(s: Statement) -> AStmt
    decreases s,
{
    match s {
        Statement::Wait { expression } => AStmt::Wait { expression: expr_view(expression) },
        Statement::Play { expression } => AStmt::Play { expression: expr_view(expression) },
        Statement::Sequence { name, block } => AStmt::Sequence { name, block: block_view(block) },
        Statement::With { properties, block } => AStmt::With {
            properties: props_view(properties@),
            block: block_view(block),
        },
        Statement::Let { name, value } => AStmt::Let { name, value: expr_view(value) },
        Statement::Expression(e) => AStmt::Expression(expr_view(e)),
    }
}

pub open spec fn stmts_view(ss: Seq<Statement>) -> Seq<AStmt>
    decreases ss,
{
    if ss.len() == 0 {
        Seq::empty()
    } else {
        stmts_view(ss.drop_last()).push(stmt_view(ss.last()))
    }
}

pub open spec fn block_view(b: Block) -> ABlock
    decreases b,
{
    ABlock { statements: stmts_view(b.statements@), span: b.span }
}

pub open spec fn prop_view(p: Property) -> AProp
    decreases p,
{
    AProp { name: p.name, value: expr_view(p.value) }
}

pub open spec fn props_view(ps: Seq<Property>) -> Seq<AProp>
    decreases ps,
{
    if ps.len() == 0 {
        Seq::empty()
    } else {
        props_view(ps.drop_last()).push(prop_view(ps.last()))
    }
}

/// The span of an abstract expression, mirroring `expr_span`.
pub open spec fn aexpr_span(a: AExpr) -> Span
    decreases a,
{
    match a {
        AExpr::Binary { left, right, .. } => Span {
            start: aexpr_span(*left).start,
            end: aexpr_span(*right).end,
        },
        AExpr::Prefix { operator, operand } => Span {
            start: operator.span.start,
            end: aexpr_span(*operand).end,
        },
        AExpr::Float { span, .. } => span,
        AExpr::Integer { span, .. } => span,
        AExpr::String { span, .. } => span,
        AExpr::Bool { span, .. } => span,
        AExpr::List { span, .. } => span,
        AExpr::Identifier(identifier) => identifier.span,
        AExpr::LoadSample { span, .. } => span,
    }
}

/// The view preserves spans.
pub proof fn lemma_expr_span_view(e: Expression)
    ensures
        aexpr_span(expr_view(e)) == expr_span(e),
    decreases e,
{
    match e {
        Expression::Binary { operator, left, right } => {
            lemma_expr_span_view(*left);
            lemma_expr_span_view(*right);
        },
        Expression::Prefix { operator, operand } => {
            lemma_expr_span_view(*operand);
        },
        _ => {},
    }
}

// ---------------------------------------------------------------------------
// The parser, as spec functions over the token sequence. Each function takes
// the position of the next unconsumed token and yields the parsed node and
// the position after it, or the first structural error.
// ---------------------------------------------------------------------------

/// The outcome of one spec-level parsing step.
pub ghost enum PRes<A> {
    Parsed { val: A, next: int },
    Failed { error: ParseError },
}

/// How the token-stream cursor advances when one token is consumed:
/// saturating at the end of the stream.
pub open spec fn advance(toks: Seq<Token>, pos: int) -> int {
    if pos < toks.len() {
        pos + 1
    } else {
        pos
    }
}

/// A recursion step clamped into `(lo, toks.len()]`; whenever the parser
/// actually recurses, the unclamped position is already in that range and
/// the clamp is the identity.
pub open spec fn step_pos(toks: Seq<Token>, lo: int, np: int) -> int {
    if np <= lo {
        lo + 1
    } else if np > toks.len() {
        toks.len() as int
    } else {
        np
    }
}

/// The position of the next token that is not an end-of-line marker.
pub open spec fn sp_skip_eols(toks: Seq<Token>, pos: int) -> int
    decreases toks.len() - pos,
{
    if 0 <= pos < toks.len() && toks[pos] is EndOfLine {
        sp_skip_eols(toks, pos + 1)
    } else {
        pos
    }
}

pub proof fn lemma_sp_skip_eols_bounds(toks: Seq<Token>, pos: int)
    requires
        0 <= pos <= toks.len(),
    ensures
        pos <= sp_skip_eols(toks, pos) <= toks.len(),
    decreases toks.len() - pos,
{
    if pos < toks.len() && toks[pos] is EndOfLine {
        lemma_sp_skip_eols_bounds(toks, pos + 1);
    }
}

/// A prefix (primary) expression: a literal, an identifier, a parenthesized
/// expression, a list, `load_sample` applied to an expression, or a prefix
/// operator applied to a prefix expression.
pub open spec fn sp_prefix(toks: Seq<Token>, pos: int) -> PRes<AExpr>
    decreases toks.len() - pos, 1int,
{
    let t = tok_at(toks, pos);
    if pos >= toks.len() {
        PRes::Failed { error: ParseError::ExpectedExpression { got: t } }
    } else {
        match t {
            Token::Integer { value, span } => PRes::Parsed {
                val: AExpr::Integer { value, span },
                next: pos + 1,
            },
            Token::Float { value, span } => PRes::Parsed {
                val: AExpr::Float { value, span },
                next: pos + 1,
            },
            Token::Bool { value, span } => PRes::Parsed {
                val: AExpr::Bool { value, span },
                next: pos + 1,
            },
            Token::String { value, span } => PRes::Parsed {
                val: AExpr::String { value, span },
                next: pos + 1,
            },
            Token::Identifier(identifier) => PRes::Parsed {
                val: AExpr::Identifier(identifier),
                next: pos + 1,
            },
            Token::Punctuator { punctuator: Punctuator::LeftParen, .. } => match sp_expr(
                toks,
                pos + 1,
                0,
            ) {
                PRes::Parsed { val, next } => {
                    let got = tok_at(toks, next);
                    if got matches Token::Punctuator { punctuator: Punctuator::RightParen, .. } {
                        PRes::Parsed { val, next: advance(toks, next) }
                    } else {
                        PRes::Failed {
                            error: ParseError::ExpectedPunctuation {
                                expected: Punctuator::RightParen,
                                got,
                            },
                        }
                    }
                },
                PRes::Failed { error } => PRes::Failed { error },
            },
            Token::Punctuator { punctuator: Punctuator::LeftBracket, .. } => sp_list(toks, pos),
            Token::Keyword { keyword: Keyword::LoadSample, span } => match sp_expr(
                toks,
                pos + 1,
                0,
            ) {
                PRes::Parsed { val, next } => PRes::Parsed {
                    val: AExpr::LoadSample {
                        span: Span { start: span.start, end: aexpr_span(val).end },
                        sample: Box::new(val),
                    },
                    next,
                },
                PRes::Failed { error } => PRes::Failed { error },
            },
            Token::Operator { operator, span } => match spec_prefix_operator_kind(operator) {
                Some(kind) => match sp_prefix(toks, pos + 1) {
                    PRes::Parsed { val, next } => PRes::Parsed {
                        val: AExpr::Prefix {
                            operator: PrefixOperator { kind, span },
                            operand: Box::new(val),
                        },
                        next,
                    },
                    PRes::Failed { error } => PRes::Failed { error },
                },
                None => PRes::Failed { error: ParseError::ExpectedExpression { got: t } },
            },
            _ => PRes::Failed { error: ParseError::ExpectedExpression { got: t } },
        }
    }
}

/// A bracketed list: comma-separated expressions, tolerant of end-of-line
/// markers around elements, with an optional trailing comma; `pos` is at the
/// opening bracket.
pub open spec fn sp_list(toks: Seq<Token>, pos: int) -> PRes<AExpr>
    decreases toks.len() - pos, 0int,
{
    let t = tok_at(toks, pos);
    if pos >= toks.len() {
        PRes::Failed { error: ParseError::ExpectedExpression { got: t } }
    } else {
        let lspan = token_spec_span(t);
        let q = step_pos(toks, pos, sp_skip_eols(toks, pos + 1));
        if q < toks.len() && toks[q] matches Token::Punctuator {
            punctuator: Punctuator::RightBracket,
            ..
        } {
            PRes::Parsed {
                val: AExpr::List {
                    expressions: Seq::empty(),
                    span: Span { start: lspan.start, end: token_spec_span(toks[q]).end },
                },
                next: q + 1,
            }
        } else {
            match sp_expr(toks, q, 0) {
                PRes::Failed { error } => PRes::Failed { error },
                PRes::Parsed { val: first, next } => {
                    let r = step_pos(toks, pos, sp_skip_eols(toks, next));
                    match sp_list_rest(toks, r) {
                        PRes::Failed { error } => PRes::Failed { error },
                        PRes::Parsed { val: rest, next: np } => {
                            let got = tok_at(toks, np);
                            if got matches Token::Punctuator {
                                punctuator: Punctuator::RightBracket,
                                ..
                            } {
                                PRes::Parsed {
                                    val: AExpr::List {
                                        expressions: seq![first] + rest,
                                        span: Span {
                                            start: lspan.start,
                                            end: token_spec_span(got).end,
                                        },
                                    },
                                    next: advance(toks, np),
                                }
                            } else {
                                PRes::Failed {
                                    error: ParseError::ExpectedPunctuation {
                                        expected: Punctuator::RightBracket,
                                        got,
                                    },
                                }
                            }
                        },
                    }
                },
            }
        }
    }
}

/// The comma-led continuation of a list: further elements until something
/// other than a comma follows, a trailing comma before `]` allowed.
pub open spec fn sp_list_rest(toks: Seq<Token>, pos: int) -> PRes<Seq<AExpr>>
    decreases toks.len() - pos, 0int,
{
    if pos >= toks.len() {
        PRes::Parsed { val: Seq::empty(), next: pos }
    } else if toks[pos] matches Token::Punctuator { punctuator: Punctuator::Comma, .. } {
        let q = step_pos(toks, pos, sp_skip_eols(toks, pos + 1));
        if q < toks.len() && toks[q] matches Token::Punctuator {
            punctuator: Punctuator::RightBracket,
            ..
        } {
            PRes::Parsed { val: Seq::empty(), next: q }
        } else {
            match sp_expr(toks, q, 0) {
                PRes::Failed { error } => PRes::Failed { error },
                PRes::Parsed { val, next } => {
                    let r = step_pos(toks, pos, sp_skip_eols(toks, next));
                    match sp_list_rest(toks, r) {
                        PRes::Failed { error } => PRes::Failed { error },
                        PRes::Parsed { val: rest, next: np } => PRes::Parsed {
                            val: seq![val] + rest,
                            next: np,
                        },
                    }
                },
            }
        }
    } else {
        PRes::Parsed { val: Seq::empty(), next: pos }
    }
}

/// An expression under precedence climbing: a prefix expression, then any
/// binary operators of at least the given precedence.
pub open spec fn sp_expr(toks: Seq<Token>, pos: int, prec: int) -> PRes<AExpr>
    decreases toks.len() - pos, 2int,
{
    if pos >= toks.len() {
        PRes::Failed { error: ParseError::ExpectedExpression { got: tok_at(toks, pos) } }
    } else {
        match sp_prefix(toks, pos) {
            PRes::Failed { error } => PRes::Failed { error },
            PRes::Parsed { val, next } => sp_binloop(toks, step_pos(toks, pos, next), val, prec),
        }
    }
}

/// The binary-operator loop: while the next token is a binary operator of at
/// least the minimum precedence, take it and a right operand one precedence
/// level up (making the operators left-associative), folding into a binary
/// node. End-of-line markers directly after a binary operator are skipped.
pub open spec fn sp_binloop(toks: Seq<Token>, pos: int, left: AExpr, prec: int) -> PRes<AExpr>
    decreases toks.len() - pos, 3int,
{
    if pos >= toks.len() {
        PRes::Parsed { val: left, next: pos }
    } else {
        match toks[pos] {
            Token::Operator { operator, span } => match spec_binary_operator_kind(operator) {
                None => PRes::Parsed { val: left, next: pos },
                Some(kind) => {
                    if spec_precedence(kind) < prec {
                        PRes::Parsed { val: left, next: pos }
                    } else {
                        let q = step_pos(toks, pos, sp_skip_eols(toks, pos + 1));
                        match sp_expr(toks, q, spec_precedence(kind) + 1) {
                            PRes::Failed { error } => PRes::Failed { error },
                            PRes::Parsed { val: right, next } => sp_binloop(
                                toks,
                                step_pos(toks, pos, next),
                                AExpr::Binary {
                                    operator: BinaryOperator { kind, span },
                                    left: Box::new(left),
                                    right: Box::new(right),
                                },
                                prec,
                            ),
                        }
                    }
                },
            },
            _ => PRes::Parsed { val: left, next: pos },
        }
    }
}

/// One `name ':' value` property of a `with` statement.
pub open spec fn sp_prop(toks: Seq<Token>, pos: int) -> PRes<AProp>
    decreases toks.len() - pos, 0int,
{
    let t = tok_at(toks, pos);
    if pos >= toks.len() {
        PRes::Failed { error: ParseError::ExpectedIdentifier { got: t } }
    } else {
        match t {
            Token::Identifier(name) => {
                let got = tok_at(toks, pos + 1);
                if got matches Token::Punctuator { punctuator: Punctuator::Colon, .. } {
                    match sp_expr(toks, step_pos(toks, pos, pos + 2), 0) {
                        PRes::Failed { error } => PRes::Failed { error },
                        PRes::Parsed { val, next } => PRes::Parsed {
                            val: AProp { name, value: val },
                            next,
                        },
                    }
                } else {
                    PRes::Failed {
                        error: ParseError::ExpectedPunctuation {
                            expected: Punctuator::Colon,
                            got,
                        },
                    }
                }
            },
            _ => PRes::Failed { error: ParseError::ExpectedIdentifier { got: t } },
        }
    }
}

/// The comma-led continuation of a property list; a comma directly followed
/// by `{` ends the list.
pub open spec fn sp_props(toks: Seq<Token>, pos: int) -> PRes<Seq<AProp>>
    decreases toks.len() - pos, 0int,
{
    if pos >= toks.len() {
        PRes::Parsed { val: Seq::empty(), next: pos }
    } else if toks[pos] matches Token::Punctuator { punctuator: Punctuator::Comma, .. } {
        let got = tok_at(toks, pos + 1);
        if got matches Token::Punctuator { punctuator: Punctuator::LeftBrace, .. } {
            PRes::Parsed { val: Seq::empty(), next: pos + 1 }
        } else {
            match sp_prop(toks, pos + 1) {
                PRes::Failed { error } => PRes::Failed { error },
                PRes::Parsed { val, next } => match sp_props(toks, step_pos(toks, pos, next)) {
                    PRes::Failed { error } => PRes::Failed { error },
                    PRes::Parsed { val: rest, next: np } => PRes::Parsed {
                        val: seq![val] + rest,
                        next: np,
                    },
                },
            }
        }
    } else {
        PRes::Parsed { val: Seq::empty(), next: pos }
    }
}

/// A brace-delimited block of statements; `pos` is at the opening brace.
pub open spec fn sp_block(toks: Seq<Token>, pos: int) -> PRes<ABlock>
    decreases toks.len() - pos, 0int,
{
    let t = tok_at(toks, pos);
    if pos >= toks.len() {
        PRes::Failed {
            error: ParseError::ExpectedPunctuation { expected: Punctuator::LeftBrace, got: t },
        }
    } else {
        match t {
            Token::Punctuator { punctuator: Punctuator::LeftBrace, span } => match sp_block_items(
                toks,
                pos + 1,
            ) {
                PRes::Failed { error } => PRes::Failed { error },
                PRes::Parsed { val: stmts, next: np } => PRes::Parsed {
                    val: ABlock {
                        statements: stmts,
                        span: Span {
                            start: span.start,
                            end: token_spec_span(tok_at(toks, np)).end,
                        },
                    },
                    next: advance(toks, np),
                },
            },
            _ => PRes::Failed {
                error: ParseError::ExpectedPunctuation { expected: Punctuator::LeftBrace, got: t },
            },
        }
    }
}

/// The statements of a block, up to (but not including) the closing brace.
pub open spec fn sp_block_items(toks: Seq<Token>, pos: int) -> PRes<Seq<AStmt>>
    decreases toks.len() - pos, 5int,
{
    let q = step_pos(toks, pos - 1, sp_skip_eols(toks, pos));
    if q >= toks.len() {
        PRes::Failed { error: ParseError::ExpectedExpression { got: tok_at(toks, q) } }
    } else if toks[q] matches Token::Punctuator { punctuator: Punctuator::RightBrace, .. } {
        PRes::Parsed { val: Seq::empty(), next: q }
    } else {
        match sp_stmt(toks, q) {
            PRes::Failed { error } => PRes::Failed { error },
            PRes::Parsed { val: st, next } => match sp_block_items(toks, step_pos(toks, q, next)) {
                PRes::Failed { error } => PRes::Failed { error },
                PRes::Parsed { val: rest, next: np } => PRes::Parsed { val: seq![st] + rest, next: np },
            },
        }
    }
}

/// One statement, dispatched on its first token.
pub open spec fn sp_stmt(toks: Seq<Token>, pos: int) -> PRes<AStmt>
    decreases toks.len() - pos, 4int,
{
    let t = tok_at(toks, pos);
    if pos >= toks.len() {
        PRes::Failed { error: ParseError::ExpectedExpression { got: t } }
    } else {
        match t {
            Token::Keyword { keyword: Keyword::Play, .. } => match sp_expr(toks, pos + 1, 0) {
                PRes::Failed { error } => PRes::Failed { error },
                PRes::Parsed { val, next } => PRes::Parsed {
                    val: AStmt::Play { expression: val },
                    next,
                },
            },
            Token::Keyword { keyword: Keyword::Wait, .. } => match sp_expr(toks, pos + 1, 0) {
                PRes::Failed { error } => PRes::Failed { error },
                PRes::Parsed { val, next } => PRes::Parsed {
                    val: AStmt::Wait { expression: val },
                    next,
                },
            },
            Token::Keyword { keyword: Keyword::Sequence, .. } => {
                let got = tok_at(toks, pos + 1);
                match got {
                    Token::Identifier(name) => match sp_block(toks, step_pos(toks, pos, pos + 2)) {
                        PRes::Failed { error } => PRes::Failed { error },
                        PRes::Parsed { val: block, next } => PRes::Parsed {
                            val: AStmt::Sequence { name, block },
                            next,
                        },
                    },
                    _ => PRes::Failed { error: ParseError::ExpectedIdentifier { got } },
                }
            },
            Token::Keyword { keyword: Keyword::With, .. } => match sp_prop(toks, pos + 1) {
                PRes::Failed { error } => PRes::Failed { error },
                PRes::Parsed { val: first, next } => match sp_props(toks, step_pos(toks, pos, next)) {
                    PRes::Failed { error } => PRes::Failed { error },
                    PRes::Parsed { val: rest, next: np } => match sp_block(
                        toks,
                        step_pos(toks, pos, np),
                    ) {
                        PRes::Failed { error } => PRes::Failed { error },
                        PRes::Parsed { val: block, next: bn } => PRes::Parsed {
                            val: AStmt::With { properties: seq![first] + rest, block },
                            next: bn,
                        },
                    },
                },
            },
            Token::Keyword { keyword: Keyword::Let, .. } => {
                let got = tok_at(toks, pos + 1);
                match got {
                    Token::Identifier(name) => {
                        let q = step_pos(toks, pos, sp_skip_eols(toks, pos + 2));
                        let got2 = tok_at(toks, q);
                        if got2 matches Token::Operator { operator: Operator::Assign, .. } {
                            let q2 = step_pos(toks, pos, sp_skip_eols(toks, advance(toks, q)));
                            match sp_expr(toks, q2, 0) {
                                PRes::Failed { error } => PRes::Failed { error },
                                PRes::Parsed { val, next } => PRes::Parsed {
                                    val: AStmt::Let { name, value: val },
                                    next,
                                },
                            }
                        } else {
                            PRes::Failed {
                                error: ParseError::ExpectedOperator {
                                    expected: Operator::Assign,
                                    got: got2,
                                },
                            }
                        }
                    },
                    _ => PRes::Failed { error: ParseError::ExpectedIdentifier { got } },
                }
            },
            _ => match sp_expr(toks, pos, 0) {
                PRes::Failed { error } => PRes::Failed { error },
                PRes::Parsed { val, next } => PRes::Parsed { val: AStmt::Expression(val), next },
            },
        }
    }
}

/// The top level: statements separated by end-of-line markers, until the
/// end-of-file token.
pub open spec fn sp_top(toks: Seq<Token>, pos: int) -> PRes<Seq<AStmt>>
    decreases toks.len() - pos, 5int,
{
    let q = step_pos(toks, pos - 1, sp_skip_eols(toks, pos));
    if q >= toks.len() || tok_at(toks, q) is EndOfFile {
        PRes::Parsed { val: Seq::empty(), next: q }
    } else {
        match sp_stmt(toks, q) {
            PRes::Failed { error } => PRes::Failed { error },
            PRes::Parsed { val: st, next } => match sp_top(toks, step_pos(toks, q, next)) {
                PRes::Failed { error } => PRes::Failed { error },
                PRes::Parsed { val: rest, next: np } => PRes::Parsed { val: seq![st] + rest, next: np },
            },
        }
    }
}

/// What parsing a whole token stream yields: its statements, or the first
/// structural error; a stream that does not end in an end-of-file token is
/// rejected outright.
pub open spec fn sp_parse(toks: Seq<Token>) -> PRes<Seq<AStmt>> {
    if !stream_valid(toks) {
        PRes::Failed { error: ParseError::InvalidTokenStream }
    } else {
        sp_top(toks, 0)
    }
}

// ---------------------------------------------------------------------------
// The executable parser, proved equal to the spec functions above.
// ---------------------------------------------------------------------------

/// A cursor the parser can run on: a well-formed stream, position within
/// bounds.
pub open spec fn cursor_ok(c: TokenStreamCursor) -> bool {
    stream_valid(c.toks()) && 0 <= c.pos() <= c.toks().len()
}

/// Moves the cursor to the next token that is not an end-of-line marker.
fn skip_end_of_lines(cursor: &mut TokenStreamCursor)
    requires
        cursor_ok(*old(cursor)),
    ensures
        cursor_ok(*final(cursor)),
        final(cursor).toks() == old(cursor).toks(),
        final(cursor).pos() == sp_skip_eols(old(cursor).toks(), old(cursor).pos()),
{
    let ghost toks = cursor.toks();
    let ghost p0 = cursor.pos();
    loop
        invariant_except_break
            cursor_ok(*cursor),
            cursor.toks() == toks,
            sp_skip_eols(toks, p0) == sp_skip_eols(toks, cursor.pos()),
        ensures
            cursor_ok(*cursor),
            cursor.toks() == toks,
            cursor.pos() == sp_skip_eols(toks, p0),
        decreases toks.len() - cursor.pos(),
    {
        let ghost p = cursor.pos();
        let t = cursor.peek();
        if t.is_end_of_line() {
            proof {
                assert(0 <= p < toks.len());
                assert(sp_skip_eols(toks, p) == sp_skip_eols(toks, p + 1));
            }
            let _ = cursor.next();
        } else {
            proof {
                assert(sp_skip_eols(toks, p) == p);
            }
            break ;
        }
    }
}

/// Checks that the next token is an identifier and consumes it.
fn parse_identifier(cursor: &mut TokenStreamCursor) -> (r: Result<Identifier, ParseError>)
    requires
        cursor_ok(*old(cursor)),
    ensures
        cursor_ok(*final(cursor)),
        final(cursor).toks() == old(cursor).toks(),
        final(cursor).pos() == advance(old(cursor).toks(), old(cursor).pos()),
        ({
            let got = tok_at(old(cursor).toks(), old(cursor).pos());
            match r {
                Ok(id) => got == Token::Identifier(id),
                Err(e) => !(got is Identifier) && e == (ParseError::ExpectedIdentifier { got }),
            }
        }),
{
    let got = cursor.next();
    match got {
        Token::Identifier(identifier) => Ok(identifier),
        _ => Err(ParseError::ExpectedIdentifier { got }),
    }
}

/// Checks that the next token is the given punctuator and consumes it.
fn parse_punctuator(cursor: &mut TokenStreamCursor, punctuator: Punctuator) -> (r: Result<
    Token,
    ParseError,
>)
    requires
        cursor_ok(*old(cursor)),
    ensures
        cursor_ok(*final(cursor)),
        final(cursor).toks() == old(cursor).toks(),
        final(cursor).pos() == advance(old(cursor).toks(), old(cursor).pos()),
        ({
            let got = tok_at(old(cursor).toks(), old(cursor).pos());
            let hit = got matches Token::Punctuator { punctuator: p, .. } && p == punctuator;
            match r {
                Ok(t) => t == got && hit,
                Err(e) => !hit && e == (ParseError::ExpectedPunctuation {
                    expected: punctuator,
                    got,
                }),
            }
        }),
{
    let got = cursor.next();
    if !got.is_punctuator(punctuator) {
        return Err(ParseError::ExpectedPunctuation { expected: punctuator, got });
    }
    Ok(got)
}

/// Checks that the next token is the given operator and consumes it.
fn parse_operator(cursor: &mut TokenStreamCursor, operator: Operator) -> (r: Result<
    Token,
    ParseError,
>)
    requires
        cursor_ok(*old(cursor)),
    ensures
        cursor_ok(*final(cursor)),
        final(cursor).toks() == old(cursor).toks(),
        final(cursor).pos() == advance(old(cursor).toks(), old(cursor).pos()),
        ({
            let got = tok_at(old(cursor).toks(), old(cursor).pos());
            let hit = got matches Token::Operator { operator: o, .. } && o == operator;
            match r {
                Ok(t) => t == got && hit,
                Err(e) => !hit && e == (ParseError::ExpectedOperator { expected: operator, got }),
            }
        }),
{
    let got = cursor.next();
    if !got.is_operator(operator) {
        return Err(ParseError::ExpectedOperator { expected: operator, got });
    }
    Ok(got)
}

proof fn lemma_exprs_view_push(es: Seq<Expression>, e: Expression)
    ensures
        exprs_view(es.push(e)) == exprs_view(es).push(expr_view(e)),
{
    assert(es.push(e).drop_last() =~= es);
}

/// Parses a left hand side of a potential binary expression: a literal, an
/// identifier, a parenthesized expression, a list, `load_sample`, or a
/// prefix operator and its operand.
fn parse_prefix_expression(cursor: &mut TokenStreamCursor) -> (r: Result<Expression, ParseError>)
    requires
        cursor_ok(*old(cursor)),
    ensures
        cursor_ok(*final(cursor)),
        final(cursor).toks() == old(cursor).toks(),
        ({
            let toks = old(cursor).toks();
            let p0 = old(cursor).pos();
            match r {
                Ok(e) => sp_prefix(toks, p0) == (PRes::Parsed::<AExpr> {
                    val: expr_view(e),
                    next: final(cursor).pos(),
                }) && p0 < final(cursor).pos() <= toks.len(),
                Err(err) => sp_prefix(toks, p0) == (PRes::Failed::<AExpr> { error: err }),
            }
        }),
    decreases old(cursor).toks().len() - old(cursor).pos(), 1int,
{
    let ghost toks = cursor.toks();
    let ghost p0 = cursor.pos();
    let t = cursor.peek();
    match t {
        Token::Integer { value, span } => {
            let _ = cursor.next();
            Ok(Expression::Integer { value, span })
        },
        Token::Float { value, span } => {
            let _ = cursor.next();
            Ok(Expression::Float { value, span })
        },
        Token::Bool { value, span } => {
            let _ = cursor.next();
            Ok(Expression::Bool { value, span })
        },
        Token::String { value, span } => {
            let _ = cursor.next();
            Ok(Expression::String { value, span })
        },
        Token::Identifier(identifier) => {
            let _ = cursor.next();
            Ok(Expression::Identifier(identifier))
        },
        Token::Punctuator { punctuator: Punctuator::LeftParen, .. } => {
            let _ = cursor.next();
            match parse_expression_with_precedence(cursor, 0) {
                Err(error) => Err(error),
                Ok(expression) => {
                    match parse_punctuator(cursor, Punctuator::RightParen) {
                        Err(error) => Err(error),
                        Ok(_) => Ok(expression),
                    }
                },
            }
        },
        Token::Punctuator { punctuator: Punctuator::LeftBracket, .. } => {
            let _ = cursor.next();
            parse_list_tail(cursor, t)
        },
        Token::Keyword { keyword: Keyword::LoadSample, .. } => {
            let _ = cursor.next();
            match parse_expression_with_precedence(cursor, 0) {
                Err(error) => Err(error),
                Ok(sample) => {
                    proof {
                        lemma_expr_span_view(sample);
                    }
                    let sample_end = sample.span().end();
                    Ok(Expression::LoadSample {
                        span: Span::new(t.span().start(), sample_end),
                        sample: Box::new(sample),
                    })
                },
            }
        },
        Token::Operator { operator, span } => {
            let _ = cursor.next();
            match operator.into_prefix_operator_kind() {
                Some(kind) => {
                    match parse_prefix_expression(cursor) {
                        Err(error) => Err(error),
                        Ok(operand) => Ok(Expression::Prefix {
                            operator: PrefixOperator { kind, span },
                            operand: Box::new(operand),
                        }),
                    }
                },
                None => Err(ParseError::ExpectedExpression { got: t }),
            }
        },
        _ => {
            let _ = cursor.next();
            Err(ParseError::ExpectedExpression { got: t })
        },
    }
}

/// Parses the remainder of a list expression whose opening bracket `lbracket`
/// was just consumed.
fn parse_list_tail(cursor: &mut TokenStreamCursor, lbracket: Token) -> (r: Result<
    Expression,
    ParseError,
>)
    requires
        cursor_ok(*old(cursor)),
        old(cursor).pos() >= 1,
        old(cursor).pos() - 1 < old(cursor).toks().len(),
        tok_at(old(cursor).toks(), old(cursor).pos() - 1) == lbracket,
        lbracket matches Token::Punctuator { punctuator: Punctuator::LeftBracket, .. },
    ensures
        cursor_ok(*final(cursor)),
        final(cursor).toks() == old(cursor).toks(),
        ({
            let toks = old(cursor).toks();
            let p0 = old(cursor).pos() - 1;
            match r {
                Ok(e) => sp_list(toks, p0) == (PRes::Parsed::<AExpr> {
                    val: expr_view(e),
                    next: final(cursor).pos(),
                }) && p0 < final(cursor).pos() <= toks.len(),
                Err(err) => sp_list(toks, p0) == (PRes::Failed::<AExpr> { error: err }),
            }
        }),
    decreases old(cursor).toks().len() - old(cursor).pos(), 3int,
{
    let ghost toks = cursor.toks();
    let ghost p0 = cursor.pos() - 1;
    proof {
        lemma_sp_skip_eols_bounds(toks, p0 + 1);
    }
    skip_end_of_lines(cursor);
    let t = cursor.peek();
    if t.is_punctuator(Punctuator::RightBracket) {
        let _ = cursor.next();
        let list = Expression::List {
            expressions: Vec::new(),
            span: Span::new(lbracket.span().start(), t.span().end()),
        };
        proof {
            assert(exprs_view(Seq::<Expression>::empty()) =~= Seq::<AExpr>::empty());
        }
        Ok(list)
    } else {
        match parse_expression_with_precedence(cursor, 0) {
            Err(error) => Err(error),
            Ok(first) => {
                proof {
                    lemma_sp_skip_eols_bounds(toks, cursor.pos());
                }
                skip_end_of_lines(cursor);
                let mut expressions: Vec<Expression> = Vec::new();
                expressions.push(first);
                match parse_list_rest(cursor, &mut expressions) {
                    Err(error) => Err(error),
                    Ok(_) => {
                        match parse_punctuator(cursor, Punctuator::RightBracket) {
                            Err(error) => Err(error),
                            Ok(rbracket) => {
                                proof {
                                    lemma_exprs_view_push(Seq::<Expression>::empty(), first);
                                    assert(exprs_view(Seq::<Expression>::empty()) =~= Seq::<
                                        AExpr,
                                    >::empty());
                                    assert(Seq::<AExpr>::empty().push(expr_view(first)) =~= seq![
                                        expr_view(first),
                                    ]);
                                }
                                Ok(Expression::List {
                                    expressions,
                                    span: Span::new(lbracket.span().start(), rbracket.span().end()),
                                })
                            },
                        }
                    },
                }
            },
        }
    }
}

/// Parses further comma-led list elements into `expressions`, stopping before
/// a closing bracket or any token that is not a comma.
fn parse_list_rest(cursor: &mut TokenStreamCursor, expressions: &mut Vec<Expression>) -> (r:
    Result<(), ParseError>)
    requires
        cursor_ok(*old(cursor)),
    ensures
        cursor_ok(*final(cursor)),
        final(cursor).toks() == old(cursor).toks(),
        ({
            let toks = old(cursor).toks();
            let p0 = old(cursor).pos();
            match r {
                Ok(_) => sp_list_rest(toks, p0) matches PRes::Parsed { val, next } && exprs_view(
                    final(expressions)@,
                ) == exprs_view(old(expressions)@) + val && final(cursor).pos() == next && p0
                    <= next <= toks.len(),
                Err(err) => sp_list_rest(toks, p0) == (PRes::Failed::<Seq<AExpr>> { error: err }),
            }
        }),
    decreases old(cursor).toks().len() - old(cursor).pos(), 0int,
{
    let ghost toks = cursor.toks();
    let ghost p0 = cursor.pos();
    let t = cursor.peek();
    if t.is_punctuator(Punctuator::Comma) {
        let _ = cursor.next();
        proof {
            lemma_sp_skip_eols_bounds(toks, p0 + 1);
        }
        skip_end_of_lines(cursor);
        let t2 = cursor.peek();
        if t2.is_punctuator(Punctuator::RightBracket) {
            proof {
                assert(exprs_view(expressions@) + Seq::<AExpr>::empty() =~= exprs_view(
                    expressions@,
                ));
            }
            Ok(())
        } else {
            match parse_expression_with_precedence(cursor, 0) {
                Err(error) => Err(error),
                Ok(e) => {
                    let ghost mid = expressions@;
                    expressions.push(e);
                    proof {
                        lemma_exprs_view_push(mid, e);
                        lemma_sp_skip_eols_bounds(toks, cursor.pos());
                    }
                    skip_end_of_lines(cursor);
                    let ghost before_rest = expressions@;
                    match parse_list_rest(cursor, expressions) {
                        Err(error) => Err(error),
                        Ok(_) => {
                            proof {
                                let q = step_pos(toks, p0, sp_skip_eols(toks, p0 + 1));
                                let rest = sp_list_rest(
                                    toks,
                                    step_pos(
                                        toks,
                                        p0,
                                        sp_skip_eols(toks, sp_expr(toks, q, 0)->Parsed_next),
                                    ),
                                )->Parsed_val;
                                assert(exprs_view(mid) + (seq![expr_view(e)] + rest) =~= (
                                exprs_view(mid).push(expr_view(e))) + rest);
                            }
                            Ok(())
                        },
                    }
                },
            }
        }
    } else {
        proof {
            assert(exprs_view(expressions@) + Seq::<AExpr>::empty() =~= exprs_view(expressions@));
        }
        Ok(())
    }
}

/// Parses an expression: a prefix expression extended by binary operators of
/// at least the given precedence.
fn parse_expression_with_precedence(cursor: &mut TokenStreamCursor, precedence: usize) -> (r:
    Result<Expression, ParseError>)
    requires
        cursor_ok(*old(cursor)),
    ensures
        cursor_ok(*final(cursor)),
        final(cursor).toks() == old(cursor).toks(),
        ({
            let toks = old(cursor).toks();
            let p0 = old(cursor).pos();
            match r {
                Ok(e) => sp_expr(toks, p0, precedence as int) == (PRes::Parsed::<AExpr> {
                    val: expr_view(e),
                    next: final(cursor).pos(),
                }) && p0 < final(cursor).pos() <= toks.len(),
                Err(err) => sp_expr(toks, p0, precedence as int) == (PRes::Failed::<AExpr> {
                    error: err,
                }),
            }
        }),
    decreases old(cursor).toks().len() - old(cursor).pos(), 2int,
{
    let ghost toks = cursor.toks();
    let ghost p0 = cursor.pos();
    match parse_prefix_expression(cursor) {
        Err(error) => Err(error),
        Ok(left) => parse_binary_loop(cursor, left, precedence),
    }
}

/// Folds binary operators of at least the given precedence onto `left`,
/// right operands parsed one precedence level up so that equal operators
/// associate to the left.
fn parse_binary_loop(cursor: &mut TokenStreamCursor, left: Expression, precedence: usize) -> (r:
    Result<Expression, ParseError>)
    requires
        cursor_ok(*old(cursor)),
    ensures
        cursor_ok(*final(cursor)),
        final(cursor).toks() == old(cursor).toks(),
        ({
            let toks = old(cursor).toks();
            let p0 = old(cursor).pos();
            match r {
                Ok(e) => sp_binloop(toks, p0, expr_view(left), precedence as int) == (
                PRes::Parsed::<AExpr> { val: expr_view(e), next: final(cursor).pos() }) && p0
                    <= final(cursor).pos() <= toks.len(),
                Err(err) => sp_binloop(toks, p0, expr_view(left), precedence as int) == (
                PRes::Failed::<AExpr> { error: err }),
            }
        }),
    decreases old(cursor).toks().len() - old(cursor).pos(), 3int,
{
    let ghost toks = cursor.toks();
    let ghost p0 = cursor.pos();
    let t = cursor.peek();
    match t {
        Token::Operator { operator, span } => {
            match operator.into_binary_operator_kind() {
                None => Ok(left),
                Some(kind) => {
                    let kind_precedence = kind.precedence();
                    if kind_precedence < precedence {
                        Ok(left)
                    } else {
                        let _ = cursor.next();
                        proof {
                            lemma_sp_skip_eols_bounds(toks, p0 + 1);
                        }
                        skip_end_of_lines(cursor);
                        match parse_expression_with_precedence(cursor, kind_precedence + 1) {
                            Err(error) => Err(error),
                            Ok(right) => parse_binary_loop(
                                cursor,
                                Expression::Binary {
                                    operator: BinaryOperator { kind, span },
                                    left: Box::new(left),
                                    right: Box::new(right),
                                },
                                precedence,
                            ),
                        }
                    }
                },
            }
        },
        _ => Ok(left),
    }
}

/// Parses one expression, with no minimum operator precedence.
fn parse_expression(cursor: &mut TokenStreamCursor) -> (r: Result<Expression, ParseError>)
    requires
        cursor_ok(*old(cursor)),
    ensures
        cursor_ok(*final(cursor)),
        final(cursor).toks() == old(cursor).toks(),
        ({
            let toks = old(cursor).toks();
            let p0 = old(cursor).pos();
            match r {
                Ok(e) => sp_expr(toks, p0, 0) == (PRes::Parsed::<AExpr> {
                    val: expr_view(e),
                    next: final(cursor).pos(),
                }) && p0 < final(cursor).pos() <= toks.len(),
                Err(err) => sp_expr(toks, p0, 0) == (PRes::Failed::<AExpr> { error: err }),
            }
        }),
    decreases old(cursor).toks().len() - old(cursor).pos(), 3int,
{
    parse_expression_with_precedence(cursor, 0)
}

proof fn lemma_props_view_push(ps: Seq<Property>, p: Property)
    ensures
        props_view(ps.push(p)) == props_view(ps).push(prop_view(p)),
{
    assert(ps.push(p).drop_last() =~= ps);
}

proof fn lemma_stmts_view_push(ss: Seq<Statement>, s: Statement)
    ensures
        stmts_view(ss.push(s)) == stmts_view(ss).push(stmt_view(s)),
{
    assert(ss.push(s).drop_last() =~= ss);
}

/// Parses one `name ':' value` property.
fn parse_property(cursor: &mut TokenStreamCursor) -> (r: Result<Property, ParseError>)
    requires
        cursor_ok(*old(cursor)),
    ensures
        cursor_ok(*final(cursor)),
        final(cursor).toks() == old(cursor).toks(),
        ({
            let toks = old(cursor).toks();
            let p0 = old(cursor).pos();
            match r {
                Ok(p) => sp_prop(toks, p0) == (PRes::Parsed::<AProp> {
                    val: prop_view(p),
                    next: final(cursor).pos(),
                }) && p0 < final(cursor).pos() <= toks.len(),
                Err(err) => sp_prop(toks, p0) == (PRes::Failed::<AProp> { error: err }),
            }
        }),
    decreases old(cursor).toks().len() - old(cursor).pos(), 0int,
{
    let ghost toks = cursor.toks();
    let ghost p0 = cursor.pos();
    match parse_identifier(cursor) {
        Err(error) => Err(error),
        Ok(name) => {
            match parse_punctuator(cursor, Punctuator::Colon) {
                Err(error) => Err(error),
                Ok(_) => {
                    match parse_expression(cursor) {
                        Err(error) => Err(error),
                        Ok(value) => Ok(Property { name, value }),
                    }
                },
            }
        },
    }
}

/// Parses further comma-led properties into `properties`; a comma directly
/// followed by an opening brace ends the list.
fn parse_with_properties(cursor: &mut TokenStreamCursor, properties: &mut Vec<Property>) -> (r:
    Result<(), ParseError>)
    requires
        cursor_ok(*old(cursor)),
    ensures
        cursor_ok(*final(cursor)),
        final(cursor).toks() == old(cursor).toks(),
        ({
            let toks = old(cursor).toks();
            let p0 = old(cursor).pos();
            match r {
                Ok(_) => sp_props(toks, p0) matches PRes::Parsed { val, next } && props_view(
                    final(properties)@,
                ) == props_view(old(properties)@) + val && final(cursor).pos() == next && p0
                    <= next <= toks.len(),
                Err(err) => sp_props(toks, p0) == (PRes::Failed::<Seq<AProp>> { error: err }),
            }
        }),
    decreases old(cursor).toks().len() - old(cursor).pos(), 0int,
{
    let ghost toks = cursor.toks();
    let ghost p0 = cursor.pos();
    let t = cursor.peek();
    if t.is_punctuator(Punctuator::Comma) {
        let _ = cursor.next();
        let t2 = cursor.peek();
        if t2.is_punctuator(Punctuator::LeftBrace) {
            proof {
                assert(props_view(properties@) + Seq::<AProp>::empty() =~= props_view(
                    properties@,
                ));
            }
            Ok(())
        } else {
            match parse_property(cursor) {
                Err(error) => Err(error),
                Ok(p) => {
                    let ghost mid = properties@;
                    properties.push(p);
                    proof {
                        lemma_props_view_push(mid, p);
                    }
                    match parse_with_properties(cursor, properties) {
                        Err(error) => Err(error),
                        Ok(_) => {
                            proof {
                                let rest = sp_props(
                                    toks,
                                    step_pos(toks, p0, sp_prop(toks, p0 + 1)->Parsed_next),
                                )->Parsed_val;
                                assert(props_view(mid) + (seq![prop_view(p)] + rest) =~= (
                                props_view(mid).push(prop_view(p))) + rest);
                            }
                            Ok(())
                        },
                    }
                },
            }
        }
    } else {
        proof {
            assert(props_view(properties@) + Seq::<AProp>::empty() =~= props_view(properties@));
        }
        Ok(())
    }
}

/// Parses a brace-delimited block of statements.
fn parse_block(cursor: &mut TokenStreamCursor) -> (r: Result<Block, ParseError>)
    requires
        cursor_ok(*old(cursor)),
    ensures
        cursor_ok(*final(cursor)),
        final(cursor).toks() == old(cursor).toks(),
        ({
            let toks = old(cursor).toks();
            let p0 = old(cursor).pos();
            match r {
                Ok(b) => sp_block(toks, p0) == (PRes::Parsed::<ABlock> {
                    val: block_view(b),
                    next: final(cursor).pos(),
                }) && p0 < final(cursor).pos() <= toks.len(),
                Err(err) => sp_block(toks, p0) == (PRes::Failed::<ABlock> { error: err }),
            }
        }),
    decreases old(cursor).toks().len() - old(cursor).pos(), 0int,
{
    let ghost toks = cursor.toks();
    let ghost p0 = cursor.pos();
    match parse_punctuator(cursor, Punctuator::LeftBrace) {
        Err(error) => Err(error),
        Ok(lbrace) => {
            let start = lbrace.span().start();
            let mut statements: Vec<Statement> = Vec::new();
            match parse_block_items(cursor, &mut statements) {
                Err(error) => Err(error),
                Ok(_) => {
                    let rbrace = cursor.next();
                    proof {
                        assert(stmts_view(Seq::<Statement>::empty()) + sp_block_items(
                            toks,
                            p0 + 1,
                        )->Parsed_val =~= sp_block_items(toks, p0 + 1)->Parsed_val);
                    }
                    Ok(Block { statements, span: Span::new(start, rbrace.span().end()) })
                },
            }
        },
    }
}

/// Parses statements, skipping end-of-line markers, until the closing brace
/// of the enclosing block is seen; the brace itself is left unconsumed.
fn parse_block_items(cursor: &mut TokenStreamCursor, statements: &mut Vec<Statement>) -> (r:
    Result<(), ParseError>)
    requires
        cursor_ok(*old(cursor)),
    ensures
        cursor_ok(*final(cursor)),
        final(cursor).toks() == old(cursor).toks(),
        ({
            let toks = old(cursor).toks();
            let p0 = old(cursor).pos();
            match r {
                Ok(_) => sp_block_items(toks, p0) matches PRes::Parsed { val, next } && stmts_view(
                    final(statements)@,
                ) == stmts_view(old(statements)@) + val && final(cursor).pos() == next && p0
                    <= next <= toks.len(),
                Err(err) => sp_block_items(toks, p0) == (PRes::Failed::<Seq<AStmt>> {
                    error: err,
                }),
            }
        }),
    decreases old(cursor).toks().len() - old(cursor).pos(), 5int,
{
    let ghost toks = cursor.toks();
    let ghost p0 = cursor.pos();
    proof {
        lemma_sp_skip_eols_bounds(toks, p0);
    }
    skip_end_of_lines(cursor);
    let ghost q = cursor.pos();
    let t = cursor.peek();
    if t.is_punctuator(Punctuator::RightBrace) {
        proof {
            assert(stmts_view(statements@) + Seq::<AStmt>::empty() =~= stmts_view(statements@));
        }
        Ok(())
    } else {
        match parse_statement(cursor) {
            Err(error) => Err(error),
            Ok(st) => {
                let ghost mid = statements@;
                statements.push(st);
                proof {
                    lemma_stmts_view_push(mid, st);
                }
                match parse_block_items(cursor, statements) {
                    Err(error) => Err(error),
                    Ok(_) => {
                        proof {
                            let rest = sp_block_items(
                                toks,
                                step_pos(toks, q, sp_stmt(toks, q)->Parsed_next),
                            )->Parsed_val;
                            assert(stmts_view(mid) + (seq![stmt_view(st)] + rest) =~= (stmts_view(
                                mid,
                            ).push(stmt_view(st))) + rest);
                        }
                        Ok(())
                    },
                }
            },
        }
    }
}

/// Parses a `sequence` statement: the keyword, a name, and a block.
fn parse_sequence_statement(cursor: &mut TokenStreamCursor) -> (r: Result<Statement, ParseError>)
    requires
        cursor_ok(*old(cursor)),
        tok_at(old(cursor).toks(), old(cursor).pos()) matches Token::Keyword {
            keyword: Keyword::Sequence,
            ..
        },
    ensures
        cursor_ok(*final(cursor)),
        final(cursor).toks() == old(cursor).toks(),
        ({
            let toks = old(cursor).toks();
            let p0 = old(cursor).pos();
            match r {
                Ok(st) => sp_stmt(toks, p0) == (PRes::Parsed::<AStmt> {
                    val: stmt_view(st),
                    next: final(cursor).pos(),
                }) && p0 < final(cursor).pos() <= toks.len(),
                Err(err) => sp_stmt(toks, p0) == (PRes::Failed::<AStmt> { error: err }),
            }
        }),
    decreases old(cursor).toks().len() - old(cursor).pos(), 3int,
{
    let _ = cursor.next();  // 'sequence' keyword
    match parse_identifier(cursor) {
        Err(error) => Err(error),
        Ok(name) => {
            match parse_block(cursor) {
                Err(error) => Err(error),
                Ok(block) => Ok(Statement::Sequence { name, block }),
            }
        },
    }
}

/// Parses a `let` statement: the keyword, a name, `=`, and a value
/// expression; end-of-line markers may stand around the `=`.
fn parse_let_statement(cursor: &mut TokenStreamCursor) -> (r: Result<Statement, ParseError>)
    requires
        cursor_ok(*old(cursor)),
        tok_at(old(cursor).toks(), old(cursor).pos()) matches Token::Keyword {
            keyword: Keyword::Let,
            ..
        },
    ensures
        cursor_ok(*final(cursor)),
        final(cursor).toks() == old(cursor).toks(),
        ({
            let toks = old(cursor).toks();
            let p0 = old(cursor).pos();
            match r {
                Ok(st) => sp_stmt(toks, p0) == (PRes::Parsed::<AStmt> {
                    val: stmt_view(st),
                    next: final(cursor).pos(),
                }) && p0 < final(cursor).pos() <= toks.len(),
                Err(err) => sp_stmt(toks, p0) == (PRes::Failed::<AStmt> { error: err }),
            }
        }),
    decreases old(cursor).toks().len() - old(cursor).pos(), 3int,
{
    let ghost toks = cursor.toks();
    let ghost p0 = cursor.pos();
    let _ = cursor.next();  // 'let'
    match parse_identifier(cursor) {
        Err(error) => Err(error),
        Ok(name) => {
            proof {
                lemma_sp_skip_eols_bounds(toks, cursor.pos());
            }
            skip_end_of_lines(cursor);
            match parse_operator(cursor, Operator::Assign) {
                Err(error) => Err(error),
                Ok(_) => {
                    proof {
                        lemma_sp_skip_eols_bounds(toks, cursor.pos());
                    }
                    skip_end_of_lines(cursor);
                    match parse_expression(cursor) {
                        Err(error) => Err(error),
                        Ok(value) => Ok(Statement::Let { name, value }),
                    }
                },
            }
        },
    }
}

/// Parses a `with` statement: the keyword, one or more comma-separated
/// properties (a trailing comma before the block allowed), and a block.
fn parse_with_statement(cursor: &mut TokenStreamCursor) -> (r: Result<Statement, ParseError>)
    requires
        cursor_ok(*old(cursor)),
        tok_at(old(cursor).toks(), old(cursor).pos()) matches Token::Keyword {
            keyword: Keyword::With,
            ..
        },
    ensures
        cursor_ok(*final(cursor)),
        final(cursor).toks() == old(cursor).toks(),
        ({
            let toks = old(cursor).toks();
            let p0 = old(cursor).pos();
            match r {
                Ok(st) => sp_stmt(toks, p0) == (PRes::Parsed::<AStmt> {
                    val: stmt_view(st),
                    next: final(cursor).pos(),
                }) && p0 < final(cursor).pos() <= toks.len(),
                Err(err) => sp_stmt(toks, p0) == (PRes::Failed::<AStmt> { error: err }),
            }
        }),
    decreases old(cursor).toks().len() - old(cursor).pos(), 3int,
{
    let ghost toks = cursor.toks();
    let ghost p0 = cursor.pos();
    let _ = cursor.next();  // 'with' keyword
    match parse_property(cursor) {
        Err(error) => Err(error),
        Ok(first) => {
            let mut properties: Vec<Property> = Vec::new();
            properties.push(first);
            match parse_with_properties(cursor, &mut properties) {
                Err(error) => Err(error),
                Ok(_) => {
                    match parse_block(cursor) {
                        Err(error) => Err(error),
                        Ok(block) => {
                            proof {
                                lemma_props_view_push(Seq::<Property>::empty(), first);
                                let rest = sp_props(
                                    toks,
                                    step_pos(toks, p0, sp_prop(toks, p0 + 1)->Parsed_next),
                                )->Parsed_val;
                                assert(props_view(Seq::<Property>::empty()) =~= Seq::<
                                    AProp,
                                >::empty());
                                assert(Seq::<AProp>::empty().push(prop_view(first)) + rest =~= seq![
                                    prop_view(first),
                                ] + rest);
                            }
                            Ok(Statement::With { properties, block })
                        },
                    }
                },
            }
        },
    }
}

/// Parses one statement, dispatched on its first token; anything that does
/// not begin with a statement keyword is an expression statement.
fn parse_statement(cursor: &mut TokenStreamCursor) -> (r: Result<Statement, ParseError>)
    requires
        cursor_ok(*old(cursor)),
    ensures
        cursor_ok(*final(cursor)),
        final(cursor).toks() == old(cursor).toks(),
        ({
            let toks = old(cursor).toks();
            let p0 = old(cursor).pos();
            match r {
                Ok(st) => sp_stmt(toks, p0) == (PRes::Parsed::<AStmt> {
                    val: stmt_view(st),
                    next: final(cursor).pos(),
                }) && p0 < final(cursor).pos() <= toks.len(),
                Err(err) => sp_stmt(toks, p0) == (PRes::Failed::<AStmt> { error: err }),
            }
        }),
    decreases old(cursor).toks().len() - old(cursor).pos(), 4int,
{
    let ghost toks = cursor.toks();
    let ghost p0 = cursor.pos();
    let t = cursor.peek();
    if t.is_keyword(Keyword::Play) {
        let _ = cursor.next();
        match parse_expression(cursor) {
            Err(error) => Err(error),
            Ok(expression) => Ok(Statement::Play { expression }),
        }
    } else if t.is_keyword(Keyword::Wait) {
        let _ = cursor.next();
        match parse_expression(cursor) {
            Err(error) => Err(error),
            Ok(expression) => Ok(Statement::Wait { expression }),
        }
    } else if t.is_keyword(Keyword::Sequence) {
        parse_sequence_statement(cursor)
    } else if t.is_keyword(Keyword::With) {
        parse_with_statement(cursor)
    } else if t.is_keyword(Keyword::Let) {
        parse_let_statement(cursor)
    } else {
        match parse_expression(cursor) {
            Err(error) => Err(error),
            Ok(e) => Ok(Statement::Expression(e)),
        }
    }
}

/// Parses top-level statements, skipping end-of-line markers, until the
/// end-of-file token is seen.
fn parse_statements(cursor: &mut TokenStreamCursor, statements: &mut Vec<Statement>) -> (r: Result<
    (),
    ParseError,
>)
    requires
        cursor_ok(*old(cursor)),
    ensures
        cursor_ok(*final(cursor)),
        final(cursor).toks() == old(cursor).toks(),
        ({
            let toks = old(cursor).toks();
            let p0 = old(cursor).pos();
            match r {
                Ok(_) => sp_top(toks, p0) matches PRes::Parsed { val, next } && stmts_view(
                    final(statements)@,
                ) == stmts_view(old(statements)@) + val && final(cursor).pos() == next && p0
                    <= next <= toks.len(),
                Err(err) => sp_top(toks, p0) == (PRes::Failed::<Seq<AStmt>> { error: err }),
            }
        }),
    decreases old(cursor).toks().len() - old(cursor).pos(), 5int,
{
    let ghost toks = cursor.toks();
    let ghost p0 = cursor.pos();
    proof {
        lemma_sp_skip_eols_bounds(toks, p0);
    }
    skip_end_of_lines(cursor);
    let ghost q = cursor.pos();
    let t = cursor.peek();
    if t.is_end_of_file() {
        proof {
            assert(stmts_view(statements@) + Seq::<AStmt>::empty() =~= stmts_view(statements@));
        }
        Ok(())
    } else {
        match parse_statement(cursor) {
            Err(error) => Err(error),
            Ok(st) => {
                let ghost mid = statements@;
                statements.push(st);
                proof {
                    lemma_stmts_view_push(mid, st);
                }
                match parse_statements(cursor, statements) {
                    Err(error) => Err(error),
                    Ok(_) => {
                        proof {
                            let rest = sp_top(
                                toks,
                                step_pos(toks, q, sp_stmt(toks, q)->Parsed_next),
                            )->Parsed_val;
                            assert(stmts_view(mid) + (seq![stmt_view(st)] + rest) =~= (stmts_view(
                                mid,
                            ).push(stmt_view(st))) + rest);
                        }
                        Ok(())
                    },
                }
            },
        }
    }
}

/// Processes a given token stream and converts it into a sequence of
/// statements.
///
/// The result is exactly what `sp_parse` says: the statements of the stream
/// in source order, or the first structural error; a stream that does not
/// end with an end-of-file token yields `InvalidTokenStream`.
pub fn parse(stream: TokenStream) -> (r: Result<Vec<Statement>, ParseError>)
    ensures
        match r {
            Ok(v) => sp_parse(stream@) matches PRes::Parsed { val, .. } && val == stmts_view(v@),
            Err(e) => sp_parse(stream@) == (PRes::Failed::<Seq<AStmt>> { error: e }),
        },
{
    let ghost toks = stream@;
    match stream.into_cursor() {
        None => Err(ParseError::InvalidTokenStream),
        Some(mut cursor) => {
            let mut statements: Vec<Statement> = Vec::new();
            match parse_statements(&mut cursor, &mut statements) {
                Err(error) => Err(error),
                Ok(_) => {
                    proof {
                        assert(stmts_view(Seq::<Statement>::empty()) + sp_top(
                            toks,
                            0,
                        )->Parsed_val =~= sp_top(toks, 0)->Parsed_val);
                    }
                    Ok(statements)
                },
            }
        },
    }
}

// ---------------------------------------------------------------------------
// Source order: the statements of a parse cover disjoint, increasing source
// ranges. This holds whenever the token stream's own spans are ordered, as
// the scanner's are.
// ---------------------------------------------------------------------------

/// The span of one property: from its name to the end of its value.
pub open spec fn aprop_span(p: AProp) -> Span {
    Span { start: p.name.span.start, end: aexpr_span(p.value).end }
}

/// The span of one statement: from its first node to its last. The keyword
/// of a `play`, `wait` or `let` statement carries no span of its own in the
/// tree, so those statements begin at their first operand.
pub open spec fn astmt_span(s: AStmt) -> Span {
    match s {
        AStmt::Wait { expression } => aexpr_span(expression),
        AStmt::Play { expression } => aexpr_span(expression),
        AStmt::Sequence { name, block } => Span { start: name.span.start, end: block.span.end },
        AStmt::With { properties, block } => if properties.len() > 0 {
            Span { start: aprop_span(properties[0]).start, end: block.span.end }
        } else {
            block.span
        },
        AStmt::Let { name, value } => Span { start: name.span.start, end: aexpr_span(value).end },
        AStmt::Expression(e) => aexpr_span(e),
    }
}

/// Byte offset where the token at `i` begins.
pub open spec fn tok_lo(toks: Seq<Token>, i: int) -> int {
    token_spec_span(tok_at(toks, i)).start.index as int
}

/// Byte offset one past where the token at `i` ends.
pub open spec fn tok_hi(toks: Seq<Token>, i: int) -> int {
    token_spec_span(tok_at(toks, i)).end.index as int
}

/// The tokens of the stream stand in source order: each token's span is
/// well-formed and ends no later than the next token begins. Every stream
/// the scanner produces is of this shape.
pub open spec fn toks_ordered(toks: Seq<Token>) -> bool {
    &&& forall|i: int|
        0 <= i < toks.len() ==> (#[trigger] token_spec_span(toks[i])).start.index
            <= token_spec_span(toks[i]).end.index
    &&& forall|i: int|
        0 <= i && i + 1 < toks.len() ==> (#[trigger] token_spec_span(toks[i])).end.index
            <= token_spec_span(toks[i + 1]).start.index
}

/// In an ordered stream, token offsets are monotone in the position.
pub proof fn lemma_tok_mono(toks: Seq<Token>, i: int, j: int)
    requires
        toks_ordered(toks),
        0 <= i <= j < toks.len(),
    ensures
        tok_lo(toks, i) <= tok_hi(toks, i),
        tok_lo(toks, i) <= tok_lo(toks, j),
        tok_hi(toks, i) <= tok_hi(toks, j),
        i < j ==> tok_hi(toks, i) <= tok_lo(toks, j),
    decreases j - i,
{
    if i < j {
        lemma_tok_mono(toks, i, j - 1);
        lemma_tok_mono(toks, j, j);
        assert(token_spec_span(toks[j - 1]).end.index <= token_spec_span(toks[j]).start.index);
    }
}

/// A prefix expression parsed from position `pos` spans a range inside the
/// tokens it consumed.
pub proof fn lemma_prefix_bounds(toks: Seq<Token>, pos: int)
    requires
        toks_ordered(toks),
        stream_valid(toks),
        0 <= pos,
    ensures
        sp_prefix(toks, pos) matches PRes::Parsed { val, next } ==> {
            &&& pos < next <= toks.len()
            &&& pos < toks.len()
            &&& tok_lo(toks, pos) <= aexpr_span(val).start.index
            &&& aexpr_span(val).end.index as int <= tok_hi(toks, next - 1)
            &&& aexpr_span(val).start.index <= aexpr_span(val).end.index
        },
    decreases toks.len() - pos, 1int,
{
    if pos >= toks.len() {
        return ;
    }
    let t = toks[pos];
    match t {
        Token::Punctuator { punctuator: Punctuator::LeftParen, .. } => {
            lemma_expr_bounds(toks, pos + 1, 0);
            match sp_expr(toks, pos + 1, 0) {
                PRes::Parsed { val, next } => {
                    let got = tok_at(toks, next);
                    if got matches Token::Punctuator { punctuator: Punctuator::RightParen, .. } {
                        assert(next < toks.len());
                        lemma_tok_mono(toks, pos, pos + 1);
                        lemma_tok_mono(toks, next - 1, next);
                    }
                },
                _ => {},
            }
        },
        Token::Punctuator { punctuator: Punctuator::LeftBracket, .. } => {
            lemma_list_bounds(toks, pos);
        },
        Token::Keyword { keyword: Keyword::LoadSample, span } => {
            lemma_expr_bounds(toks, pos + 1, 0);
            match sp_expr(toks, pos + 1, 0) {
                PRes::Parsed { val, next } => {
                    lemma_tok_mono(toks, pos, pos + 1);
                },
                _ => {},
            }
        },
        Token::Operator { operator, span } => {
            if spec_prefix_operator_kind(operator) is Some {
                lemma_prefix_bounds(toks, pos + 1);
                match sp_prefix(toks, pos + 1) {
                    PRes::Parsed { val, next } => {
                        lemma_tok_mono(toks, pos, pos + 1);
                    },
                    _ => {},
                }
            }
        },
        _ => {
            lemma_tok_mono(toks, pos, pos);
        },
    }
}

/// The continuation of a list only moves the position forward.
pub proof fn lemma_list_rest_bounds(toks: Seq<Token>, pos: int)
    requires
        toks_ordered(toks),
        stream_valid(toks),
        0 <= pos,
    ensures
        sp_list_rest(toks, pos) matches PRes::Parsed { val, next } ==> pos <= next,
    decreases toks.len() - pos, 0int,
{
    if pos >= toks.len() {
        return ;
    }
    if toks[pos] matches Token::Punctuator { punctuator: Punctuator::Comma, .. } {
        let q = step_pos(toks, pos, sp_skip_eols(toks, pos + 1));
        if !(q < toks.len() && toks[q] matches Token::Punctuator {
            punctuator: Punctuator::RightBracket,
            ..
        }) {
            lemma_expr_bounds(toks, q, 0);
            match sp_expr(toks, q, 0) {
                PRes::Parsed { val, next } => {
                    let r = step_pos(toks, pos, sp_skip_eols(toks, next));
                    lemma_list_rest_bounds(toks, r);
                },
                _ => {},
            }
        }
    }
}

/// A list expression spans from its opening to its closing bracket.
#[verifier::rlimit(60)]
pub proof fn lemma_list_bounds(toks: Seq<Token>, pos: int)
    requires
        toks_ordered(toks),
        stream_valid(toks),
        0 <= pos,
    ensures
        sp_list(toks, pos) matches PRes::Parsed { val, next } ==> {
            &&& pos < next <= toks.len()
            &&& pos < toks.len()
            &&& tok_lo(toks, pos) <= aexpr_span(val).start.index
            &&& aexpr_span(val).end.index as int <= tok_hi(toks, next - 1)
            &&& aexpr_span(val).start.index <= aexpr_span(val).end.index
        },
    decreases toks.len() - pos, 0int,
{
    if pos >= toks.len() {
        return ;
    }
    let q = step_pos(toks, pos, sp_skip_eols(toks, pos + 1));
    if q < toks.len() && toks[q] matches Token::Punctuator {
        punctuator: Punctuator::RightBracket,
        ..
    } {
        lemma_tok_mono(toks, pos, q);
    } else {
        lemma_expr_bounds(toks, q, 0);
        match sp_expr(toks, q, 0) {
            PRes::Parsed { val: first, next } => {
                let r = step_pos(toks, pos, sp_skip_eols(toks, next));
                lemma_list_rest_bounds(toks, r);
                match sp_list_rest(toks, r) {
                    PRes::Parsed { val: rest, next: np } => {
                        let got = tok_at(toks, np);
                        if got matches Token::Punctuator {
                            punctuator: Punctuator::RightBracket,
                            ..
                        } {
                            assert(np < toks.len());
                            lemma_tok_mono(toks, pos, np);
                        }
                    },
                    _ => {},
                }
            },
            _ => {},
        }
    }
}

/// An expression parsed from position `pos` spans a range inside the tokens
/// it consumed.
pub proof fn lemma_expr_bounds(toks: Seq<Token>, pos: int, prec: int)
    requires
        toks_ordered(toks),
        stream_valid(toks),
        0 <= pos,
    ensures
        sp_expr(toks, pos, prec) matches PRes::Parsed { val, next } ==> {
            &&& pos < next <= toks.len()
            &&& pos < toks.len()
            &&& tok_lo(toks, pos) <= aexpr_span(val).start.index
            &&& aexpr_span(val).end.index as int <= tok_hi(toks, next - 1)
            &&& aexpr_span(val).start.index <= aexpr_span(val).end.index
        },
    decreases toks.len() - pos, 2int,
{
    if pos >= toks.len() {
        return ;
    }
    lemma_prefix_bounds(toks, pos);
    match sp_prefix(toks, pos) {
        PRes::Parsed { val, next } => {
            let np = step_pos(toks, pos, next);
            lemma_binloop_bounds(toks, np, val, prec);
        },
        _ => {},
    }
}

/// Folding binary operators onto `left` keeps its start and stays inside
/// the consumed tokens.
pub proof fn lemma_binloop_bounds(toks: Seq<Token>, pos: int, left: AExpr, prec: int)
    requires
        toks_ordered(toks),
        stream_valid(toks),
        1 <= pos <= toks.len(),
        aexpr_span(left).end.index as int <= tok_hi(toks, pos - 1),
        aexpr_span(left).start.index <= aexpr_span(left).end.index,
    ensures
        sp_binloop(toks, pos, left, prec) matches PRes::Parsed { val, next } ==> {
            &&& pos <= next <= toks.len()
            &&& aexpr_span(val).start == aexpr_span(left).start
            &&& aexpr_span(val).start.index <= aexpr_span(val).end.index
            &&& (next == pos && val == left || next > pos && aexpr_span(val).end.index as int
                <= tok_hi(toks, next - 1))
        },
    decreases toks.len() - pos, 3int,
{
    if pos >= toks.len() {
        return ;
    }
    match toks[pos] {
        Token::Operator { operator, span } => {
            match spec_binary_operator_kind(operator) {
                None => {},
                Some(kind) => {
                    if spec_precedence(kind) >= prec {
                        let q = step_pos(toks, pos, sp_skip_eols(toks, pos + 1));
                        lemma_expr_bounds(toks, q, spec_precedence(kind) + 1);
                        match sp_expr(toks, q, spec_precedence(kind) + 1) {
                            PRes::Parsed { val: right, next } => {
                                let folded = AExpr::Binary {
                                    operator: BinaryOperator { kind, span },
                                    left: Box::new(left),
                                    right: Box::new(right),
                                };
                                let np = step_pos(toks, pos, next);
                                assert(np == next);
                                lemma_tok_mono(toks, pos - 1, q);
                                assert(aexpr_span(folded).end.index as int <= tok_hi(
                                    toks,
                                    np - 1,
                                ));
                                lemma_binloop_bounds(toks, np, folded, prec);
                            },
                            _ => {},
                        }
                    }
                },
            }
        },
        _ => {},
    }
}

/// A property parsed from position `pos` spans a range inside the tokens it
/// consumed.
pub proof fn lemma_prop_bounds(toks: Seq<Token>, pos: int)
    requires
        toks_ordered(toks),
        stream_valid(toks),
        0 <= pos,
    ensures
        sp_prop(toks, pos) matches PRes::Parsed { val, next } ==> {
            &&& pos < next <= toks.len()
            &&& pos < toks.len()
            &&& tok_lo(toks, pos) <= aprop_span(val).start.index
            &&& aprop_span(val).end.index as int <= tok_hi(toks, next - 1)
            &&& aprop_span(val).start.index <= aprop_span(val).end.index
        },
    decreases toks.len() - pos, 0int,
{
    if pos >= toks.len() {
        return ;
    }
    match toks[pos] {
        Token::Identifier(name) => {
            let got = tok_at(toks, pos + 1);
            if got matches Token::Punctuator { punctuator: Punctuator::Colon, .. } {
                assert(pos + 1 < toks.len());
                let e0 = step_pos(toks, pos, pos + 2);
                lemma_expr_bounds(toks, e0, 0);
                match sp_expr(toks, e0, 0) {
                    PRes::Parsed { val, next } => {
                        lemma_tok_mono(toks, pos, e0);
                    },
                    _ => {},
                }
            }
        },
        _ => {},
    }
}

/// The continuation of a property list only moves the position forward,
/// within the stream.
pub proof fn lemma_props_bounds(toks: Seq<Token>, pos: int)
    requires
        toks_ordered(toks),
        stream_valid(toks),
        0 <= pos <= toks.len(),
    ensures
        sp_props(toks, pos) matches PRes::Parsed { val, next } ==> pos <= next <= toks.len(),
    decreases toks.len() - pos, 0int,
{
    if pos >= toks.len() {
        return ;
    }
    if toks[pos] matches Token::Punctuator { punctuator: Punctuator::Comma, .. } {
        let got = tok_at(toks, pos + 1);
        if !(got matches Token::Punctuator { punctuator: Punctuator::LeftBrace, .. }) {
            lemma_prop_bounds(toks, pos + 1);
            match sp_prop(toks, pos + 1) {
                PRes::Parsed { val, next } => {
                    lemma_props_bounds(toks, step_pos(toks, pos, next));
                },
                _ => {},
            }
        }
    }
}

/// The statements of a block end before the closing brace, which stays
/// inside the stream.
pub proof fn lemma_block_items_bounds(toks: Seq<Token>, pos: int)
    requires
        toks_ordered(toks),
        stream_valid(toks),
        0 <= pos,
    ensures
        sp_block_items(toks, pos) matches PRes::Parsed { val, next } ==> pos <= next
            < toks.len(),
    decreases toks.len() - pos, 5int,
{
    let q = step_pos(toks, pos - 1, sp_skip_eols(toks, pos));
    if q >= toks.len() {
        return ;
    }
    if !(toks[q] matches Token::Punctuator { punctuator: Punctuator::RightBrace, .. }) {
        lemma_stmt_bounds(toks, q);
        match sp_stmt(toks, q) {
            PRes::Parsed { val, next } => {
                lemma_block_items_bounds(toks, step_pos(toks, q, next));
            },
            _ => {},
        }
    }
}

/// A block spans from its opening to its closing brace.
pub proof fn lemma_block_bounds(toks: Seq<Token>, pos: int)
    requires
        toks_ordered(toks),
        stream_valid(toks),
        0 <= pos,
    ensures
        sp_block(toks, pos) matches PRes::Parsed { val, next } ==> {
            &&& pos < next <= toks.len()
            &&& pos < toks.len()
            &&& tok_lo(toks, pos) <= val.span.start.index
            &&& val.span.end.index as int <= tok_hi(toks, next - 1)
            &&& val.span.start.index <= val.span.end.index
        },
    decreases toks.len() - pos, 0int,
{
    if pos >= toks.len() {
        return ;
    }
    if toks[pos] matches Token::Punctuator { punctuator: Punctuator::LeftBrace, .. } {
        lemma_block_items_bounds(toks, pos + 1);
        match sp_block_items(toks, pos + 1) {
            PRes::Parsed { val, next } => {
                lemma_tok_mono(toks, pos, next);
            },
            _ => {},
        }
    }
}

/// A statement parsed from position `pos` spans a range inside the tokens
/// it consumed.
#[verifier::rlimit(60)]
pub proof fn lemma_stmt_bounds(toks: Seq<Token>, pos: int)
    requires
        toks_ordered(toks),
        stream_valid(toks),
        0 <= pos,
    ensures
        sp_stmt(toks, pos) matches PRes::Parsed { val, next } ==> {
            &&& pos < next <= toks.len()
            &&& pos < toks.len()
            &&& tok_lo(toks, pos) <= astmt_span(val).start.index
            &&& astmt_span(val).end.index as int <= tok_hi(toks, next - 1)
            &&& astmt_span(val).start.index <= astmt_span(val).end.index
        },
    decreases toks.len() - pos, 4int,
{
    if pos >= toks.len() {
        return ;
    }
    match toks[pos] {
        Token::Keyword { keyword: Keyword::Play, .. } => {
            lemma_expr_bounds(toks, pos + 1, 0);
            match sp_expr(toks, pos + 1, 0) {
                PRes::Parsed { .. } => {
                    lemma_tok_mono(toks, pos, pos + 1);
                },
                _ => {},
            }
        },
        Token::Keyword { keyword: Keyword::Wait, .. } => {
            lemma_expr_bounds(toks, pos + 1, 0);
            match sp_expr(toks, pos + 1, 0) {
                PRes::Parsed { .. } => {
                    lemma_tok_mono(toks, pos, pos + 1);
                },
                _ => {},
            }
        },
        Token::Keyword { keyword: Keyword::Sequence, .. } => {
            match tok_at(toks, pos + 1) {
                Token::Identifier(name) => {
                    assert(pos + 1 < toks.len());
                    let b0 = step_pos(toks, pos, pos + 2);
                    lemma_block_bounds(toks, b0);
                    match sp_block(toks, b0) {
                        PRes::Parsed { val: block, next } => {
                            lemma_tok_mono(toks, pos, pos + 1);
                            lemma_tok_mono(toks, pos + 1, b0);
                        },
                        _ => {},
                    }
                },
                _ => {},
            }
        },
        Token::Keyword { keyword: Keyword::With, .. } => {
            lemma_prop_bounds(toks, pos + 1);
            match sp_prop(toks, pos + 1) {
                PRes::Parsed { val: first, next } => {
                    let p1 = step_pos(toks, pos, next);
                    lemma_props_bounds(toks, p1);
                    match sp_props(toks, p1) {
                        PRes::Parsed { val: rest, next: np } => {
                            let b0 = step_pos(toks, pos, np);
                            lemma_block_bounds(toks, b0);
                            match sp_block(toks, b0) {
                                PRes::Parsed { val: block, next: bn } => {
                                    lemma_tok_mono(toks, pos, pos + 1);
                                    lemma_tok_mono(toks, next - 1, b0);
                                    assert((seq![first] + rest)[0] == first);
                                },
                                _ => {},
                            }
                        },
                        _ => {},
                    }
                },
                _ => {},
            }
        },
        Token::Keyword { keyword: Keyword::Let, .. } => {
            match tok_at(toks, pos + 1) {
                Token::Identifier(name) => {
                    assert(pos + 1 < toks.len());
                    let q = step_pos(toks, pos, sp_skip_eols(toks, pos + 2));
                    if tok_at(toks, q) matches Token::Operator {
                        operator: Operator::Assign,
                        ..
                    } {
                        let q2 = step_pos(toks, pos, sp_skip_eols(toks, advance(toks, q)));
                        lemma_expr_bounds(toks, q2, 0);
                        match sp_expr(toks, q2, 0) {
                            PRes::Parsed { val, next } => {
                                lemma_tok_mono(toks, pos, pos + 1);
                                lemma_tok_mono(toks, pos + 1, q2);
                            },
                            _ => {},
                        }
                    }
                },
                _ => {},
            }
        },
        _ => {
            lemma_expr_bounds(toks, pos, 0);
        },
    }
}

/// Prepending a statement that ends before the rest begin keeps a
/// statement sequence ordered.
proof fn lemma_order_cons(st: AStmt, rest: Seq<AStmt>)
    requires
        astmt_span(st).start.index <= astmt_span(st).end.index,
        rest.len() > 0 ==> astmt_span(st).end.index <= astmt_span(rest[0]).start.index,
        forall|i: int|
            0 <= i < rest.len() ==> (#[trigger] astmt_span(rest[i])).start.index <= astmt_span(
                rest[i],
            ).end.index,
        forall|i: int|
            0 <= i && i + 1 < rest.len() ==> (#[trigger] astmt_span(rest[i])).end.index <= astmt_span(
                rest[i + 1],
            ).start.index,
    ensures
        forall|i: int|
            0 <= i < (seq![st] + rest).len() ==> (#[trigger] astmt_span(
                (seq![st] + rest)[i],
            )).start.index <= astmt_span((seq![st] + rest)[i]).end.index,
        forall|i: int|
            0 <= i && i + 1 < (seq![st] + rest).len() ==> (#[trigger] astmt_span(
                (seq![st] + rest)[i],
            )).end.index <= astmt_span((seq![st] + rest)[i + 1]).start.index,
{
    let all = seq![st] + rest;
    assert forall|i: int| 0 <= i < all.len() implies (#[trigger] astmt_span(
        all[i],
    )).start.index <= astmt_span(all[i]).end.index by {
        if i == 0 {
            assert(all[0] == st);
        } else {
            assert(all[i] == rest[i - 1]);
        }
    }
    assert forall|i: int| 0 <= i && i + 1 < all.len() implies (#[trigger] astmt_span(
        all[i],
    )).end.index <= astmt_span(all[i + 1]).start.index by {
        assert(seq![st].len() == 1);
        assert(all.len() == 1 + rest.len());
        if i == 0 {
            assert(all[0] == st);
            assert(all[1] == rest[0]);
            assert(astmt_span(rest[0]).start.index <= astmt_span(rest[0]).end.index);
        } else {
            assert(0 <= i - 1 < rest.len());
            assert(all[i] == rest[i - 1]);
            assert(all[i + 1] == rest[i]);
            assert(astmt_span(rest[i - 1]).end.index <= astmt_span(rest[i]).start.index);
        }
    }
}

/// The statements of the top level stand in source order: each one's span is
/// well-formed and ends no later than the next one begins.
#[verifier::rlimit(100)]
#[verifier::spinoff_prover]
pub proof fn lemma_top_ordered(toks: Seq<Token>, pos: int)
    requires
        toks_ordered(toks),
        stream_valid(toks),
        0 <= pos,
    ensures
        sp_top(toks, pos) matches PRes::Parsed { val, next } ==> {
            &&& forall|i: int|
                0 <= i < val.len() ==> (#[trigger] astmt_span(val[i])).start.index <= astmt_span(
                    val[i],
                ).end.index
            &&& forall|i: int|
                0 <= i && i + 1 < val.len() ==> (#[trigger] astmt_span(val[i])).end.index
                    <= astmt_span(val[i + 1]).start.index
            &&& (val.len() > 0 ==> pos < toks.len() && tok_lo(toks, pos) <= astmt_span(
                val[0],
            ).start.index)
        },
    decreases toks.len() - pos, 5int,
{
    let q = step_pos(toks, pos - 1, sp_skip_eols(toks, pos));
    if q >= toks.len() || tok_at(toks, q) is EndOfFile {
        return ;
    }
    lemma_stmt_bounds(toks, q);
    match sp_stmt(toks, q) {
        PRes::Parsed { val: st, next } => {
            let np = step_pos(toks, q, next);
            assert(np == next);
            lemma_top_ordered(toks, np);
            match sp_top(toks, np) {
                PRes::Parsed { val: rest, next: tn } => {
                    let all = seq![st] + rest;
                    assert(sp_top(toks, pos) == (PRes::Parsed::<Seq<AStmt>> {
                        val: all,
                        next: tn,
                    }));
                    if rest.len() > 0 {
                        lemma_tok_mono(toks, next - 1, np);
                        assert(astmt_span(st).end.index <= astmt_span(rest[0]).start.index);
                    }
                    lemma_order_cons(st, rest);
                    lemma_tok_mono(toks, pos, q);
                    assert(all[0] == st);
                    assert(tok_lo(toks, pos) <= astmt_span(all[0]).start.index);
                },
                _ => {},
            }
        },
        _ => {},
    }
}

/// For every well-formed token stream whose tokens stand in source order —
/// as every stream the scanner returns does — the statement sequence that
/// `parse` returns covers non-overlapping source ranges whose start
/// positions are non-decreasing: the statements appear in source order.
#[verifier::rlimit(100)]
#[verifier::spinoff_prover]
pub proof fn lemma_parse_source_order(toks: Seq<Token>)
    requires
        toks_ordered(toks),
    ensures
        sp_parse(toks) matches PRes::Parsed { val, .. } ==> {
            &&& forall|i: int|
                0 <= i < val.len() ==> (#[trigger] astmt_span(val[i])).start.index <= astmt_span(
                    val[i],
                ).end.index
            &&& forall|i: int|
                0 <= i && i + 1 < val.len() ==> (#[trigger] astmt_span(val[i])).end.index
                    <= astmt_span(val[i + 1]).start.index
            &&& forall|i: int|
                0 <= i && i + 1 < val.len() ==> (#[trigger] astmt_span(val[i])).start.index
                    <= astmt_span(val[i + 1]).start.index
        },
{
    if stream_valid(toks) {
        lemma_top_ordered(toks, 0);
    }
}

/// A token that realizes an abstract token has the span the abstract
/// positions dictate, with no byte offset truncated.
proof fn lemma_tok_matches_span(
    s: Seq<char>,
    t: Token,
    a: crate::scan::AToken,
    tbl: Seq<Seq<char>>,
)
    requires
        crate::location::byte_len(s) <= u32::MAX - 1,
        crate::scan::tok_matches(t, a, s, tbl),
        0 <= crate::scan::atok_lo(a) <= crate::scan::atok_hi(a) <= s.len(),
    ensures
        token_spec_span(t).start.index as int == crate::location::idx_at(
            s,
            crate::scan::atok_lo(a),
        ),
        token_spec_span(t).start.index <= token_spec_span(t).end.index,
        !(t is EndOfFile) ==> token_spec_span(t).end.index as int == crate::location::idx_at(
            s,
            crate::scan::atok_hi(a),
        ),
        t is EndOfFile <==> a is EndOfFile,
{
    let lo = crate::scan::atok_lo(a);
    let hi = crate::scan::atok_hi(a);
    crate::location::lemma_idx_at_mono(s, 0, lo);
    crate::location::lemma_idx_at_mono(s, lo, hi);
    crate::location::lemma_idx_at_mono(s, hi, s.len() as int);
}

/// Every token stream the scanner returns stands in source order, so the
/// source-order law applies to it: the hypotheses here are exactly what
/// `scan` ensures of a successful scan.
pub proof fn lemma_scanned_stream_ordered(s: Seq<char>, toks: Seq<Token>, tbl: Seq<Seq<char>>)
    requires
        crate::location::byte_len(s) <= u32::MAX - 1,
        crate::scan::spec_scan(s) is Toks,
        toks.len() == crate::scan::spec_scan(s)->Toks_tokens.len(),
        forall|i: int|
            0 <= i < toks.len() ==> crate::scan::tok_matches(
                toks[i],
                #[trigger] crate::scan::spec_scan(s)->Toks_tokens[i],
                s,
                tbl,
            ),
    ensures
        toks_ordered(toks),
{
    let ats = crate::scan::spec_scan(s)->Toks_tokens;
    crate::scan::lemma_spec_scan_positions(s, 0);
    assert forall|i: int| 0 <= i < toks.len() implies (#[trigger] token_spec_span(
        toks[i],
    )).start.index <= token_spec_span(toks[i]).end.index by {
        lemma_tok_matches_span(s, toks[i], ats[i], tbl);
    }
    assert forall|i: int| 0 <= i && i + 1 < toks.len() implies (#[trigger] token_spec_span(
        toks[i],
    )).end.index <= token_spec_span(toks[i + 1]).start.index by {
        lemma_tok_matches_span(s, toks[i], ats[i], tbl);
        lemma_tok_matches_span(s, toks[i + 1], ats[i + 1], tbl);
        assert(!(ats[i] is EndOfFile));
        crate::location::lemma_idx_at_mono(
            s,
            crate::scan::atok_hi(ats[i]),
            crate::scan::atok_lo(ats[i + 1]),
        );
    }
}

} // verus!
