use vstd::prelude::*;

use crate::ast::{BinaryOperatorKind, PrefixOperatorKind};
use crate::intern::StringId;
use crate::location::{Location, Span, Spanned};

verus! {

/// The reserved words of the language.
#[derive(Debug, PartialEq, Eq, Structural, Clone, Copy)]
pub enum Keyword {
    Play,
    With,
    Wait,
    Sequence,
    LoadSample,
    Let,
}

/// Structural punctuation characters.
#[derive(Debug, PartialEq, Eq, Structural, Clone, Copy)]
pub enum Punctuator {
    Exclamation,
    LeftBrace,
    RightBrace,
    LeftBracket,
    RightBracket,
    LeftParen,
    RightParen,
    Dot,
    Colon,
    Comma,
}

/// Operator characters, single or doubled.
#[derive(Debug, PartialEq, Eq, Structural, Clone, Copy)]
pub enum Operator {
    Plus,
    Minus,
    PlusEq,
    MinusEq,
    Star,
    Slash,
    Assign,
    Eq,
    Exclamation,
}

/// The binary operator an `Operator` token stands for in infix position, if
/// any.
pub open spec fn spec_binary_operator_kind(op: Operator) -> Option<BinaryOperatorKind> {
    match op {
        Operator::Plus => Some(BinaryOperatorKind::Plus),
        Operator::Minus => Some(BinaryOperatorKind::Minus),
        Operator::Star => Some(BinaryOperatorKind::Star),
        Operator::Slash => Some(BinaryOperatorKind::Slash),
        Operator::Assign => Some(BinaryOperatorKind::Assign),
        _ => None,
    }
}

/// The prefix operator an `Operator` token stands for in prefix position, if
/// any.
pub open spec fn spec_prefix_operator_kind(op: Operator) -> Option<PrefixOperatorKind> {
    match op {
        Operator::Exclamation => Some(PrefixOperatorKind::Exclamation),
        _ => None,
    }
}

impl Operator {
    pub fn into_binary_operator_kind(&self) -> (r: Option<BinaryOperatorKind>)
        ensures
            r == spec_binary_operator_kind(*self),
    {
        match self {
            Self::Plus => Some(BinaryOperatorKind::Plus),
            Self::Minus => Some(BinaryOperatorKind::Minus),
            Self::Star => Some(BinaryOperatorKind::Star),
            Self::Slash => Some(BinaryOperatorKind::Slash),
            Self::Assign => Some(BinaryOperatorKind::Assign),
            _ => None,
        }
    }

    pub fn into_prefix_operator_kind(&self) -> (r: Option<PrefixOperatorKind>)
        ensures
            r == spec_prefix_operator_kind(*self),
    {
        match self {
            Self::Exclamation => Some(PrefixOperatorKind::Exclamation),
            _ => None,
        }
    }
}

/// An interned name together with where it was written.
#[derive(Debug, PartialEq, Eq, Structural, Clone, Copy)]
pub struct Identifier {
    pub name: StringId,
    pub span: Span,
}

impl Identifier {
    pub fn new(name: StringId, span: Span) -> (r: Self)
        ensures
            r == (Identifier { name, span }),
    {
        Self { name, span }
    }

    pub fn name(&self) -> (r: StringId)
        ensures
            r == self.name,
    {
        self.name
    }
}

impl Spanned for Identifier {
    open spec fn spec_span(&self) -> Span {
        self.span
    }

    fn span(&self) -> (r: Span) {
        self.span
    }
}

/// One lexical unit of source text. Float literals carry their interned
/// source spelling, so no information is lost to rounding; string literals
/// and identifiers carry their interned content.
#[derive(Debug, PartialEq, Eq, Structural, Clone, Copy)]
pub enum Token {
    Keyword { keyword: Keyword, span: Span },
    Identifier(Identifier),
    Operator { operator: Operator, span: Span },
    Punctuator { punctuator: Punctuator, span: Span },
    Float { value: StringId, span: Span },
    Integer { value: i64, span: Span },
    Bool { value: bool, span: Span },
    String { value: StringId, span: Span },
    EndOfLine { span: Span },
    EndOfFile { location: Location },
}

/// `x + 1`, stopping at the largest `u32` instead of wrapping.
pub open spec fn saturating_inc(x: u32) -> u32 {
    if x == u32::MAX {
        x
    } else {
        (x + 1) as u32
    }
}

/// The span of a token. Every token records its span; the end-of-file token
/// records only its location, and its span is synthesized as the one-byte
/// span starting there.
pub open spec fn token_spec_span(t: Token) -> Span {
    match t {
        Token::EndOfFile { location } => Span {
            start: location,
            end: Location {
                line: location.line,
                column: saturating_inc(location.column),
                index: saturating_inc(location.index),
            },
        },
        Token::Keyword { span, .. } => span,
        Token::Identifier(identifier) => identifier.span,
        Token::Operator { span, .. } => span,
        Token::Punctuator { span, .. } => span,
        Token::Float { span, .. } => span,
        Token::Integer { span, .. } => span,
        Token::Bool { span, .. } => span,
        Token::String { span, .. } => span,
        Token::EndOfLine { span } => span,
    }
}

impl Token {
    pub fn is_end_of_file(&self) -> (r: bool)
        ensures
            r == (self is EndOfFile),
    {
        matches!(self, Self::EndOfFile { .. })
    }

    pub fn is_end_of_line(&self) -> (r: bool)
        ensures
            r == (self is EndOfLine),
    {
        matches!(self, Self::EndOfLine { .. })
    }

    pub fn is_keyword(&self, keyword: Keyword) -> (r: bool)
        ensures
            r == (self matches Token::Keyword { keyword: k, .. } && k == keyword),
    {
        match self {
            Self::Keyword { keyword: my_keyword, .. } => keyword == *my_keyword,
            _ => false,
        }
    }

    pub fn is_punctuator(&self, punctuator: Punctuator) -> (r: bool)
        ensures
            r == (self matches Token::Punctuator { punctuator: p, .. } && p == punctuator),
    {
        match self {
            Self::Punctuator { punctuator: my_punctuator, .. } => punctuator == *my_punctuator,
            _ => false,
        }
    }

    pub fn is_operator(&self, operator: Operator) -> (r: bool)
        ensures
            r == (self matches Token::Operator { operator: o, .. } && o == operator),
    {
        match self {
            Self::Operator { operator: my_operator, .. } => operator == *my_operator,
            _ => false,
        }
    }

    pub fn is_identifier(&self) -> (r: bool)
        ensures
            r == (self is Identifier),
    {
        matches!(self, Self::Identifier { .. })
    }
}

impl Spanned for Token {
    open spec fn spec_span(&self) -> Span {
        token_spec_span(*self)
    }

    fn span(&self) -> (r: Span) {
        match self {
            Self::EndOfFile { location } => Span::new(
                *location,
                Location::new(
                    location.line,
                    if location.column == u32::MAX {
                        location.column
                    } else {
                        location.column + 1
                    },
                    if location.index == u32::MAX {
                        location.index
                    } else {
                        location.index + 1
                    },
                ),
            ),
            Self::Keyword { span, .. } => *span,
            Self::Identifier(identifier) => identifier.span,
            Self::Operator { span, .. } => *span,
            Self::Punctuator { span, .. } => *span,
            Self::Float { span, .. } => *span,
            Self::Integer { span, .. } => *span,
            Self::Bool { span, .. } => *span,
            Self::String { span, .. } => *span,
            Self::EndOfLine { span } => *span,
        }
    }
}

/// An ordered sequence of tokens as produced by the scanner.
#[derive(Debug, PartialEq)]
pub struct TokenStream(Vec<Token>);

impl View for TokenStream {
    type V = Seq<Token>;

    closed spec fn view(&self) -> Seq<Token> {
        self.0@
    }
}

/// A well-formed token stream is non-empty and ends with an end-of-file
/// token.
pub open spec fn stream_valid(toks: Seq<Token>) -> bool {
    toks.len() > 0 && toks.last() is EndOfFile
}

/// The token at `index`, saturating past the end: out-of-range reads yield
/// the last token (end-of-file in a well-formed stream), and an empty stream
/// yields an end-of-file token at the start of file.
pub open spec fn tok_at(toks: Seq<Token>, index: int) -> Token {
    if toks.len() == 0 {
        Token::EndOfFile { location: Location { line: 1u32, column: 0u32, index: 0u32 } }
    } else if 0 <= index < toks.len() {
        toks[index]
    } else {
        toks.last()
    }
}

impl TokenStream {
    /// Creates a new empty token stream.
    pub fn new() -> (r: Self)
        ensures
            r@ == Seq::<Token>::empty(),
    {
        Self(Vec::new())
    }

    /// Appends a token to the stream.
    pub fn push(&mut self, token: Token)
        ensures
            final(self)@ == old(self)@.push(token),
    {
        self.0.push(token);
    }

    /// Returns the token with the specified index in the stream. In case the
    /// index is out of bounds, the last token (EOF in a well-formed stream)
    /// is returned.
    pub fn get(&self, index: usize) -> (r: Token)
        ensures
            r == tok_at(self@, index as int),
    {
        if index < self.0.len() {
            self.0[index]
        } else {
            match self.0.last() {
                Some(t) => *t,
                None => Token::EndOfFile { location: Location::sof() },
            }
        }
    }

    /// Returns a cursor over the token stream, or `None` if the stream does
    /// not end with an end-of-file token.
    pub fn into_cursor(self) -> (r: Option<TokenStreamCursor>)
        ensures
            match r {
                Some(cursor) => stream_valid(self@) && cursor.toks() == self@ && cursor.pos()
                    == 0,
                None => !stream_valid(self@),
            },
    {
        let n: usize = self.0.len();
        if n == 0 {
            return None;
        }
        if !self.0[n - 1].is_end_of_file() {
            return None;
        }
        Some(TokenStreamCursor::new(self))
    }
}

/// A forward-only cursor over a token stream: `next` and `peek` return the
/// end-of-file token once the end is reached, so reading past the end is
/// safe and saturates rather than failing.
pub struct TokenStreamCursor {
    stream: TokenStream,
    location: usize,
}

impl TokenStreamCursor {
    /// The tokens the cursor walks over.
    pub closed spec fn toks(&self) -> Seq<Token> {
        self.stream@
    }

    /// How many tokens have been consumed so far.
    pub closed spec fn pos(&self) -> int {
        self.location as int
    }

    /// Creates a cursor positioned at the start of the stream.
    pub fn new(stream: TokenStream) -> (r: Self)
        ensures
            r.toks() == stream@,
            r.pos() == 0,
    {
        Self { stream, location: 0 }
    }

    /// Retrieves the next token, advancing the cursor. Once no more tokens
    /// are available the end-of-file token is returned and the cursor stays
    /// put.
    pub fn next(&mut self) -> (r: Token)
        ensures
            final(self).toks() == old(self).toks(),
            r == tok_at(old(self).toks(), old(self).pos()),
            final(self).pos() == if old(self).pos() < old(self).toks().len() {
                old(self).pos() + 1
            } else {
                old(self).pos()
            },
    {
        let t = self.stream.get(self.location);
        if self.location < self.stream.0.len() {
            self.location = self.location + 1;
        }
        t
    }

    /// Provides a glimpse of the next token without advancing the cursor.
    pub fn peek(&self) -> (r: Token)
        ensures
            r == tok_at(self.toks(), self.pos()),
    {
        self.stream.get(self.location)
    }
}

} // verus!
