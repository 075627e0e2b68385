use vstd::prelude::*;

use crate::cursor::Cursor;
use crate::intern::{intern_chars, interner_id, interner_insert, interner_strings, interner_wf,
    Interner};
use crate::location::{byte_len, loc_at, span_at, Span, Spanned};
use crate::token::{stream_valid, Identifier, Keyword, Operator, Punctuator, Token, TokenStream};

verus! {

broadcast use crate::cursor::lemma_cursor_pos_nonneg, crate::cursor::lemma_cursor_wf_bounds;

// ---------------------------------------------------------------------------
// Character classes.
//
// Which characters count as alphabetic or alphanumeric is decided by the
// Unicode tables behind `char::is_alphabetic` and `char::is_alphanumeric`;
// those classifications are named rather than restated.
// ---------------------------------------------------------------------------

/// Whether `char::is_alphabetic` holds of `c`.
pub uninterp spec fn char_alphabetic(c: char) -> bool;

/// Whether `char::is_alphanumeric` holds of `c`.
pub uninterp spec fn char_alphanumeric(c: char) -> bool;

/// Whether `char::is_whitespace` holds of `c`.
pub uninterp spec fn char_whitespace(c: char) -> bool;

/// Relies on `char::is_alphabetic`: the result depends on the character
/// alone.
#[verifier::external_body]
fn is_alphabetic_char(c: char) -> (r: bool)
    ensures
        r == char_alphabetic(c),
{
    c.is_alphabetic()
}

/// Relies on `char::is_alphanumeric`: the result depends on the character
/// alone, and holds of every alphabetic character, since alphanumeric means
/// alphabetic or numeric.
#[verifier::external_body]
fn is_alphanumeric_char(c: char) -> (r: bool)
    ensures
        r == char_alphanumeric(c),
        char_alphabetic(c) ==> r,
{
    c.is_alphanumeric()
}

/// Relies on `char::is_whitespace`: the result depends on the character
/// alone, and holds of the newline character, which has the Unicode
/// `White_Space` property.
#[verifier::external_body]
fn is_whitespace_char(c: char) -> (r: bool)
    ensures
        r == char_whitespace(c),
        c == '\n' ==> r,
{
    c.is_whitespace()
}

/// An ASCII decimal digit. Only these continue a numeric literal.
pub open spec fn is_digit_char(c: char) -> bool {
    48 <= (c as u32) <= 57
}

fn check_digit(c: char) -> (r: bool)
    ensures
        r == is_digit_char(c),
{
    let u = c as u32;
    48 <= u && u <= 57
}

// ---------------------------------------------------------------------------
// Scan errors.
// ---------------------------------------------------------------------------

/// A lexical error; any one aborts the whole scan.
#[derive(Debug, PartialEq, Eq, Structural, Clone, Copy)]
pub enum ScanError {
    UnexpectedCharacter { character: char, span: Span },
    InvalidEscapeSequence { character: char, span: Span },
    UnterminatedString { span: Span },
}

impl Spanned for ScanError {
    open spec fn spec_span(&self) -> Span {
        match self {
            ScanError::UnexpectedCharacter { span, .. } => *span,
            ScanError::InvalidEscapeSequence { span, .. } => *span,
            ScanError::UnterminatedString { span } => *span,
        }
    }

    fn span(&self) -> (r: Span) {
        match self {
            Self::UnexpectedCharacter { span, .. } => *span,
            Self::InvalidEscapeSequence { span, .. } => *span,
            Self::UnterminatedString { span } => *span,
        }
    }
}

// ---------------------------------------------------------------------------
// The abstract token model: what each token is, as character positions and
// plain content, independent of the interner.
// ---------------------------------------------------------------------------

/// A token as a mathematical value: its content as plain character
/// sequences, and the character positions `lo..hi` it was scanned from.
pub ghost enum AToken {
    Keyword { keyword: Keyword, lo: int, hi: int },
    Identifier { name: Seq<char>, lo: int, hi: int },
    Operator { operator: Operator, lo: int, hi: int },
    Punctuator { punctuator: Punctuator, lo: int, hi: int },
    Float { literal: Seq<char>, lo: int, hi: int },
    Integer { value: int, lo: int, hi: int },
    Bool { value: bool, lo: int, hi: int },
    String { content: Seq<char>, lo: int, hi: int },
    EndOfLine { lo: int, hi: int },
    EndOfFile { at: int },
}

/// A scan error as a mathematical value, over character positions.
pub ghost enum AScanError {
    UnexpectedCharacter { character: char, lo: int, hi: int },
    InvalidEscapeSequence { character: char, lo: int, hi: int },
    UnterminatedString { lo: int, hi: int },
}

/// Whether the executable token `t` realizes the abstract token `a` over
/// source `s`, with interned content looked up in `tbl`.
pub open spec fn tok_matches(t: Token, a: AToken, s: Seq<char>, tbl: Seq<Seq<char>>) -> bool {
    match a {
        AToken::Keyword { keyword, lo, hi } => t == (Token::Keyword {
            keyword,
            span: span_at(s, lo, hi),
        }),
        AToken::Identifier { name, lo, hi } => t matches Token::Identifier(id) && 0 <= id.name@
            < tbl.len() && tbl[id.name@] == name && id.span == span_at(s, lo, hi),
        AToken::Operator { operator, lo, hi } => t == (Token::Operator {
            operator,
            span: span_at(s, lo, hi),
        }),
        AToken::Punctuator { punctuator, lo, hi } => t == (Token::Punctuator {
            punctuator,
            span: span_at(s, lo, hi),
        }),
        AToken::Float { literal, lo, hi } => t matches Token::Float { value, span } && 0 <= value@
            < tbl.len() && tbl[value@] == literal && span == span_at(s, lo, hi),
        AToken::Integer { value, lo, hi } => t matches Token::Integer { value: v, span } && v as int
            == value && span == span_at(s, lo, hi),
        AToken::Bool { value, lo, hi } => t == (Token::Bool { value, span: span_at(s, lo, hi) }),
        AToken::String { content, lo, hi } => t matches Token::String { value, span } && 0
            <= value@ < tbl.len() && tbl[value@] == content && span == span_at(s, lo, hi),
        AToken::EndOfLine { lo, hi } => t == (Token::EndOfLine { span: span_at(s, lo, hi) }),
        AToken::EndOfFile { at } => t == (Token::EndOfFile { location: loc_at(s, at) }),
    }
}

/// Whether the executable error `e` realizes the abstract error `a` over
/// source `s`.
pub open spec fn err_matches(e: ScanError, a: AScanError, s: Seq<char>) -> bool {
    match a {
        AScanError::UnexpectedCharacter { character, lo, hi } => e
            == (ScanError::UnexpectedCharacter { character, span: span_at(s, lo, hi) }),
        AScanError::InvalidEscapeSequence { character, lo, hi } => e
            == (ScanError::InvalidEscapeSequence { character, span: span_at(s, lo, hi) }),
        AScanError::UnterminatedString { lo, hi } => e == (ScanError::UnterminatedString {
            span: span_at(s, lo, hi),
        }),
    }
}

// ---------------------------------------------------------------------------
// The scanner, as spec functions over the character sequence.
// ---------------------------------------------------------------------------

/// The position after skipping whitespace (except newlines) and `#`-to-end-
/// of-line comments, starting at `pos`. A comment consumes its terminating
/// newline.
pub open spec fn skip_trivia(s: Seq<char>, pos: int, in_comment: bool) -> int
    decreases s.len() - pos,
{
    if !(0 <= pos < s.len()) {
        pos
    } else if in_comment {
        skip_trivia(s, pos + 1, s[pos] != '\n')
    } else if char_whitespace(s[pos]) && s[pos] != '\n' {
        skip_trivia(s, pos + 1, false)
    } else if s[pos] == '#' {
        skip_trivia(s, pos + 1, true)
    } else {
        pos
    }
}

pub proof fn lemma_skip_trivia_bounds(s: Seq<char>, pos: int, in_comment: bool)
    requires
        0 <= pos <= s.len(),
    ensures
        pos <= skip_trivia(s, pos, in_comment) <= s.len(),
    decreases s.len() - pos,
{
    if pos < s.len() {
        lemma_skip_trivia_bounds(s, pos + 1, true);
        lemma_skip_trivia_bounds(s, pos + 1, false);
    }
}

/// The end of the run of alphanumeric-or-underscore characters starting at
/// `pos`.
pub open spec fn name_end(s: Seq<char>, pos: int) -> int
    decreases s.len() - pos,
{
    if !(0 <= pos < s.len()) {
        pos
    } else if char_alphanumeric(s[pos]) || s[pos] == '_' {
        name_end(s, pos + 1)
    } else {
        pos
    }
}

pub proof fn lemma_name_end_bounds(s: Seq<char>, pos: int)
    requires
        0 <= pos <= s.len(),
    ensures
        pos <= name_end(s, pos) <= s.len(),
    decreases s.len() - pos,
{
    if pos < s.len() {
        lemma_name_end_bounds(s, pos + 1);
    }
}

/// How a scanned name is classified: a reserved word, a boolean literal, or
/// a plain identifier.
#[derive(Debug, PartialEq, Eq, Structural, Clone, Copy)]
pub enum NameClass {
    KeywordName(Keyword),
    TrueName,
    FalseName,
    PlainName,
}

/// The fixed keyword table, applied to a scanned name.
pub open spec fn classify_name(name: Seq<char>) -> NameClass {
    if name == seq!['w', 'i', 't', 'h'] {
        NameClass::KeywordName(Keyword::With)
    } else if name == seq!['w', 'a', 'i', 't'] {
        NameClass::KeywordName(Keyword::Wait)
    } else if name == seq!['s', 'e', 'q', 'u', 'e', 'n', 'c', 'e'] {
        NameClass::KeywordName(Keyword::Sequence)
    } else if name == seq!['p', 'l', 'a', 'y'] {
        NameClass::KeywordName(Keyword::Play)
    } else if name == seq!['l', 'e', 't'] {
        NameClass::KeywordName(Keyword::Let)
    } else if name == seq!['l', 'o', 'a', 'd', '_', 's', 'a', 'm', 'p', 'l', 'e'] {
        NameClass::KeywordName(Keyword::LoadSample)
    } else if name == seq!['t', 'r', 'u', 'e'] {
        NameClass::TrueName
    } else if name == seq!['f', 'a', 'l', 's', 'e'] {
        NameClass::FalseName
    } else {
        NameClass::PlainName
    }
}

/// The end of a numeric scan starting at `pos`, and whether a dot was
/// consumed: digits, with at most one interspersed `.`.
pub open spec fn num_end(s: Seq<char>, pos: int, has_dot: bool) -> (int, bool)
    decreases s.len() - pos,
{
    if !(0 <= pos < s.len()) {
        (pos, has_dot)
    } else if is_digit_char(s[pos]) {
        num_end(s, pos + 1, has_dot)
    } else if s[pos] == '.' && !has_dot {
        num_end(s, pos + 1, true)
    } else {
        (pos, has_dot)
    }
}

pub proof fn lemma_num_end_bounds(s: Seq<char>, pos: int, has_dot: bool)
    requires
        0 <= pos <= s.len(),
    ensures
        pos <= num_end(s, pos, has_dot).0 <= s.len(),
    decreases s.len() - pos,
{
    if pos < s.len() {
        lemma_num_end_bounds(s, pos + 1, has_dot);
        lemma_num_end_bounds(s, pos + 1, true);
    }
}

/// Base-10 value of a sequence of ASCII digits.
pub open spec fn digits_val(ds: Seq<char>) -> int
    decreases ds.len(),
{
    if ds.len() == 0 {
        0
    } else {
        digits_val(ds.drop_last()) * 10 + ((ds.last() as u32) - 48)
    }
}

/// An integer literal too large for `i64` is pinned to `i64::MAX` rather
/// than wrapping or failing. Digit runs never have negative values, so the
/// lower clamp never fires.
pub open spec fn clamp_i64(v: int) -> int {
    if v > i64::MAX {
        i64::MAX as int
    } else if v < 0 {
        0
    } else {
        v
    }
}

pub proof fn lemma_digits_val_nonneg(ds: Seq<char>)
    requires
        forall|i: int| 0 <= i < ds.len() ==> is_digit_char(ds[i]),
    ensures
        digits_val(ds) >= 0,
    decreases ds.len(),
{
    if ds.len() > 0 {
        lemma_digits_val_nonneg(ds.drop_last());
    }
}

/// The characters accepted as string escapes, written `\n`, `\t`, `\r`,
/// `\"`, `\\`.
pub open spec fn is_escape_char(e: char) -> bool {
    e == 'n' || e == 't' || e == 'r' || e == '"' || e == '\\'
}

/// The character an escape stands for.
pub open spec fn escape_value(e: char) -> char {
    if e == 'n' {
        '\n'
    } else if e == 't' {
        '\t'
    } else if e == 'r' {
        '\r'
    } else if e == '"' {
        '"'
    } else {
        '\\'
    }
}

/// The outcome of scanning a string literal's body from position `i` (just
/// past the opening quote): the unescaped content and the position one past
/// the closing quote, or how the literal is malformed.
pub ghost enum StrScan {
    Done { content: Seq<char>, end: int },
    Unterminated { end: int },
    BadEscape { character: char, end: int },
}

pub open spec fn str_body(s: Seq<char>, i: int) -> StrScan
    decreases s.len() - i,
{
    if !(0 <= i < s.len()) {
        StrScan::Unterminated { end: i }
    } else if s[i] == '"' {
        StrScan::Done { content: Seq::empty(), end: i + 1 }
    } else if s[i] == '\\' {
        if !(i + 1 < s.len()) {
            StrScan::Unterminated { end: i + 1 }
        } else if is_escape_char(s[i + 1]) {
            match str_body(s, i + 2) {
                StrScan::Done { content, end } => StrScan::Done {
                    content: seq![escape_value(s[i + 1])] + content,
                    end,
                },
                other => other,
            }
        } else {
            StrScan::BadEscape { character: s[i + 1], end: i + 2 }
        }
    } else {
        match str_body(s, i + 1) {
            StrScan::Done { content, end } => StrScan::Done { content: seq![s[i]] + content, end },
            other => other,
        }
    }
}

pub proof fn lemma_str_body_bounds(s: Seq<char>, i: int)
    requires
        0 <= i <= s.len(),
    ensures
        match str_body(s, i) {
            StrScan::Done { end, .. } => i < end <= s.len(),
            StrScan::Unterminated { end } => i <= end <= s.len(),
            StrScan::BadEscape { end, .. } => i < end <= s.len(),
        },
    decreases s.len() - i,
{
    if i < s.len() {
        lemma_str_body_bounds(s, i + 1);
        if i + 2 <= s.len() {
            lemma_str_body_bounds(s, i + 2);
        }
    }
}

/// What the scanner does next at position `pos`: produce one token and the
/// position after it, hit the end of input, or fail.
pub ghost enum NextTok {
    Tok { token: AToken, next: int },
    Eof { at: int },
    Fail { error: AScanError },
}

/// One step of the scanner: skip trivia, then dispatch on the next
/// character.
pub open spec fn spec_next_token(s: Seq<char>, pos: int) -> NextTok {
    let q = skip_trivia(s, pos, false);
    if !(q < s.len()) {
        NextTok::Eof { at: q }
    } else {
        let c = s[q];
        if c == '\n' {
            NextTok::Tok { token: AToken::EndOfLine { lo: q, hi: q + 1 }, next: q + 1 }
        } else if c == '"' {
            match str_body(s, q + 1) {
                StrScan::Done { content, end } => NextTok::Tok {
                    token: AToken::String { content, lo: q, hi: end },
                    next: end,
                },
                StrScan::Unterminated { end } => NextTok::Fail {
                    error: AScanError::UnterminatedString { lo: q, hi: end },
                },
                StrScan::BadEscape { character, end } => NextTok::Fail {
                    error: AScanError::InvalidEscapeSequence { character, lo: q, hi: end },
                },
            }
        } else if char_alphabetic(c) || c == '_' {
            let end = name_end(s, q);
            let name = s.subrange(q, end);
            match classify_name(name) {
                NameClass::KeywordName(keyword) => NextTok::Tok {
                    token: AToken::Keyword { keyword, lo: q, hi: end },
                    next: end,
                },
                NameClass::TrueName => NextTok::Tok {
                    token: AToken::Bool { value: true, lo: q, hi: end },
                    next: end,
                },
                NameClass::FalseName => NextTok::Tok {
                    token: AToken::Bool { value: false, lo: q, hi: end },
                    next: end,
                },
                NameClass::PlainName => NextTok::Tok {
                    token: AToken::Identifier { name, lo: q, hi: end },
                    next: end,
                },
            }
        } else if is_digit_char(c) || c == '.' {
            let end = num_end(s, q, false).0;
            let dot = num_end(s, q, false).1;
            if end - q == 1 && dot {
                NextTok::Tok {
                    token: AToken::Punctuator { punctuator: Punctuator::Dot, lo: q, hi: end },
                    next: end,
                }
            } else if dot {
                NextTok::Tok {
                    token: AToken::Float { literal: s.subrange(q, end), lo: q, hi: end },
                    next: end,
                }
            } else {
                NextTok::Tok {
                    token: AToken::Integer {
                        value: clamp_i64(digits_val(s.subrange(q, end))),
                        lo: q,
                        hi: end,
                    },
                    next: end,
                }
            }
        } else {
            spec_punct_token(s, q, c)
        }
    }
}

/// The single- and two-character operator and punctuator table, with one
/// character of lookahead: `-=`, `+=` and `==` pair up, everything else is a
/// single character, and an unrecognized character is an error.
pub open spec fn spec_punct_token(s: Seq<char>, q: int, c: char) -> NextTok {
    if c == '-' && q + 1 < s.len() && s[q + 1] == '=' {
        NextTok::Tok {
            token: AToken::Operator { operator: Operator::MinusEq, lo: q, hi: q + 2 },
            next: q + 2,
        }
    } else if c == '+' && q + 1 < s.len() && s[q + 1] == '=' {
        NextTok::Tok {
            token: AToken::Operator { operator: Operator::PlusEq, lo: q, hi: q + 2 },
            next: q + 2,
        }
    } else if c == '=' && q + 1 < s.len() && s[q + 1] == '=' {
        NextTok::Tok {
            token: AToken::Operator { operator: Operator::Eq, lo: q, hi: q + 2 },
            next: q + 2,
        }
    } else if c == '-' {
        NextTok::Tok {
            token: AToken::Operator { operator: Operator::Minus, lo: q, hi: q + 1 },
            next: q + 1,
        }
    } else if c == '+' {
        NextTok::Tok {
            token: AToken::Operator { operator: Operator::Plus, lo: q, hi: q + 1 },
            next: q + 1,
        }
    } else if c == '*' {
        NextTok::Tok {
            token: AToken::Operator { operator: Operator::Star, lo: q, hi: q + 1 },
            next: q + 1,
        }
    } else if c == '/' {
        NextTok::Tok {
            token: AToken::Operator { operator: Operator::Slash, lo: q, hi: q + 1 },
            next: q + 1,
        }
    } else if c == '=' {
        NextTok::Tok {
            token: AToken::Operator { operator: Operator::Assign, lo: q, hi: q + 1 },
            next: q + 1,
        }
    } else if c == '{' {
        NextTok::Tok {
            token: AToken::Punctuator { punctuator: Punctuator::LeftBrace, lo: q, hi: q + 1 },
            next: q + 1,
        }
    } else if c == '}' {
        NextTok::Tok {
            token: AToken::Punctuator { punctuator: Punctuator::RightBrace, lo: q, hi: q + 1 },
            next: q + 1,
        }
    } else if c == '[' {
        NextTok::Tok {
            token: AToken::Punctuator { punctuator: Punctuator::LeftBracket, lo: q, hi: q + 1 },
            next: q + 1,
        }
    } else if c == ']' {
        NextTok::Tok {
            token: AToken::Punctuator { punctuator: Punctuator::RightBracket, lo: q, hi: q + 1 },
            next: q + 1,
        }
    } else if c == '(' {
        NextTok::Tok {
            token: AToken::Punctuator { punctuator: Punctuator::LeftParen, lo: q, hi: q + 1 },
            next: q + 1,
        }
    } else if c == ')' {
        NextTok::Tok {
            token: AToken::Punctuator { punctuator: Punctuator::RightParen, lo: q, hi: q + 1 },
            next: q + 1,
        }
    } else if c == ':' {
        NextTok::Tok {
            token: AToken::Punctuator { punctuator: Punctuator::Colon, lo: q, hi: q + 1 },
            next: q + 1,
        }
    } else if c == ',' {
        NextTok::Tok {
            token: AToken::Punctuator { punctuator: Punctuator::Comma, lo: q, hi: q + 1 },
            next: q + 1,
        }
    } else {
        NextTok::Fail { error: AScanError::UnexpectedCharacter { character: c, lo: q, hi: q + 1 } }
    }
}

/// The outcome of scanning a whole source text: its abstract tokens, ending
/// with end-of-file, or the first error.
pub ghost enum ScanOutcome {
    Toks { tokens: Seq<AToken> },
    Fail { error: AScanError },
}

/// Prepends already-produced tokens onto the outcome of scanning the rest.
pub open spec fn scan_prepend(prefix: Seq<AToken>, o: ScanOutcome) -> ScanOutcome {
    match o {
        ScanOutcome::Toks { tokens } => ScanOutcome::Toks { tokens: prefix + tokens },
        ScanOutcome::Fail { error } => ScanOutcome::Fail { error },
    }
}

/// The tokens of `s` from position `pos` on.
pub open spec fn spec_scan_from(s: Seq<char>, pos: int) -> ScanOutcome
    decreases s.len() - pos,
{
    match spec_next_token(s, pos) {
        NextTok::Eof { at } => ScanOutcome::Toks { tokens: seq![AToken::EndOfFile { at }] },
        NextTok::Fail { error } => ScanOutcome::Fail { error },
        NextTok::Tok { token, next } => {
            let np = if next > pos { next } else { pos + 1 };
            let np = if np > s.len() { s.len() as int } else { np };
            scan_prepend(seq![token], spec_scan_from(s, np))
        },
    }
}

/// What scanning a whole source text yields.
pub open spec fn spec_scan(s: Seq<char>) -> ScanOutcome {
    spec_scan_from(s, 0)
}

/// Whenever a scan succeeds its token sequence is non-empty and ends with
/// the end-of-file token: no other token can be last.
pub proof fn lemma_spec_scan_ends_eof(s: Seq<char>, pos: int)
    ensures
        match spec_scan_from(s, pos) {
            ScanOutcome::Toks { tokens } => tokens.len() >= 1 && tokens.last() is EndOfFile,
            ScanOutcome::Fail { .. } => true,
        },
    decreases s.len() - pos,
{
    match spec_next_token(s, pos) {
        NextTok::Tok { token, next } => {
            let np = if next > pos { next } else { pos + 1 };
            let np = if np > s.len() { s.len() as int } else { np };
            lemma_spec_scan_ends_eof(s, np);
        },
        _ => {},
    }
}

// ---------------------------------------------------------------------------
// The executable scanner, proved equal to the spec functions above.
// ---------------------------------------------------------------------------

/// An interner table extends another when it keeps every existing entry.
pub open spec fn tbl_extends(t1: Seq<Seq<char>>, t2: Seq<Seq<char>>) -> bool {
    t1.len() <= t2.len() && forall|i: int| 0 <= i < t1.len() ==> t2[i] == t1[i]
}

/// Growing the interner table never invalidates an already-matched token.
pub proof fn lemma_tok_matches_extend(
    t: Token,
    a: AToken,
    s: Seq<char>,
    t1: Seq<Seq<char>>,
    t2: Seq<Seq<char>>,
)
    requires
        tok_matches(t, a, s, t1),
        tbl_extends(t1, t2),
    ensures
        tok_matches(t, a, s, t2),
{
}

/// Consumes whitespace (except newlines) and `#` comments.
fn skip_trivia_ex(cursor: &mut Cursor)
    requires
        old(cursor).wf(),
    ensures
        final(cursor).wf(),
        final(cursor).src() == old(cursor).src(),
        final(cursor).pos() == skip_trivia(old(cursor).src(), old(cursor).pos(), false),
{
    let ghost s = cursor.src();
    let ghost p0 = cursor.pos();
    let mut in_comment = false;
    loop
        invariant_except_break
            cursor.wf(),
            cursor.src() == s,
            skip_trivia(s, p0, false) == skip_trivia(s, cursor.pos(), in_comment),
        ensures
            cursor.wf(),
            cursor.src() == s,
            cursor.pos() == skip_trivia(s, p0, false),
        decreases s.len() - cursor.pos(),
    {
        let ghost p = cursor.pos();
        match cursor.peek() {
            None => {
                proof {
                    assert(skip_trivia(s, p, in_comment) == p);
                }
                break ;
            },
            Some(c) => {
                if in_comment {
                    let _ = cursor.next();
                    if c == '\n' {
                        in_comment = false;
                    }
                    proof {
                        assert(skip_trivia(s, p, true) == skip_trivia(s, p + 1, s[p] != '\n'));
                    }
                } else {
                    let ws = is_whitespace_char(c);
                    if ws && c != '\n' {
                        let _ = cursor.next();
                        proof {
                            assert(skip_trivia(s, p, false) == skip_trivia(s, p + 1, false));
                        }
                    } else if c == '#' {
                        let _ = cursor.next();
                        in_comment = true;
                        proof {
                            assert(skip_trivia(s, p, false) == skip_trivia(s, p + 1, true));
                        }
                    } else {
                        proof {
                            assert(skip_trivia(s, p, false) == p);
                        }
                        break ;
                    }
                }
            },
        }
    }
}

/// Classifies a scanned name against the keyword table and the boolean
/// literals.
fn keyword_lookup(chars: &Vec<char>) -> (r: NameClass)
    ensures
        r == classify_name(chars@),
{
    let n = chars.len();
    if n == 4 && chars[0] == 'w' && chars[1] == 'i' && chars[2] == 't' && chars[3] == 'h' {
        proof {
            assert(chars@ =~= seq!['w', 'i', 't', 'h']);
        }
        NameClass::KeywordName(Keyword::With)
    } else if n == 4 && chars[0] == 'w' && chars[1] == 'a' && chars[2] == 'i' && chars[3] == 't' {
        proof {
            assert(chars@ =~= seq!['w', 'a', 'i', 't']);
        }
        NameClass::KeywordName(Keyword::Wait)
    } else if n == 8 && chars[0] == 's' && chars[1] == 'e' && chars[2] == 'q' && chars[3] == 'u'
        && chars[4] == 'e' && chars[5] == 'n' && chars[6] == 'c' && chars[7] == 'e' {
        proof {
            assert(chars@ =~= seq!['s', 'e', 'q', 'u', 'e', 'n', 'c', 'e']);
        }
        NameClass::KeywordName(Keyword::Sequence)
    } else if n == 4 && chars[0] == 'p' && chars[1] == 'l' && chars[2] == 'a' && chars[3] == 'y' {
        proof {
            assert(chars@ =~= seq!['p', 'l', 'a', 'y']);
        }
        NameClass::KeywordName(Keyword::Play)
    } else if n == 3 && chars[0] == 'l' && chars[1] == 'e' && chars[2] == 't' {
        proof {
            assert(chars@ =~= seq!['l', 'e', 't']);
        }
        NameClass::KeywordName(Keyword::Let)
    } else if n == 11 && chars[0] == 'l' && chars[1] == 'o' && chars[2] == 'a' && chars[3] == 'd'
        && chars[4] == '_' && chars[5] == 's' && chars[6] == 'a' && chars[7] == 'm' && chars[8]
        == 'p' && chars[9] == 'l' && chars[10] == 'e' {
        proof {
            assert(chars@ =~= seq!['l', 'o', 'a', 'd', '_', 's', 'a', 'm', 'p', 'l', 'e']);
        }
        NameClass::KeywordName(Keyword::LoadSample)
    } else if n == 4 && chars[0] == 't' && chars[1] == 'r' && chars[2] == 'u' && chars[3] == 'e' {
        proof {
            assert(chars@ =~= seq!['t', 'r', 'u', 'e']);
        }
        NameClass::TrueName
    } else if n == 5 && chars[0] == 'f' && chars[1] == 'a' && chars[2] == 'l' && chars[3] == 's'
        && chars[4] == 'e' {
        proof {
            assert(chars@ =~= seq!['f', 'a', 'l', 's', 'e']);
        }
        NameClass::FalseName
    } else {
        NameClass::PlainName
    }
}

/// Scans the next candidate for an identifier token and classifies it
/// against the keyword table; plain identifiers are interned.
fn scan_name(cursor: &mut Cursor, interner: &mut Interner) -> (r: Token)
    requires
        old(cursor).wf(),
        old(cursor).pos() < old(cursor).src().len(),
        char_alphabetic(old(cursor).src()[old(cursor).pos()]) || old(cursor).src()[old(
            cursor,
        ).pos()] == '_',
        interner_strings(*old(interner)).len() < u32::MAX - 1,
    ensures
        final(cursor).wf(),
        final(cursor).src() == old(cursor).src(),
        final(cursor).pos() == name_end(old(cursor).src(), old(cursor).pos()),
        final(cursor).pos() > old(cursor).pos(),
        ({
            let s = old(cursor).src();
            let p0 = old(cursor).pos();
            let end = name_end(s, p0);
            let name = s.subrange(p0, end);
            let tbl = interner_strings(*old(interner));
            match classify_name(name) {
                NameClass::KeywordName(k) => r == (Token::Keyword {
                    keyword: k,
                    span: span_at(s, p0, end),
                }) && interner_strings(*final(interner)) == tbl,
                NameClass::TrueName => r == (Token::Bool {
                    value: true,
                    span: span_at(s, p0, end),
                }) && interner_strings(*final(interner)) == tbl,
                NameClass::FalseName => r == (Token::Bool {
                    value: false,
                    span: span_at(s, p0, end),
                }) && interner_strings(*final(interner)) == tbl,
                NameClass::PlainName => r matches Token::Identifier(id) && id.span == span_at(
                    s,
                    p0,
                    end,
                ) && id.name@ == interner_id(tbl, name) && interner_strings(*final(interner))
                    == interner_insert(tbl, name),
            }
        }),
{
    let ghost s = cursor.src();
    let ghost p0 = cursor.pos();
    let start = cursor.location();
    let mut lexeme: Vec<char> = Vec::new();
    proof {
        assert(lexeme@ =~= s.subrange(p0, p0));
    }
    loop
        invariant_except_break
            cursor.wf(),
            cursor.src() == s,
            0 <= p0 <= cursor.pos() <= s.len(),
            lexeme@ == s.subrange(p0, cursor.pos()),
            name_end(s, p0) == name_end(s, cursor.pos()),
            char_alphabetic(s[p0]) || s[p0] == '_',
            p0 < s.len(),
        ensures
            cursor.wf(),
            cursor.src() == s,
            cursor.pos() == name_end(s, p0),
            lexeme@ == s.subrange(p0, name_end(s, p0)),
            p0 < cursor.pos() <= s.len(),
        decreases s.len() - cursor.pos(),
    {
        let ghost p = cursor.pos();
        match cursor.peek() {
            None => {
                proof {
                    assert(name_end(s, p) == p);
                }
                break ;
            },
            Some(c) => {
                let keep = is_alphanumeric_char(c);
                if keep || c == '_' {
                    proof {
                        assert(c == s[p]);
                        assert(lexeme@ == s.subrange(p0, p));
                        assert(lexeme@.push(c) =~= s.subrange(p0, p + 1));
                    }
                    lexeme.push(c);
                    let _ = cursor.next();
                    proof {
                        assert(lexeme@ == s.subrange(p0, p + 1));
                        assert(name_end(s, p) == name_end(s, p + 1));
                    }
                } else {
                    proof {
                        assert(name_end(s, p) == p);
                        assert(p > p0) by {
                            if p == p0 {
                                assert(char_alphabetic(c) ==> keep);
                                assert(false);
                            }
                        }
                    }
                    break ;
                }
            },
        }
    }
    let span = Span::new(start, cursor.location());
    match keyword_lookup(&lexeme) {
        NameClass::KeywordName(k) => Token::Keyword { keyword: k, span },
        NameClass::TrueName => Token::Bool { value: true, span },
        NameClass::FalseName => Token::Bool { value: false, span },
        NameClass::PlainName => {
            let id = intern_chars(interner, &lexeme);
            Token::Identifier(Identifier::new(id, span))
        },
    }
}

/// Converts a run of ASCII digits to an `i64`, pinning overlong literals to
/// `i64::MAX`.
fn digits_to_i64(ds: &Vec<char>) -> (r: i64)
    requires
        forall|j: int| 0 <= j < ds@.len() ==> is_digit_char(#[trigger] ds@[j]),
    ensures
        r as int == clamp_i64(digits_val(ds@)),
        r >= 0,
{
    let n = ds.len();
    let mut acc: i64 = 0;
    let mut i: usize = 0;
    proof {
        assert(ds@.take(0) =~= Seq::<char>::empty());
    }
    while i < n
        invariant
            i <= n,
            n == ds@.len(),
            forall|j: int| 0 <= j < ds@.len() ==> is_digit_char(#[trigger] ds@[j]),
            acc as int == clamp_i64(digits_val(ds@.take(i as int))),
            acc >= 0,
        decreases n - i,
    {
        let c = ds[i];
        let d: i64 = ((c as u32) - 48) as i64;
        let ghost pre = ds@.take(i as int);
        let ghost cur = ds@.take(i as int + 1);
        let ghost dv = digits_val(pre);
        proof {
            assert(cur.drop_last() =~= pre);
            assert(cur.last() == ds@[i as int]);
            assert(digits_val(cur) == dv * 10 + d);
            lemma_digits_val_nonneg(pre);
        }
        acc = match acc.checked_mul(10) {
            Some(m) => match m.checked_add(d) {
                Some(v) => v,
                None => i64::MAX,
            },
            None => i64::MAX,
        };
        proof {
            if dv > i64::MAX {
                assert(dv * 10 >= dv) by (nonlinear_arith)
                    requires
                        dv >= 0,
                ;
                assert(digits_val(cur) > i64::MAX);
            } else {
                assert(dv * 10 + d == digits_val(cur));
            }
            assert(acc as int == clamp_i64(digits_val(cur)));
        }
        i = i + 1;
    }
    proof {
        assert(ds@.take(n as int) =~= ds@);
    }
    acc
}

/// Scans a number or a dot (`.`) from the source text: digits with at most
/// one dot make an integer or a float literal; a lone dot is the `Dot`
/// punctuator.
fn scan_number_or_dot(cursor: &mut Cursor, interner: &mut Interner) -> (r: Token)
    requires
        old(cursor).wf(),
        old(cursor).pos() < old(cursor).src().len(),
        is_digit_char(old(cursor).src()[old(cursor).pos()]) || old(cursor).src()[old(
            cursor,
        ).pos()] == '.',
        interner_strings(*old(interner)).len() < u32::MAX - 1,
    ensures
        final(cursor).wf(),
        final(cursor).src() == old(cursor).src(),
        final(cursor).pos() == num_end(old(cursor).src(), old(cursor).pos(), false).0,
        final(cursor).pos() > old(cursor).pos(),
        ({
            let s = old(cursor).src();
            let p0 = old(cursor).pos();
            let end = num_end(s, p0, false).0;
            let dot = num_end(s, p0, false).1;
            let tbl = interner_strings(*old(interner));
            if end - p0 == 1 && dot {
                r == (Token::Punctuator {
                    punctuator: Punctuator::Dot,
                    span: span_at(s, p0, end),
                }) && interner_strings(*final(interner)) == tbl
            } else if dot {
                r matches Token::Float { value, span } && span == span_at(s, p0, end) && value@
                    == interner_id(tbl, s.subrange(p0, end)) && interner_strings(*final(interner))
                    == interner_insert(tbl, s.subrange(p0, end))
            } else {
                r == (Token::Integer {
                    value: clamp_i64(digits_val(s.subrange(p0, end))) as i64,
                    span: span_at(s, p0, end),
                }) && interner_strings(*final(interner)) == tbl
            }
        }),
{
    let ghost s = cursor.src();
    let ghost p0 = cursor.pos();
    let start = cursor.location();
    let mut lexeme: Vec<char> = Vec::new();
    let mut has_dot = false;
    proof {
        assert(lexeme@ =~= s.subrange(p0, p0));
    }
    loop
        invariant_except_break
            cursor.wf(),
            cursor.src() == s,
            0 <= p0 <= cursor.pos() <= s.len(),
            p0 < s.len(),
            is_digit_char(s[p0]) || s[p0] == '.',
            lexeme@ == s.subrange(p0, cursor.pos()),
            num_end(s, p0, false) == num_end(s, cursor.pos(), has_dot),
            !has_dot ==> forall|j: int|
                0 <= j < lexeme@.len() ==> is_digit_char(#[trigger] lexeme@[j]),
            has_dot ==> cursor.pos() > p0,
        ensures
            cursor.wf(),
            cursor.src() == s,
            cursor.pos() == num_end(s, p0, false).0,
            has_dot == num_end(s, p0, false).1,
            lexeme@ == s.subrange(p0, cursor.pos()),
            !has_dot ==> forall|j: int|
                0 <= j < lexeme@.len() ==> is_digit_char(#[trigger] lexeme@[j]),
            0 <= p0 < cursor.pos() <= s.len(),
        decreases s.len() - cursor.pos(),
    {
        let ghost p = cursor.pos();
        match cursor.peek() {
            None => {
                proof {
                    assert(num_end(s, p, has_dot) == (p, has_dot));
                    assert(p > p0);
                }
                break ;
            },
            Some(c) => {
                if check_digit(c) {
                    proof {
                        assert(lexeme@.push(c) =~= s.subrange(p0, p + 1));
                        assert(num_end(s, p, has_dot) == num_end(s, p + 1, has_dot));
                    }
                    lexeme.push(c);
                    let _ = cursor.next();
                } else if c == '.' && !has_dot {
                    proof {
                        assert(lexeme@.push(c) =~= s.subrange(p0, p + 1));
                        assert(num_end(s, p, false) == num_end(s, p + 1, true));
                    }
                    lexeme.push(c);
                    let _ = cursor.next();
                    has_dot = true;
                } else {
                    proof {
                        assert(num_end(s, p, has_dot) == (p, has_dot));
                        assert(p > p0);
                    }
                    break ;
                }
            },
        }
    }
    let span = Span::new(start, cursor.location());
    if lexeme.len() == 1 && has_dot {
        return Token::Punctuator { punctuator: Punctuator::Dot, span };
    }
    if has_dot {
        let id = intern_chars(interner, &lexeme);
        Token::Float { value: id, span }
    } else {
        let value = digits_to_i64(&lexeme);
        Token::Integer { value, span }
    }
}

/// Maps the result of scanning a string body after some already-unescaped
/// prefix of its content.
pub open spec fn str_prepend(prefix: Seq<char>, r: StrScan) -> StrScan {
    match r {
        StrScan::Done { content, end } => StrScan::Done { content: prefix + content, end },
        other => other,
    }
}

proof fn lemma_str_prepend_push(prefix: Seq<char>, c: char, r: StrScan)
    ensures
        str_prepend(
            prefix,
            match r {
                StrScan::Done { content, end } => StrScan::Done {
                    content: seq![c] + content,
                    end,
                },
                other => other,
            },
        ) == str_prepend(prefix.push(c), r),
{
    match r {
        StrScan::Done { content, end } => {
            assert(prefix + (seq![c] + content) =~= prefix.push(c) + content);
        },
        _ => {},
    }
}

/// Scans a string literal: the opening quote, content with `\n`, `\t`, `\r`,
/// `\"` and `\\` escapes, and the closing quote. The unescaped content is
/// interned.
fn scan_string(cursor: &mut Cursor, interner: &mut Interner) -> (r: Result<Token, ScanError>)
    requires
        old(cursor).wf(),
        old(cursor).pos() < old(cursor).src().len(),
        old(cursor).src()[old(cursor).pos()] == '"',
        interner_strings(*old(interner)).len() < u32::MAX - 1,
    ensures
        final(cursor).wf(),
        final(cursor).src() == old(cursor).src(),
        ({
            let s = old(cursor).src();
            let p0 = old(cursor).pos();
            let tbl = interner_strings(*old(interner));
            match str_body(s, p0 + 1) {
                StrScan::Done { content, end } => r matches Ok(t) && t matches Token::String {
                    value,
                    span,
                } && span == span_at(s, p0, end) && value@ == interner_id(tbl, content)
                    && interner_strings(*final(interner)) == interner_insert(tbl, content)
                    && final(cursor).pos() == end && p0 < end <= s.len(),
                StrScan::Unterminated { end } => r == Err::<Token, ScanError>(
                    ScanError::UnterminatedString { span: span_at(s, p0, end) },
                ) && interner_strings(*final(interner)) == tbl,
                StrScan::BadEscape { character, end } => r == Err::<Token, ScanError>(
                    ScanError::InvalidEscapeSequence { character, span: span_at(s, p0, end) },
                ) && interner_strings(*final(interner)) == tbl,
            }
        }),
{
    let ghost s = cursor.src();
    let ghost p0 = cursor.pos();
    proof {
        lemma_str_body_bounds(s, p0 + 1);
    }
    let start = cursor.location();
    let _ = cursor.next();  // Consume the opening quote.
    let mut content: Vec<char> = Vec::new();
    proof {
        assert(str_prepend(content@, str_body(s, p0 + 1)) == str_body(s, p0 + 1));
    }
    loop
        invariant
            cursor.wf(),
            cursor.src() == s,
            s == old(cursor).src(),
            p0 == old(cursor).pos(),
            start == loc_at(s, p0),
            0 <= p0 < cursor.pos() <= s.len(),
            str_prepend(content@, str_body(s, cursor.pos())) == str_body(s, p0 + 1),
            interner_strings(*interner) == interner_strings(*old(interner)),
            interner_strings(*interner).len() < u32::MAX - 1,
        decreases s.len() - cursor.pos(),
    {
        let ghost i = cursor.pos();
        match cursor.next() {
            None => {
                proof {
                    assert(str_body(s, i) == (StrScan::Unterminated { end: i }));
                }
                return Err(ScanError::UnterminatedString {
                    span: Span::new(start, cursor.location()),
                });
            },
            Some(c) => {
                if c == '\\' {
                    match cursor.next() {
                        None => {
                            proof {
                                assert(str_body(s, i) == (StrScan::Unterminated { end: i + 1 }));
                            }
                            return Err(ScanError::UnterminatedString {
                                span: Span::new(start, cursor.location()),
                            });
                        },
                        Some(e) => {
                            let unescaped: char = if e == 'n' {
                                '\n'
                            } else if e == 't' {
                                '\t'
                            } else if e == 'r' {
                                '\r'
                            } else if e == '"' {
                                '"'
                            } else if e == '\\' {
                                '\\'
                            } else {
                                return Err(ScanError::InvalidEscapeSequence {
                                    character: e,
                                    span: Span::new(start, cursor.location()),
                                });
                            };
                            proof {
                                assert(is_escape_char(e) && unescaped == escape_value(e));
                                lemma_str_prepend_push(content@, unescaped, str_body(s, i + 2));
                            }
                            content.push(unescaped);
                        },
                    }
                } else if c == '"' {
                    proof {
                        assert(str_body(s, i) == (StrScan::Done {
                            content: Seq::<char>::empty(),
                            end: i + 1,
                        }));
                        assert(content@ + Seq::<char>::empty() =~= content@);
                        lemma_str_body_bounds(s, p0 + 1);
                    }
                    let id = intern_chars(interner, &content);
                    return Ok(Token::String { value: id, span: Span::new(start, cursor.location()) });
                } else {
                    proof {
                        lemma_str_prepend_push(content@, c, str_body(s, i + 1));
                    }
                    content.push(c);
                }
            },
        }
    }
}

/// Scans the next token in the source text and advances the position of the
/// cursor past it, interning any content the token carries.
fn scan_next_token(cursor: &mut Cursor, interner: &mut Interner) -> (r: Result<Token, ScanError>)
    requires
        old(cursor).wf(),
        interner_strings(*old(interner)).len() < u32::MAX - 1,
    ensures
        final(cursor).wf(),
        final(cursor).src() == old(cursor).src(),
        tbl_extends(interner_strings(*old(interner)), interner_strings(*final(interner))),
        interner_strings(*final(interner)).len() <= interner_strings(*old(interner)).len() + 1,
        interner_wf(interner_strings(*old(interner))) ==> interner_wf(
            interner_strings(*final(interner)),
        ),
        ({
            let s = old(cursor).src();
            let p0 = old(cursor).pos();
            let p1 = final(cursor).pos();
            let tbl1 = interner_strings(*final(interner));
            match r {
                Ok(t) => match spec_next_token(s, p0) {
                    NextTok::Tok { token, next } => tok_matches(t, token, s, tbl1) && p1 == next
                        && p0 < next <= s.len() && !(t is EndOfFile),
                    NextTok::Eof { at } => t == (Token::EndOfFile { location: loc_at(s, at) })
                        && p1 == at && tbl1 == interner_strings(*old(interner)),
                    NextTok::Fail { .. } => false,
                },
                Err(e) => spec_next_token(s, p0) matches NextTok::Fail { error } && err_matches(
                    e,
                    error,
                    s,
                ),
            }
        }),
{
    let ghost s = cursor.src();
    let ghost p0 = cursor.pos();
    let ghost tbl = interner_strings(*interner);
    skip_trivia_ex(cursor);
    proof {
        lemma_skip_trivia_bounds(s, p0, false);
    }
    let ghost q = cursor.pos();
    match cursor.peek() {
        None => Ok(Token::EndOfFile { location: cursor.location() }),
        Some(c) => {
            if c == '\n' {
                let location = cursor.location();
                let _ = cursor.next();
                Ok(Token::EndOfLine { span: Span::new(location, cursor.location()) })
            } else if c == '"' {
                proof {
                    lemma_str_body_bounds(s, q + 1);
                    if interner_wf(tbl) {
                        match str_body(s, q + 1) {
                            StrScan::Done { content, .. } => {
                                crate::intern::lemma_interner_insert_wf(tbl, content);
                                crate::intern::lemma_interner_id_valid(tbl, content);
                            },
                            _ => {},
                        }
                    }
                    match str_body(s, q + 1) {
                        StrScan::Done { content, .. } => {
                            crate::intern::lemma_interner_id_valid(tbl, content);
                        },
                        _ => {},
                    }
                }
                scan_string(cursor, interner)
            } else {
                let alpha = is_alphabetic_char(c);
                if alpha || c == '_' {
                    proof {
                        lemma_name_end_bounds(s, q);
                        let end = name_end(s, q);
                        let name = s.subrange(q, end);
                        crate::intern::lemma_interner_id_valid(tbl, name);
                        if interner_wf(tbl) {
                            crate::intern::lemma_interner_insert_wf(tbl, name);
                        }
                    }
                    Ok(scan_name(cursor, interner))
                } else {
                    let dig = check_digit(c);
                    if dig || c == '.' {
                        proof {
                            lemma_num_end_bounds(s, q, false);
                            let end = num_end(s, q, false).0;
                            let lit = s.subrange(q, end);
                            crate::intern::lemma_interner_id_valid(tbl, lit);
                            if interner_wf(tbl) {
                                crate::intern::lemma_interner_insert_wf(tbl, lit);
                            }
                        }
                        Ok(scan_number_or_dot(cursor, interner))
                    } else {
                        let start = cursor.location();
                        let _ = cursor.next();
                        scan_punct(cursor, start, c)
                    }
                }
            }
        },
    }
}

/// Decides between single- and two-character operator tokens, punctuator
/// tokens, and unexpected characters; the first character `c` is already
/// consumed and began at `start`.
fn scan_punct(cursor: &mut Cursor, start: crate::location::Location, c: char) -> (r: Result<
    Token,
    ScanError,
>)
    requires
        old(cursor).wf(),
        old(cursor).pos() >= 1,
        old(cursor).pos() - 1 < old(cursor).src().len(),
        c == old(cursor).src()[old(cursor).pos() - 1],
        start == loc_at(old(cursor).src(), old(cursor).pos() - 1),
        c != '\n' && c != '"' && c != '_' && !char_alphabetic(c) && !is_digit_char(c) && c != '.',
    ensures
        final(cursor).wf(),
        final(cursor).src() == old(cursor).src(),
        ({
            let s = old(cursor).src();
            let q = old(cursor).pos() - 1;
            match r {
                Ok(t) => match spec_punct_token(s, q, c) {
                    NextTok::Tok { token, next } => tok_matches(
                        t,
                        token,
                        s,
                        Seq::<Seq<char>>::empty(),
                    ) && final(cursor).pos() == next && q < next <= s.len() && !(t is EndOfFile),
                    _ => false,
                },
                Err(e) => spec_punct_token(s, q, c) matches NextTok::Fail { error } && err_matches(
                    e,
                    error,
                    s,
                ),
            }
        }),
{
    let ghost s = cursor.src();
    let ghost q = cursor.pos() - 1;
    match c {
        '-' => {
            if let Some('=') = cursor.peek() {
                let _ = cursor.next();
                Ok(Token::Operator {
                    operator: Operator::MinusEq,
                    span: Span::new(start, cursor.location()),
                })
            } else {
                Ok(Token::Operator {
                    operator: Operator::Minus,
                    span: Span::new(start, cursor.location()),
                })
            }
        },
        '+' => {
            if let Some('=') = cursor.peek() {
                let _ = cursor.next();
                Ok(Token::Operator {
                    operator: Operator::PlusEq,
                    span: Span::new(start, cursor.location()),
                })
            } else {
                Ok(Token::Operator {
                    operator: Operator::Plus,
                    span: Span::new(start, cursor.location()),
                })
            }
        },
        '=' => {
            if let Some('=') = cursor.peek() {
                let _ = cursor.next();
                Ok(Token::Operator {
                    operator: Operator::Eq,
                    span: Span::new(start, cursor.location()),
                })
            } else {
                Ok(Token::Operator {
                    operator: Operator::Assign,
                    span: Span::new(start, cursor.location()),
                })
            }
        },
        '*' => Ok(Token::Operator {
            operator: Operator::Star,
            span: Span::new(start, cursor.location()),
        }),
        '/' => Ok(Token::Operator {
            operator: Operator::Slash,
            span: Span::new(start, cursor.location()),
        }),
        '{' => Ok(Token::Punctuator {
            punctuator: Punctuator::LeftBrace,
            span: Span::new(start, cursor.location()),
        }),
        '}' => Ok(Token::Punctuator {
            punctuator: Punctuator::RightBrace,
            span: Span::new(start, cursor.location()),
        }),
        '[' => Ok(Token::Punctuator {
            punctuator: Punctuator::LeftBracket,
            span: Span::new(start, cursor.location()),
        }),
        ']' => Ok(Token::Punctuator {
            punctuator: Punctuator::RightBracket,
            span: Span::new(start, cursor.location()),
        }),
        '(' => Ok(Token::Punctuator {
            punctuator: Punctuator::LeftParen,
            span: Span::new(start, cursor.location()),
        }),
        ')' => Ok(Token::Punctuator {
            punctuator: Punctuator::RightParen,
            span: Span::new(start, cursor.location()),
        }),
        ':' => Ok(Token::Punctuator {
            punctuator: Punctuator::Colon,
            span: Span::new(start, cursor.location()),
        }),
        ',' => Ok(Token::Punctuator {
            punctuator: Punctuator::Comma,
            span: Span::new(start, cursor.location()),
        }),
        _ => Err(ScanError::UnexpectedCharacter {
            character: c,
            span: Span::new(start, cursor.location()),
        }),
    }
}

/// Scans a given source text and converts it into a sequence of tokens,
/// ending with an end-of-file token.
///
/// The result is exactly what `spec_scan` says: on success, a non-empty
/// stream whose tokens realize the abstract tokens of the text, the last one
/// end-of-file; on failure, the first lexical error with its span. The
/// interner only grows, and stays free of duplicates.
pub fn scan(source: &str, interner: &mut Interner) -> (r: Result<TokenStream, ScanError>)
    requires
        byte_len(source@) <= u32::MAX - 1,
        interner_strings(*old(interner)).len() + source@.len() < u32::MAX - 1,
    ensures
        tbl_extends(interner_strings(*old(interner)), interner_strings(*final(interner))),
        interner_wf(interner_strings(*old(interner))) ==> interner_wf(
            interner_strings(*final(interner)),
        ),
        match r {
            Ok(stream) => stream_valid(stream@) && (spec_scan(source@) matches ScanOutcome::Toks {
                tokens,
            } && stream@.len() == tokens.len() && forall|i: int|
                0 <= i < tokens.len() ==> tok_matches(
                    stream@[i],
                    #[trigger] tokens[i],
                    source@,
                    interner_strings(*final(interner)),
                )),
            Err(e) => spec_scan(source@) matches ScanOutcome::Fail { error } && err_matches(
                e,
                error,
                source@,
            ),
        },
{
    let ghost s = source@;
    let ghost tbl0 = interner_strings(*interner);
    let mut cursor = Cursor::new(source);
    let mut stream = TokenStream::new();
    let ghost mut ats: Seq<AToken> = Seq::empty();
    proof {
        match spec_scan_from(s, 0) {
            ScanOutcome::Toks { tokens } => {
                assert(ats + tokens =~= tokens);
            },
            _ => {},
        }
        assert(spec_scan(s) == scan_prepend(ats, spec_scan_from(s, 0)));
    }
    loop
        invariant
            cursor.wf(),
            cursor.src() == s,
            s == source@,
            0 <= cursor.pos() <= s.len(),
            stream@.len() == ats.len(),
            forall|i: int|
                0 <= i < ats.len() ==> tok_matches(
                    stream@[i],
                    #[trigger] ats[i],
                    s,
                    interner_strings(*interner),
                ),
            spec_scan(s) == scan_prepend(ats, spec_scan_from(s, cursor.pos())),
            tbl_extends(tbl0, interner_strings(*interner)),
            tbl0 == interner_strings(*old(interner)),
            interner_wf(tbl0) ==> interner_wf(interner_strings(*interner)),
            interner_strings(*interner).len() <= tbl0.len() + cursor.pos(),
            tbl0.len() + s.len() < u32::MAX - 1,
        decreases s.len() - cursor.pos(),
    {
        let ghost p = cursor.pos();
        let ghost tbl_pre = interner_strings(*interner);
        match scan_next_token(&mut cursor, interner) {
            Err(e) => {
                proof {
                    assert(spec_scan_from(s, p) matches ScanOutcome::Fail { .. });
                }
                return Err(e);
            },
            Ok(t) => {
                let ghost tbl_now = interner_strings(*interner);
                if t.is_end_of_file() {
                    stream.push(t);
                    proof {
                        let at = spec_next_token(s, p)->Eof_at;
                        assert(spec_scan_from(s, p) == (ScanOutcome::Toks {
                            tokens: seq![AToken::EndOfFile { at }],
                        }));
                        assert(ats + seq![AToken::EndOfFile { at }] =~= ats.push(
                            AToken::EndOfFile { at },
                        ));
                        assert(stream@.last() == t);
                    }
                    return Ok(stream);
                } else {
                    stream.push(t);
                    proof {
                        let token = spec_next_token(s, p)->Tok_token;
                        let next = spec_next_token(s, p)->Tok_next;
                        assert(spec_scan_from(s, p) == scan_prepend(
                            seq![token],
                            spec_scan_from(s, next),
                        ));
                        match spec_scan_from(s, next) {
                            ScanOutcome::Toks { tokens } => {
                                assert(ats + (seq![token] + tokens) =~= ats.push(token) + tokens);
                            },
                            _ => {},
                        }
                        assert(scan_prepend(ats, spec_scan_from(s, p)) == scan_prepend(
                            ats.push(token),
                            spec_scan_from(s, next),
                        ));
                        assert forall|i: int| 0 <= i < ats.push(token).len() implies tok_matches(
                            stream@[i],
                            #[trigger] ats.push(token)[i],
                            s,
                            tbl_now,
                        ) by {
                            if i < ats.len() {
                                lemma_tok_matches_extend(stream@[i], ats[i], s, tbl_pre, tbl_now);
                            }
                        }
                        ats = ats.push(token);
                    }
                }
            },
        }
    }
}

/// The character position where an abstract token begins.
pub open spec fn atok_lo(a: AToken) -> int {
    match a {
        AToken::Keyword { lo, .. } => lo,
        AToken::Identifier { lo, .. } => lo,
        AToken::Operator { lo, .. } => lo,
        AToken::Punctuator { lo, .. } => lo,
        AToken::Float { lo, .. } => lo,
        AToken::Integer { lo, .. } => lo,
        AToken::Bool { lo, .. } => lo,
        AToken::String { lo, .. } => lo,
        AToken::EndOfLine { lo, .. } => lo,
        AToken::EndOfFile { at } => at,
    }
}

/// The character position one past where an abstract token ends; the
/// end-of-file token occupies no characters.
pub open spec fn atok_hi(a: AToken) -> int {
    match a {
        AToken::Keyword { hi, .. } => hi,
        AToken::Identifier { hi, .. } => hi,
        AToken::Operator { hi, .. } => hi,
        AToken::Punctuator { hi, .. } => hi,
        AToken::Float { hi, .. } => hi,
        AToken::Integer { hi, .. } => hi,
        AToken::Bool { hi, .. } => hi,
        AToken::String { hi, .. } => hi,
        AToken::EndOfLine { hi, .. } => hi,
        AToken::EndOfFile { at } => at,
    }
}

/// One scanning step yields a token that lies between the starting position
/// and the position the scanner moves to, and is never the end-of-file
/// marker.
pub proof fn lemma_next_token_bounds(s: Seq<char>, pos: int)
    requires
        0 <= pos <= s.len(),
    ensures
        match spec_next_token(s, pos) {
            NextTok::Tok { token, next } => pos <= atok_lo(token) <= atok_hi(token) <= next
                && next <= s.len() && !(token is EndOfFile),
            NextTok::Eof { at } => pos <= at <= s.len(),
            NextTok::Fail { .. } => true,
        },
{
    lemma_skip_trivia_bounds(s, pos, false);
    let q = skip_trivia(s, pos, false);
    if q < s.len() {
        let c = s[q];
        if c == '"' {
            lemma_str_body_bounds(s, q + 1);
        } else if char_alphabetic(c) || c == '_' {
            lemma_name_end_bounds(s, q);
        } else if is_digit_char(c) || c == '.' {
            lemma_num_end_bounds(s, q, false);
        }
    }
}

/// The tokens of a successful scan stand in source order: each occupies a
/// range after the one before it, all within the text, and only the last is
/// the end-of-file marker.
pub proof fn lemma_spec_scan_positions(s: Seq<char>, pos: int)
    requires
        0 <= pos <= s.len(),
    ensures
        spec_scan_from(s, pos) matches ScanOutcome::Toks { tokens } ==> {
            &&& forall|i: int|
                0 <= i < tokens.len() ==> pos <= #[trigger] atok_lo(tokens[i]) && atok_lo(
                    tokens[i],
                ) <= atok_hi(tokens[i]) <= s.len()
            &&& forall|i: int|
                0 <= i && i + 1 < tokens.len() ==> #[trigger] atok_hi(tokens[i]) <= atok_lo(
                    tokens[i + 1],
                )
            &&& forall|i: int|
                0 <= i < tokens.len() - 1 ==> !(#[trigger] tokens[i] is EndOfFile)
        },
    decreases s.len() - pos,
{
    lemma_next_token_bounds(s, pos);
    match spec_next_token(s, pos) {
        NextTok::Tok { token, next } => {
            let np = if next > pos {
                next
            } else {
                pos + 1
            };
            let np = if np > s.len() {
                s.len() as int
            } else {
                np
            };
            lemma_spec_scan_positions(s, np);
            match spec_scan_from(s, np) {
                ScanOutcome::Toks { tokens: rest } => {
                    lemma_spec_scan_ends_eof(s, np);
                    let all = seq![token] + rest;
                    assert forall|i: int| 0 <= i < all.len() implies pos <= #[trigger] atok_lo(
                        all[i],
                    ) && atok_lo(all[i]) <= atok_hi(all[i]) <= s.len() by {
                        if i == 0 {
                            assert(all[0] == token);
                        } else {
                            assert(all[i] == rest[i - 1]);
                        }
                    }
                    assert forall|i: int| 0 <= i && i + 1 < all.len() implies #[trigger] atok_hi(
                        all[i],
                    ) <= atok_lo(all[i + 1]) by {
                        if i == 0 {
                            assert(all[0] == token);
                            assert(all[1] == rest[0]);
                        } else {
                            assert(all[i] == rest[i - 1]);
                            assert(all[i + 1] == rest[i]);
                        }
                    }
                    assert forall|i: int| 0 <= i < all.len() - 1 implies !(#[trigger] all[i]
                        is EndOfFile) by {
                        if i > 0 {
                            assert(all[i] == rest[i - 1]);
                        }
                    }
                },
                _ => {},
            }
        },
        _ => {},
    }
}

} // verus!
