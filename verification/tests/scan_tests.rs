use stellar_core::intern::{Interner, StringId};
use stellar_core::location::{Location, Span};
use stellar_core::scan::{scan, ScanError};
use stellar_core::token::{Keyword, Operator, Punctuator, Token};

#[test]
fn test_eof() {
    let mut interner = Interner::new();
    let mut cursor = scan("", &mut interner).unwrap().into_cursor().unwrap();

    assert_eq!(
        cursor.next(),
        Token::EndOfFile {
            location: Location::sof()
        }
    )
}

#[test]
fn test_unexpected_character() {
    let mut interner = Interner::new();

    assert_eq!(
        scan("!", &mut interner),
        Err(ScanError::UnexpectedCharacter {
            character: '!',
            span: Span::new(Location::sof(), Location::new(1, 1, 1))
        })
    );
}

#[test]
fn test_punctuation() {
    let mut interner = Interner::new();
    let mut cursor = scan("{", &mut interner).unwrap().into_cursor().unwrap();

    assert_eq!(
        cursor.next(),
        Token::Punctuator {
            punctuator: Punctuator::LeftBrace,
            span: Span::new(Location::sof(), Location::new(1, 1, 1))
        }
    );
    assert_eq!(
        cursor.next(),
        Token::EndOfFile {
            location: Location::new(1, 1, 1)
        }
    );
}

#[test]
fn test_number_and_dot() {
    let mut interner = Interner::new();
    let mut cursor = scan("3 3.2.", &mut interner)
        .unwrap()
        .into_cursor()
        .unwrap();

    assert_eq!(
        cursor.next(),
        Token::Integer {
            value: 3,
            span: Span::new(Location::sof(), Location::new(1, 1, 1))
        },
    );
    let float = cursor.next();
    assert_eq!(
        float,
        Token::Float {
            value: StringId::new("3.2", &mut interner),
            span: Span::new(Location::new(1, 2, 2), Location::new(1, 5, 5))
        },
    );
    match float {
        Token::Float { value, .. } => {
            let literal = value.resolve(&interner);
            assert_eq!(literal, "3.2");
            assert_eq!(literal.parse::<f64>().unwrap(), 3.2);
        }
        _ => panic!("expected a float token"),
    }
    assert_eq!(
        cursor.next(),
        Token::Punctuator {
            punctuator: Punctuator::Dot,
            span: Span::new(Location::new(1, 5, 5), Location::new(1, 6, 6))
        },
    );
    assert_eq!(
        cursor.next(),
        Token::EndOfFile {
            location: Location::new(1, 6, 6)
        }
    );
}

#[test]
fn test_identifier_and_keyword() {
    let mut interner = Interner::new();
    let mut cursor = scan("wait time", &mut interner)
        .unwrap()
        .into_cursor()
        .unwrap();

    assert_eq!(
        cursor.next(),
        Token::Keyword {
            keyword: Keyword::Wait,
            span: Span::new(Location::sof(), Location::new(1, 4, 4))
        },
    );
    let expected_name = StringId::new("time", &mut interner);
    match cursor.next() {
        Token::Identifier(identifier) => {
            assert_eq!(identifier.name(), expected_name);
            assert_eq!(
                identifier.span,
                Span::new(Location::new(1, 5, 5), Location::new(1, 9, 9))
            );
        }
        other => panic!("expected an identifier, got {:?}", other),
    }
    assert_eq!(
        cursor.next(),
        Token::EndOfFile {
            location: Location::new(1, 9, 9)
        }
    );
}

#[test]
fn scan_always_ends_with_end_of_file() {
    let mut interner = Interner::new();
    for source in ["", "play c4 wait 1", "sequence s { play 1 }", "  # only a comment"] {
        let stream = scan(source, &mut interner).unwrap();
        let mut count: usize = 0;
        loop {
            let token = stream.get(count);
            if token.is_end_of_file() {
                break;
            }
            count += 1;
        }
        // The terminal token is the end-of-file marker, and reading past the
        // end keeps returning it.
        assert!(stream.get(count).is_end_of_file());
        assert!(stream.get(count + 10).is_end_of_file());
    }
}

#[test]
fn string_literal_with_escapes() {
    let mut interner = Interner::new();
    let mut cursor = scan("\"a\\n\\tb\\\\\\\"c\\r\"", &mut interner)
        .unwrap()
        .into_cursor()
        .unwrap();
    match cursor.next() {
        Token::String { value, span } => {
            assert_eq!(value.resolve(&interner), "a\n\tb\\\"c\r");
            assert_eq!(span.start(), Location::sof());
        }
        other => panic!("expected a string token, got {:?}", other),
    }
}

#[test]
fn unterminated_string_is_an_error() {
    let mut interner = Interner::new();
    assert_eq!(
        scan("\"abc", &mut interner),
        Err(ScanError::UnterminatedString {
            span: Span::new(Location::sof(), Location::new(1, 4, 4))
        })
    );
}

#[test]
fn invalid_escape_is_an_error() {
    let mut interner = Interner::new();
    assert_eq!(
        scan("\"a\\qb\"", &mut interner),
        Err(ScanError::InvalidEscapeSequence {
            character: 'q',
            span: Span::new(Location::sof(), Location::new(1, 4, 4))
        })
    );
}

#[test]
fn booleans_and_keywords() {
    let mut interner = Interner::new();
    let mut cursor = scan("true false let load_sample", &mut interner)
        .unwrap()
        .into_cursor()
        .unwrap();
    assert!(matches!(cursor.next(), Token::Bool { value: true, .. }));
    assert!(matches!(cursor.next(), Token::Bool { value: false, .. }));
    assert!(cursor.next().is_keyword(Keyword::Let));
    assert!(cursor.next().is_keyword(Keyword::LoadSample));
    assert!(cursor.next().is_end_of_file());
}

#[test]
fn single_and_double_character_operators() {
    let mut interner = Interner::new();
    let mut cursor = scan("+ - * / = += -= ==", &mut interner)
        .unwrap()
        .into_cursor()
        .unwrap();
    for expected in [
        Operator::Plus,
        Operator::Minus,
        Operator::Star,
        Operator::Slash,
        Operator::Assign,
        Operator::PlusEq,
        Operator::MinusEq,
        Operator::Eq,
    ] {
        assert!(cursor.next().is_operator(expected));
    }
    assert!(cursor.next().is_end_of_file());
}

#[test]
fn newline_is_a_token_other_whitespace_is_not() {
    let mut interner = Interner::new();
    let mut cursor = scan("a \t\nb", &mut interner)
        .unwrap()
        .into_cursor()
        .unwrap();
    assert!(cursor.next().is_identifier());
    let eol = cursor.next();
    assert!(eol.is_end_of_line());
    assert_eq!(
        eol,
        Token::EndOfLine {
            span: Span::new(Location::new(1, 3, 3), Location::new(2, 0, 4))
        }
    );
    assert!(cursor.next().is_identifier());
    assert!(cursor.next().is_end_of_file());
}

#[test]
fn comment_runs_to_end_of_line_and_consumes_it() {
    let mut interner = Interner::new();
    let mut cursor = scan("# comment\nplay 1", &mut interner)
        .unwrap()
        .into_cursor()
        .unwrap();
    // The comment swallows its newline, so the first token is the keyword.
    assert!(cursor.next().is_keyword(Keyword::Play));
    assert!(matches!(cursor.next(), Token::Integer { value: 1, .. }));
    assert!(cursor.next().is_end_of_file());
}

#[test]
fn multibyte_characters_advance_byte_offsets() {
    let mut interner = Interner::new();
    let mut cursor = scan("h\u{e9}llo", &mut interner)
        .unwrap()
        .into_cursor()
        .unwrap();
    match cursor.next() {
        Token::Identifier(identifier) => {
            assert_eq!(identifier.name().resolve(&interner), "h\u{e9}llo");
            // Five characters, but six bytes: the accented letter is two.
            assert_eq!(
                identifier.span,
                Span::new(Location::sof(), Location::new(1, 5, 6))
            );
        }
        other => panic!("expected an identifier, got {:?}", other),
    }
    assert_eq!(
        cursor.next(),
        Token::EndOfFile {
            location: Location::new(1, 5, 6)
        }
    );
}

#[test]
fn oversized_integer_literal_is_pinned_to_max() {
    let mut interner = Interner::new();
    let mut cursor = scan("99999999999999999999", &mut interner)
        .unwrap()
        .into_cursor()
        .unwrap();
    assert!(matches!(
        cursor.next(),
        Token::Integer {
            value: i64::MAX,
            ..
        }
    ));
}

#[test]
fn leading_dot_starts_a_float() {
    let mut interner = Interner::new();
    let mut cursor = scan(".5", &mut interner).unwrap().into_cursor().unwrap();
    match cursor.next() {
        Token::Float { value, .. } => {
            assert_eq!(value.resolve(&interner), ".5");
            assert_eq!(value.resolve(&interner).parse::<f64>().unwrap(), 0.5);
        }
        other => panic!("expected a float token, got {:?}", other),
    }
}
