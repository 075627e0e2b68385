use stellar_core::ast::{BinaryOperatorKind, Block, Expression, Statement};
use stellar_core::intern::{Interner, StringId};
use stellar_core::location::{Location, Span, Spanned};
use stellar_core::parse::{parse, ParseError};
use stellar_core::scan::scan;
use stellar_core::token::{Identifier, Operator, Punctuator, Token, TokenStream};

fn parse_source(source: &str, interner: &mut Interner) -> Result<Vec<Statement>, ParseError> {
    let stream = scan(source, interner).expect("scanning failed");
    parse(stream)
}

#[test]
fn test_sequence() {
    let mut interner = Interner::new();
    let statements = parse_source("sequence name {}", &mut interner).unwrap();

    assert_eq!(
        statements.first().unwrap(),
        &Statement::Sequence {
            name: Identifier::new(
                StringId::new("name", &mut interner),
                Span::new(Location::new(1, 9, 9), Location::new(1, 13, 13))
            ),
            block: Block {
                statements: Vec::new(),
                span: Span::new(Location::new(1, 14, 14), Location::new(1, 16, 16))
            },
        }
    );
    assert_eq!(statements.len(), 1);
}

#[test]
fn with_statement_properties() {
    let mut interner = Interner::new();
    let statements = parse_source("with a: 3, b: 4, {}", &mut interner).unwrap();
    assert_eq!(statements.len(), 1);
    match &statements[0] {
        Statement::With { properties, block } => {
            // The trailing comma before the block must not produce a third
            // property.
            assert_eq!(properties.len(), 2);
            assert_eq!(
                properties[0].name.name(),
                StringId::new("a", &mut interner)
            );
            assert!(matches!(
                properties[0].value,
                Expression::Integer { value: 3, .. }
            ));
            assert_eq!(
                properties[1].name.name(),
                StringId::new("b", &mut interner)
            );
            assert!(matches!(
                properties[1].value,
                Expression::Integer { value: 4, .. }
            ));
            assert!(block.statements.is_empty());
        }
        other => panic!("expected a with statement, got {:?}", other),
    }
}

#[test]
fn precedence_and_associativity() {
    let mut interner = Interner::new();
    let statements = parse_source("a + 2 * (3 + b) - 3", &mut interner).unwrap();
    assert_eq!(statements.len(), 1);
    // Expected shape: ((a + (2 * (3 + b))) - 3)
    let expr = match &statements[0] {
        Statement::Expression(e) => e,
        other => panic!("expected an expression statement, got {:?}", other),
    };
    let (outer_left, outer_right) = match expr {
        Expression::Binary {
            operator,
            left,
            right,
        } => {
            assert_eq!(operator.kind, BinaryOperatorKind::Minus);
            (left, right)
        }
        other => panic!("expected a binary expression, got {:?}", other),
    };
    assert!(matches!(**outer_right, Expression::Integer { value: 3, .. }));
    let (add_left, add_right) = match &**outer_left {
        Expression::Binary {
            operator,
            left,
            right,
        } => {
            assert_eq!(operator.kind, BinaryOperatorKind::Plus);
            (left, right)
        }
        other => panic!("expected a binary expression, got {:?}", other),
    };
    assert!(matches!(**add_left, Expression::Identifier(_)));
    let (mul_left, mul_right) = match &**add_right {
        Expression::Binary {
            operator,
            left,
            right,
        } => {
            assert_eq!(operator.kind, BinaryOperatorKind::Star);
            (left, right)
        }
        other => panic!("expected a binary expression, got {:?}", other),
    };
    assert!(matches!(**mul_left, Expression::Integer { value: 2, .. }));
    match &**mul_right {
        Expression::Binary { operator, .. } => {
            assert_eq!(operator.kind, BinaryOperatorKind::Plus);
        }
        other => panic!("expected a parenthesized sum, got {:?}", other),
    }
}

#[test]
fn list_with_line_breaks_and_trailing_comma() {
    let mut interner = Interner::new();
    let statements = parse_source("[1,\n2,]", &mut interner).unwrap();
    assert_eq!(statements.len(), 1);
    match &statements[0] {
        Statement::Expression(Expression::List { expressions, .. }) => {
            assert_eq!(expressions.len(), 2);
            assert!(matches!(expressions[0], Expression::Integer { value: 1, .. }));
            assert!(matches!(expressions[1], Expression::Integer { value: 2, .. }));
        }
        other => panic!("expected a list expression, got {:?}", other),
    }
}

#[test]
fn statements_appear_in_source_order() {
    let mut interner = Interner::new();
    let statements = parse_source("play 1\nwait 2\nlet a = 3", &mut interner).unwrap();
    assert_eq!(statements.len(), 3);
    let spans: Vec<Span> = statements
        .iter()
        .map(|st| match st {
            Statement::Play { expression } => expression.span(),
            Statement::Wait { expression } => expression.span(),
            Statement::Let { name, value } => {
                Span::new(name.span().start(), value.span().end())
            }
            other => panic!("unexpected statement {:?}", other),
        })
        .collect();
    for pair in spans.windows(2) {
        assert!(pair[0].end().index() <= pair[1].start().index());
        assert!(pair[0].start().index() <= pair[1].start().index());
    }
}

#[test]
fn play_and_wait_statements() {
    let mut interner = Interner::new();
    let statements = parse_source("play c4 wait 1", &mut interner).unwrap();
    assert_eq!(statements.len(), 2);
    assert!(matches!(
        &statements[0],
        Statement::Play {
            expression: Expression::Identifier(_)
        }
    ));
    assert!(matches!(
        &statements[1],
        Statement::Wait {
            expression: Expression::Integer { value: 1, .. }
        }
    ));
}

#[test]
fn let_statement_with_binary_value() {
    let mut interner = Interner::new();
    let statements = parse_source("let a = 3 + 2", &mut interner).unwrap();
    assert_eq!(statements.len(), 1);
    match &statements[0] {
        Statement::Let { name, value } => {
            assert_eq!(name.name(), StringId::new("a", &mut interner));
            match value {
                Expression::Binary { operator, .. } => {
                    assert_eq!(operator.kind, BinaryOperatorKind::Plus);
                }
                other => panic!("expected a binary value, got {:?}", other),
            }
        }
        other => panic!("expected a let statement, got {:?}", other),
    }
}

#[test]
fn expression_continues_after_operator_line_break() {
    let mut interner = Interner::new();
    let statements = parse_source("3 +\n2", &mut interner).unwrap();
    assert_eq!(statements.len(), 1);
    match &statements[0] {
        Statement::Expression(Expression::Binary { operator, .. }) => {
            assert_eq!(operator.kind, BinaryOperatorKind::Plus);
        }
        other => panic!("expected one binary expression, got {:?}", other),
    }
}

#[test]
fn load_sample_expression() {
    let mut interner = Interner::new();
    let statements = parse_source("load_sample \"kick.wav\"", &mut interner).unwrap();
    assert_eq!(statements.len(), 1);
    match &statements[0] {
        Statement::Expression(e) => {
            match e {
                Expression::LoadSample { sample, .. } => {
                    assert!(matches!(**sample, Expression::String { .. }));
                }
                other => panic!("expected a load_sample expression, got {:?}", other),
            }
            assert_eq!(e.span().start(), Location::sof());
        }
        other => panic!("expected an expression statement, got {:?}", other),
    }
}

#[test]
fn empty_source_parses_to_no_statements() {
    let mut interner = Interner::new();
    let statements = parse_source("", &mut interner).unwrap();
    assert!(statements.is_empty());
}

#[test]
fn sequence_without_name_is_rejected() {
    let mut interner = Interner::new();
    match parse_source("sequence 1 {}", &mut interner) {
        Err(ParseError::ExpectedIdentifier { got }) => {
            assert!(matches!(got, Token::Integer { value: 1, .. }));
        }
        other => panic!("expected an identifier error, got {:?}", other),
    }
}

#[test]
fn sequence_without_block_is_rejected() {
    let mut interner = Interner::new();
    match parse_source("sequence a 1", &mut interner) {
        Err(ParseError::ExpectedPunctuation { expected, got }) => {
            assert_eq!(expected, Punctuator::LeftBrace);
            assert!(matches!(got, Token::Integer { value: 1, .. }));
        }
        other => panic!("expected a punctuation error, got {:?}", other),
    }
}

#[test]
fn let_without_assignment_is_rejected() {
    let mut interner = Interner::new();
    match parse_source("let a 1", &mut interner) {
        Err(ParseError::ExpectedOperator { expected, got }) => {
            assert_eq!(expected, Operator::Assign);
            assert!(matches!(got, Token::Integer { value: 1, .. }));
        }
        other => panic!("expected an operator error, got {:?}", other),
    }
}

#[test]
fn stray_operator_is_rejected() {
    let mut interner = Interner::new();
    match parse_source("play *", &mut interner) {
        Err(ParseError::ExpectedExpression { got }) => {
            assert!(got.is_operator(Operator::Star));
        }
        other => panic!("expected an expression error, got {:?}", other),
    }
}

#[test]
fn stream_without_terminal_end_of_file_is_rejected() {
    let empty = TokenStream::new();
    assert!(matches!(parse(empty), Err(ParseError::InvalidTokenStream)));

    let mut truncated = TokenStream::new();
    truncated.push(Token::Integer {
        value: 1,
        span: Span::new(Location::sof(), Location::new(1, 1, 1)),
    });
    assert!(matches!(
        parse(truncated),
        Err(ParseError::InvalidTokenStream)
    ));
}

#[test]
fn cursor_saturates_at_end_of_stream() {
    let mut interner = Interner::new();
    let stream = scan("1", &mut interner).unwrap();
    let mut cursor = stream.into_cursor().unwrap();
    assert!(matches!(cursor.next(), Token::Integer { value: 1, .. }));
    assert!(cursor.next().is_end_of_file());
    assert!(cursor.next().is_end_of_file());
    assert!(cursor.peek().is_end_of_file());
}

#[test]
fn full_program_end_to_end() {
    let mut interner = Interner::new();
    let source = "# a tiny piece\n\
                  let tempo = 120\n\
                  sequence intro {\n\
                  \x20   with gain: 2 + 1, pan: 0, {\n\
                  \x20       play load_sample \"kick.wav\"\n\
                  \x20       wait tempo / 4\n\
                  \x20   }\n\
                  }\n";
    let statements = parse_source(source, &mut interner).unwrap();
    assert_eq!(statements.len(), 2);
    assert!(matches!(&statements[0], Statement::Let { .. }));
    match &statements[1] {
        Statement::Sequence { name, block } => {
            assert_eq!(name.name(), StringId::new("intro", &mut interner));
            assert_eq!(block.statements.len(), 1);
            match &block.statements[0] {
                Statement::With { properties, block } => {
                    assert_eq!(properties.len(), 2);
                    assert!(matches!(
                        properties[0].value,
                        Expression::Binary { .. }
                    ));
                    assert_eq!(block.statements.len(), 2);
                    assert!(matches!(
                        &block.statements[0],
                        Statement::Play {
                            expression: Expression::LoadSample { .. }
                        }
                    ));
                    assert!(matches!(
                        &block.statements[1],
                        Statement::Wait {
                            expression: Expression::Binary { .. }
                        }
                    ));
                }
                other => panic!("expected a with statement, got {:?}", other),
            }
        }
        other => panic!("expected a sequence statement, got {:?}", other),
    }
}

#[test]
fn nested_sequence_blocks() {
    let mut interner = Interner::new();
    let statements = parse_source("sequence s {\nplay 1\nwait 2\n}", &mut interner).unwrap();
    assert_eq!(statements.len(), 1);
    match &statements[0] {
        Statement::Sequence { name, block } => {
            assert_eq!(name.name(), StringId::new("s", &mut interner));
            assert_eq!(block.statements.len(), 2);
            assert_eq!(block.span.start(), Location::new(1, 11, 11));
        }
        other => panic!("expected a sequence statement, got {:?}", other),
    }
}
