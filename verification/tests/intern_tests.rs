use stellar_core::ast::BinaryOperatorKind;
use stellar_core::intern::{Interner, StringId};
use stellar_core::location::{Location, Span};
use stellar_core::token::Operator;

#[test]
fn intern() {
    let mut interner = Interner::new();
    let a = StringId::new("test", &mut interner);
    let b = StringId::new("test", &mut interner);
    let c = StringId::new("test2", &mut interner);

    assert_eq!(a, b);
    assert_ne!(a, c);
    assert_ne!(b, c);
}

#[test]
fn resolve() {
    let mut interner = Interner::new();
    let a = StringId::new("test", &mut interner);
    let b = StringId::new("test2", &mut interner);

    assert_eq!(a.resolve(&interner), "test");
    assert_eq!(b.resolve(&interner), "test2");
}

#[test]
fn interning_is_stable_across_many_calls() {
    let mut interner = Interner::new();
    let first = StringId::new("alpha", &mut interner);
    let _ = StringId::new("beta", &mut interner);
    let _ = StringId::new("gamma", &mut interner);
    let again = StringId::new("alpha", &mut interner);
    assert_eq!(first, again);
    assert_eq!(first.resolve(&interner), "alpha");
}

#[test]
fn location_and_span_accessors() {
    let start = Location::new(2, 4, 10);
    let end = Location::new(2, 7, 13);
    assert_eq!(start.line(), 2);
    assert_eq!(start.column(), 4);
    assert_eq!(start.index(), 10);
    assert_eq!(Location::sof(), Location::new(1, 0, 0));
    let span = Span::new(start, end);
    assert_eq!(span.start(), start);
    assert_eq!(span.end(), end);
    assert_eq!(span.len(), 3);
}

#[test]
fn operator_precedence_table() {
    assert_eq!(BinaryOperatorKind::Assign.precedence(), 1);
    assert_eq!(BinaryOperatorKind::Plus.precedence(), 2);
    assert_eq!(BinaryOperatorKind::Minus.precedence(), 2);
    assert_eq!(BinaryOperatorKind::Star.precedence(), 3);
    assert_eq!(BinaryOperatorKind::Slash.precedence(), 3);
}

#[test]
fn operator_conversions() {
    assert_eq!(
        Operator::Plus.into_binary_operator_kind(),
        Some(BinaryOperatorKind::Plus)
    );
    assert_eq!(
        Operator::Slash.into_binary_operator_kind(),
        Some(BinaryOperatorKind::Slash)
    );
    assert_eq!(Operator::PlusEq.into_binary_operator_kind(), None);
    assert_eq!(Operator::Eq.into_binary_operator_kind(), None);
    assert!(Operator::Exclamation.into_prefix_operator_kind().is_some());
    assert!(Operator::Plus.into_prefix_operator_kind().is_none());
}
