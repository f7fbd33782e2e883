//! Tests for structured diagnostics: builders, the diagnostics each error
//! turns into, and pluralization of arity messages.

use adpl::ast::{Id, Span, Symbol};
use adpl::diagnostics::{plural_suffix, Diagnostic, LabelStyle, LabelText, Message, Severity};
use adpl::errors::{ArityMismatch, ArityWhat, LowerError, NameKind, ShadowedGeneric, UnexpectedKind};

fn ident(id: u32, start: usize) -> Id {
    Id { symbol: Symbol { id }, span: Span::new(start, start + 1) }
}

#[test]
fn builders_accumulate_labels_in_order() {
    let d = Diagnostic::error()
        .with_message(Message::UndefinedName { name: Symbol { id: 3 } })
        .with_secondary(Span::new(1, 2), LabelText::NameFirstUsedHere)
        .with_primary(Span::new(5, 6), LabelText::UndefinedName);
    assert_eq!(d.severity, Severity::Error);
    assert_eq!(d.message, Some(Message::UndefinedName { name: Symbol { id: 3 } }));
    assert_eq!(d.labels.len(), 2);
    assert_eq!(d.labels[0].style, LabelStyle::Secondary);
    assert_eq!(d.labels[0].span, Span::new(1, 2));
    assert_eq!(d.labels[1].style, LabelStyle::Primary);
    assert_eq!(d.labels[1].text, LabelText::UndefinedName);
    assert!(d.notes.is_empty());
}

#[test]
fn severities_match_their_constructors() {
    assert_eq!(Diagnostic::bug().severity, Severity::Bug);
    assert_eq!(Diagnostic::error().severity, Severity::Error);
    assert_eq!(Diagnostic::warning().severity, Severity::Warning);
}

#[test]
fn shadowed_generic_diagnostic_cites_both_spans() {
    let err = LowerError::ShadowedGeneric(ShadowedGeneric {
        first: ident(1, 10),
        second: ident(1, 20),
    });
    let d = err.to_diagnostic();
    assert_eq!(d.severity, Severity::Error);
    assert_eq!(d.message, Some(Message::ParameterShadowsGeneric { name: Symbol { id: 1 } }));
    assert_eq!(d.labels.len(), 2);
    assert_eq!(d.labels[0].style, LabelStyle::Secondary);
    assert_eq!(d.labels[0].span, Span::new(10, 11));
    assert_eq!(d.labels[1].style, LabelStyle::Primary);
    assert_eq!(d.labels[1].span, Span::new(20, 21));
    assert_eq!(d.labels[1].text, LabelText::ShadowsAGenericParameter);
}

#[test]
fn wrong_kind_labels_depend_on_what_was_expected() {
    let call_a_struct = LowerError::UnexpectedKind(UnexpectedKind {
        name: ident(2, 0),
        expected: NameKind::Function,
        found: NameKind::Struct,
    });
    assert_eq!(call_a_struct.to_diagnostic().labels[0].text, LabelText::StructNotCallable);

    let construct_a_def = LowerError::UnexpectedKind(UnexpectedKind {
        name: ident(2, 0),
        expected: NameKind::Struct,
        found: NameKind::Function,
    });
    assert_eq!(construct_a_def.to_diagnostic().labels[0].text, LabelText::NotAStructType);

    let type_a_def = LowerError::UnexpectedKind(UnexpectedKind {
        name: ident(2, 0),
        expected: NameKind::Type,
        found: NameKind::Function,
    });
    assert_eq!(type_a_def.to_diagnostic().labels[0].text, LabelText::NotAType);
}

#[test]
fn arity_diagnostic_reports_both_counts_and_pluralizes() {
    let one = LowerError::ArityMismatch(ArityMismatch {
        callee: ident(4, 0),
        expected: 1,
        found: 3,
        what: ArityWhat::Argument,
    });
    match one.to_diagnostic().message {
        Some(Message::WrongArity { expected, found, plural, what, .. }) => {
            assert_eq!(expected, 1);
            assert_eq!(found, 3);
            assert_eq!(what, ArityWhat::Argument);
            assert!(!plural);
        },
        other => panic!("unexpected message {:?}", other),
    }

    let two = LowerError::ArityMismatch(ArityMismatch {
        callee: ident(4, 0),
        expected: 2,
        found: 1,
        what: ArityWhat::GenericArgument,
    });
    match two.to_diagnostic().message {
        Some(Message::WrongArity { expected, found, plural, what, .. }) => {
            assert_eq!(expected, 2);
            assert_eq!(found, 1);
            assert_eq!(what, ArityWhat::GenericArgument);
            assert!(plural);
        },
        other => panic!("unexpected message {:?}", other),
    }
}

#[test]
fn plural_suffix_is_empty_exactly_for_one() {
    assert_eq!(plural_suffix(0), "s");
    assert_eq!(plural_suffix(1), "");
    assert_eq!(plural_suffix(2), "s");
    assert_eq!(plural_suffix(100), "s");
}
