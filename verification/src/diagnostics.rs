//! Structured diagnostics.
//!
//! A diagnostic is a severity, a message, labeled source spans tagged
//! primary or secondary, and optional notes. Messages and labels are
//! structured data over symbols, counts and kinds; rendering them to text,
//! with colors and a terminal, is entirely the sink's responsibility.

use vstd::prelude::*;

use crate::ast::{Span, Symbol};
use crate::errors::{ArityWhat, LowerError, NameKind};

verus! {

/// How severe a diagnostic is.
#[derive(Clone, Copy, Debug, PartialEq, Eq, Structural)]
pub enum Severity {
    Bug,
    Error,
    Warning,
}

/// Whether a labeled span is the main site of the diagnostic or supporting
/// context.
#[derive(Clone, Copy, Debug, PartialEq, Eq, Structural)]
pub enum LabelStyle {
    Primary,
    Secondary,
}

/// The message of a diagnostic, one variant per message the lowering pass
/// can produce.
#[derive(Clone, Copy, Debug, PartialEq, Eq, Structural)]
pub enum Message {
    /// "reuse of parameter name `<name>`"
    ReuseOfParameterName { name: Symbol },
    /// "parameter `<name>` shadows a generic parameter"
    ParameterShadowsGeneric { name: Symbol },
    /// "reuse of field name `<name>`"
    ReuseOfFieldName { name: Symbol },
    /// "redefinition of name `<name>`"
    RedefinitionOfName { name: Symbol },
    /// "undefined name `<name>`"
    UndefinedName { name: Symbol },
    /// "no <kind> with name `<name>`"
    NoKindWithName { kind: NameKind, name: Symbol },
    /// "expected value, found <found>"
    ExpectedValueFound { found: NameKind },
    /// "expected <expected>, found <found>"
    ExpectedKindFound { expected: NameKind, found: NameKind },
    /// "`<callee>` takes <expected> <what>[s], found <found>"; `plural`
    /// says whether the "s" is attached, and holds exactly when `expected`
    /// is not one.
    WrongArity { callee: Symbol, expected: usize, what: ArityWhat, plural: bool, found: usize },
    /// "`<field>` is not a field of `<ty>`"
    NotAField { field: Symbol, ty: Symbol },
    /// "field `<name>` specified more than once"
    FieldSpecifiedMoreThanOnce { name: Symbol },
    /// "missing field `<field>` in initializer for `<ty>`"
    MissingFieldInInitializer { field: Symbol, ty: Symbol },
}

/// The text attached to one labeled span.
#[derive(Clone, Copy, Debug, PartialEq, Eq, Structural)]
pub enum LabelText {
    /// "parameter name already used"
    ParameterNameAlreadyUsed,
    /// "name first used here"
    NameFirstUsedHere,
    /// "shadows a generic parameter"
    ShadowsAGenericParameter,
    /// "field first declared here"
    FieldFirstDeclaredHere,
    /// "field name already used"
    FieldNameAlreadyUsed,
    /// "name first defined here"
    NameFirstDefinedHere,
    /// "name already defined"
    NameAlreadyDefined,
    /// "undefined name"
    UndefinedName,
    /// "<kind> not found"
    KindNotFound { kind: NameKind },
    /// "expected value"
    ExpectedValue,
    /// "not a type"
    NotAType,
    /// "struct not callable"
    StructNotCallable,
    /// "not a struct type"
    NotAStructType,
    /// "expected <expected> <what>[s]"; `plural` as in `WrongArity`.
    ExpectedArity { expected: usize, what: ArityWhat, plural: bool },
    /// "no such field"
    NoSuchField,
    /// "field already initialized"
    FieldAlreadyInitialized,
    /// "incomplete initializer"
    IncompleteInitializer,
}

/// One labeled source span of a diagnostic.
#[derive(Clone, Copy, Debug, PartialEq, Eq, Structural)]
pub struct Label {
    pub style: LabelStyle,
    pub span: Span,
    pub text: LabelText,
}

/// A structured report for the diagnostic sink.
#[derive(Debug)]
pub struct Diagnostic {
    pub severity: Severity,
    pub message: Option<Message>,
    pub labels: Vec<Label>,
    pub notes: Vec<Message>,
}

/// The mathematical value of a diagnostic.
pub ghost struct DiagnosticSpec {
    pub severity: Severity,
    pub message: Option<Message>,
    pub labels: Seq<Label>,
    pub notes: Seq<Message>,
}

impl Diagnostic {
    /// The diagnostic as a mathematical value.
    pub open spec fn view(self) -> DiagnosticSpec {
        DiagnosticSpec {
            severity: self.severity,
            message: self.message,
            labels: self.labels@,
            notes: self.notes@,
        }
    }

    /// Starts a diagnostic for an internal fault.
    pub fn bug() -> (r: Diagnostic)
        ensures
            r@ == (DiagnosticSpec {
                severity: Severity::Bug,
                message: None,
                labels: Seq::empty(),
                notes: Seq::empty(),
            }),
    {
        Diagnostic { severity: Severity::Bug, message: None, labels: Vec::new(), notes: Vec::new() }
    }

    /// Starts an error diagnostic.
    pub fn error() -> (r: Diagnostic)
        ensures
            r@ == (DiagnosticSpec {
                severity: Severity::Error,
                message: None,
                labels: Seq::empty(),
                notes: Seq::empty(),
            }),
    {
        Diagnostic {
            severity: Severity::Error,
            message: None,
            labels: Vec::new(),
            notes: Vec::new(),
        }
    }

    /// Starts a warning diagnostic.
    pub fn warning() -> (r: Diagnostic)
        ensures
            r@ == (DiagnosticSpec {
                severity: Severity::Warning,
                message: None,
                labels: Seq::empty(),
                notes: Seq::empty(),
            }),
    {
        Diagnostic {
            severity: Severity::Warning,
            message: None,
            labels: Vec::new(),
            notes: Vec::new(),
        }
    }

    /// Sets the message.
    pub fn with_message(self, message: Message) -> (r: Diagnostic)
        ensures
            r@ == (DiagnosticSpec { message: Some(message), ..self@ }),
    {
        Diagnostic {
            severity: self.severity,
            message: Some(message),
            labels: self.labels,
            notes: self.notes,
        }
    }

    /// Adds a primary label: the main site of the diagnostic.
    pub fn with_primary(self, span: Span, text: LabelText) -> (r: Diagnostic)
        ensures
            r@ == (DiagnosticSpec {
                labels: self@.labels.push(
                    Label { style: LabelStyle::Primary, span, text },
                ),
                ..self@
            }),
    {
        let mut labels = self.labels;
        labels.push(Label { style: LabelStyle::Primary, span, text });
        Diagnostic { severity: self.severity, message: self.message, labels, notes: self.notes }
    }

    /// Adds a secondary label: supporting context.
    pub fn with_secondary(self, span: Span, text: LabelText) -> (r: Diagnostic)
        ensures
            r@ == (DiagnosticSpec {
                labels: self@.labels.push(
                    Label { style: LabelStyle::Secondary, span, text },
                ),
                ..self@
            }),
    {
        let mut labels = self.labels;
        labels.push(Label { style: LabelStyle::Secondary, span, text });
        Diagnostic { severity: self.severity, message: self.message, labels, notes: self.notes }
    }

    /// Adds a free-text note.
    pub fn with_note(self, note: Message) -> (r: Diagnostic)
        ensures
            r@ == (DiagnosticSpec { notes: self@.notes.push(note), ..self@ }),
    {
        let mut notes = self.notes;
        notes.push(note);
        Diagnostic { severity: self.severity, message: self.message, labels: self.labels, notes }
    }
}

/// The label attached to a wrong-namespace reference, determined by what
/// was expected and what the name turned out to be.
pub open spec fn spec_kind_label(expected: NameKind, found: NameKind) -> LabelText {
    match (expected, found) {
        (NameKind::Type, _) => LabelText::NotAType,
        (NameKind::Function, _) => LabelText::StructNotCallable,
        (NameKind::Struct, _) => LabelText::NotAStructType,
    }
}

/// The diagnostic that a semantic error turns into.
pub open spec fn spec_diagnostic_of(e: LowerError) -> DiagnosticSpec {
    match e {
        LowerError::ReusedParameter(err) => DiagnosticSpec {
            severity: Severity::Error,
            message: Some(Message::ReuseOfParameterName { name: err.second.symbol }),
            labels: seq![
                Label {
                    style: LabelStyle::Primary,
                    span: err.second.span,
                    text: LabelText::ParameterNameAlreadyUsed,
                },
            ],
            notes: Seq::empty(),
        },
        LowerError::ShadowedGeneric(err) => DiagnosticSpec {
            severity: Severity::Error,
            message: Some(Message::ParameterShadowsGeneric { name: err.second.symbol }),
            labels: seq![
                Label {
                    style: LabelStyle::Secondary,
                    span: err.first.span,
                    text: LabelText::NameFirstUsedHere,
                },
                Label {
                    style: LabelStyle::Primary,
                    span: err.second.span,
                    text: LabelText::ShadowsAGenericParameter,
                },
            ],
            notes: Seq::empty(),
        },
        LowerError::RedeclaredField(err) => DiagnosticSpec {
            severity: Severity::Error,
            message: Some(Message::ReuseOfFieldName { name: err.first.symbol }),
            labels: seq![
                Label {
                    style: LabelStyle::Secondary,
                    span: err.first.span,
                    text: LabelText::FieldFirstDeclaredHere,
                },
                Label {
                    style: LabelStyle::Primary,
                    span: err.second.span,
                    text: LabelText::FieldNameAlreadyUsed,
                },
            ],
            notes: Seq::empty(),
        },
        LowerError::RedefinedName(err) => DiagnosticSpec {
            severity: Severity::Error,
            message: Some(Message::RedefinitionOfName { name: err.first.symbol }),
            labels: seq![
                Label {
                    style: LabelStyle::Secondary,
                    span: err.first.span,
                    text: LabelText::NameFirstDefinedHere,
                },
                Label {
                    style: LabelStyle::Primary,
                    span: err.second.span,
                    text: LabelText::NameAlreadyDefined,
                },
            ],
            notes: Seq::empty(),
        },
        LowerError::UndefinedName(err) => DiagnosticSpec {
            severity: Severity::Error,
            message: Some(Message::UndefinedName { name: err.name.symbol }),
            labels: seq![
                Label {
                    style: LabelStyle::Primary,
                    span: err.name.span,
                    text: LabelText::UndefinedName,
                },
            ],
            notes: Seq::empty(),
        },
        LowerError::KindNotFound(err) => DiagnosticSpec {
            severity: Severity::Error,
            message: Some(Message::NoKindWithName { kind: err.kind, name: err.name.symbol }),
            labels: seq![
                Label {
                    style: LabelStyle::Primary,
                    span: err.name.span,
                    text: LabelText::KindNotFound { kind: err.kind },
                },
            ],
            notes: Seq::empty(),
        },
        LowerError::UnexpectedItem(err) => DiagnosticSpec {
            severity: Severity::Error,
            message: Some(Message::ExpectedValueFound { found: err.kind }),
            labels: seq![
                Label {
                    style: LabelStyle::Primary,
                    span: err.name.span,
                    text: LabelText::ExpectedValue,
                },
            ],
            notes: Seq::empty(),
        },
        LowerError::UnexpectedKind(err) => DiagnosticSpec {
            severity: Severity::Error,
            message: Some(
                Message::ExpectedKindFound { expected: err.expected, found: err.found },
            ),
            labels: seq![
                Label {
                    style: LabelStyle::Primary,
                    span: err.name.span,
                    text: spec_kind_label(err.expected, err.found),
                },
            ],
            notes: Seq::empty(),
        },
        LowerError::ArityMismatch(err) => DiagnosticSpec {
            severity: Severity::Error,
            message: Some(
                Message::WrongArity {
                    callee: err.callee.symbol,
                    expected: err.expected,
                    what: err.what,
                    plural: err.expected != 1,
                    found: err.found,
                },
            ),
            labels: seq![
                Label {
                    style: LabelStyle::Primary,
                    span: err.callee.span,
                    text: LabelText::ExpectedArity {
                        expected: err.expected,
                        what: err.what,
                        plural: err.expected != 1,
                    },
                },
            ],
            notes: Seq::empty(),
        },
        LowerError::UnexpectedField(err) => DiagnosticSpec {
            severity: Severity::Error,
            message: Some(
                Message::NotAField { field: err.field.symbol, ty: err.ty.symbol },
            ),
            labels: seq![
                Label {
                    style: LabelStyle::Primary,
                    span: err.field.span,
                    text: LabelText::NoSuchField,
                },
            ],
            notes: Seq::empty(),
        },
        LowerError::DuplicateField(err) => DiagnosticSpec {
            severity: Severity::Error,
            message: Some(Message::FieldSpecifiedMoreThanOnce { name: err.second.symbol }),
            labels: seq![
                Label {
                    style: LabelStyle::Primary,
                    span: err.second.span,
                    text: LabelText::FieldAlreadyInitialized,
                },
            ],
            notes: Seq::empty(),
        },
        LowerError::MissingField(err) => DiagnosticSpec {
            severity: Severity::Error,
            message: Some(
                Message::MissingFieldInInitializer { field: err.field.symbol, ty: err.ty.symbol },
            ),
            labels: seq![
                Label {
                    style: LabelStyle::Primary,
                    span: err.ty.span,
                    text: LabelText::IncompleteInitializer,
                },
            ],
            notes: Seq::empty(),
        },
    }
}

impl LowerError {
    /// Builds the diagnostic for this error: severity, message and labeled
    /// spans exactly as `spec_diagnostic_of` defines them.
    pub fn to_diagnostic(&self) -> (r: Diagnostic)
        ensures
            r@ == spec_diagnostic_of(*self),
    {
        let r = match *self {
            LowerError::ReusedParameter(err) => Diagnostic::error().with_message(
                Message::ReuseOfParameterName { name: err.second.symbol },
            ).with_primary(err.second.span, LabelText::ParameterNameAlreadyUsed),
            LowerError::ShadowedGeneric(err) => Diagnostic::error().with_message(
                Message::ParameterShadowsGeneric { name: err.second.symbol },
            ).with_secondary(err.first.span, LabelText::NameFirstUsedHere).with_primary(
                err.second.span,
                LabelText::ShadowsAGenericParameter,
            ),
            LowerError::RedeclaredField(err) => Diagnostic::error().with_message(
                Message::ReuseOfFieldName { name: err.first.symbol },
            ).with_secondary(err.first.span, LabelText::FieldFirstDeclaredHere).with_primary(
                err.second.span,
                LabelText::FieldNameAlreadyUsed,
            ),
            LowerError::RedefinedName(err) => Diagnostic::error().with_message(
                Message::RedefinitionOfName { name: err.first.symbol },
            ).with_secondary(err.first.span, LabelText::NameFirstDefinedHere).with_primary(
                err.second.span,
                LabelText::NameAlreadyDefined,
            ),
            LowerError::UndefinedName(err) => Diagnostic::error().with_message(
                Message::UndefinedName { name: err.name.symbol },
            ).with_primary(err.name.span, LabelText::UndefinedName),
            LowerError::KindNotFound(err) => Diagnostic::error().with_message(
                Message::NoKindWithName { kind: err.kind, name: err.name.symbol },
            ).with_primary(err.name.span, LabelText::KindNotFound { kind: err.kind }),
            LowerError::UnexpectedItem(err) => Diagnostic::error().with_message(
                Message::ExpectedValueFound { found: err.kind },
            ).with_primary(err.name.span, LabelText::ExpectedValue),
            LowerError::UnexpectedKind(err) => {
                let text = match err.expected {
                    NameKind::Type => LabelText::NotAType,
                    NameKind::Function => LabelText::StructNotCallable,
                    NameKind::Struct => LabelText::NotAStructType,
                };
                Diagnostic::error().with_message(
                    Message::ExpectedKindFound { expected: err.expected, found: err.found },
                ).with_primary(err.name.span, text)
            },
            LowerError::ArityMismatch(err) => {
                let plural = err.expected != 1;
                Diagnostic::error().with_message(
                    Message::WrongArity {
                        callee: err.callee.symbol,
                        expected: err.expected,
                        what: err.what,
                        plural,
                        found: err.found,
                    },
                ).with_primary(
                    err.callee.span,
                    LabelText::ExpectedArity { expected: err.expected, what: err.what, plural },
                )
            },
            LowerError::UnexpectedField(err) => Diagnostic::error().with_message(
                Message::NotAField { field: err.field.symbol, ty: err.ty.symbol },
            ).with_primary(err.field.span, LabelText::NoSuchField),
            LowerError::DuplicateField(err) => Diagnostic::error().with_message(
                Message::FieldSpecifiedMoreThanOnce { name: err.second.symbol },
            ).with_primary(err.second.span, LabelText::FieldAlreadyInitialized),
            LowerError::MissingField(err) => Diagnostic::error().with_message(
                Message::MissingFieldInInitializer {
                    field: err.field.symbol,
                    ty: err.ty.symbol,
                },
            ).with_primary(err.ty.span, LabelText::IncompleteInitializer),
        };
        proof {
            assert(r@.labels =~= spec_diagnostic_of(*self).labels);
            assert(r@.notes =~= spec_diagnostic_of(*self).notes);
        }
        r
    }
}

/// The suffix that pluralizes "argument" or "generic argument": empty
/// exactly for a count of one, and "s" otherwise.
pub fn plural_suffix(count: usize) -> (r: &'static str)
    ensures
        count == 1 ==> r@ == ""@,
        count != 1 ==> r@ == "s"@,
{
    if count == 1 {
        ""
    } else {
        "s"
    }
}

} // verus!
