//! Diagnostic types for validation results.
use vstd::prelude::*;
use crate::model::Span;
use crate::text::{own, push_str};

/// Diagnostic codes.
pub mod codes;

verus! {

/// How serious a diagnostic is.
#[derive(Debug, Clone, Copy, PartialEq, Eq, PartialOrd, Ord, Structural)]
pub enum Severity {
    Note,
    Warning,
    Error,
}

impl Severity {
    /// The lower-case name of the severity.
    pub fn to_string(&self) -> (r: String)
        ensures
            r@ == (match *self {
                Severity::Note => "note"@,
                Severity::Warning => "warning"@,
                Severity::Error => "error"@,
            }),
    {
        match self {
            Severity::Note => own("note"),
            Severity::Warning => own("warning"),
            Severity::Error => own("error"),
        }
    }
}

/// A finding reported against a source location.
#[derive(Debug, Clone)]
pub struct Diagnostic {
    pub file: String,
    pub span: Span,
    pub severity: Severity,
    pub code: &'static str,
    pub message: String,
    /// An optional hint such as "did you mean `X`?".
    pub suggestion: Option<String>,
}

impl Diagnostic {
    /// A diagnostic with error severity.
    pub fn error(file: &str, span: Span, code: &'static str, message: String) -> (r: Self)
        ensures
            r.file@ == file@,
            r.span == span,
            r.severity == Severity::Error,
            r.code == code,
            r.message == message,
            r.suggestion is None,
    {
        Diagnostic {
            file: own(file),
            span,
            severity: Severity::Error,
            code,
            message,
            suggestion: None,
        }
    }

    /// A diagnostic with warning severity.
    pub fn warning(file: &str, span: Span, code: &'static str, message: String) -> (r: Self)
        ensures
            r.file@ == file@,
            r.span == span,
            r.severity == Severity::Warning,
            r.code == code,
            r.message == message,
            r.suggestion is None,
    {
        Diagnostic {
            file: own(file),
            span,
            severity: Severity::Warning,
            code,
            message,
            suggestion: None,
        }
    }

    /// A diagnostic with note severity.
    pub fn note(file: &str, span: Span, code: &'static str, message: String) -> (r: Self)
        ensures
            r.file@ == file@,
            r.span == span,
            r.severity == Severity::Note,
            r.code == code,
            r.message == message,
            r.suggestion is None,
    {
        Diagnostic {
            file: own(file),
            span,
            severity: Severity::Note,
            code,
            message,
            suggestion: None,
        }
    }

    /// The same diagnostic with a suggestion attached.
    pub fn with_suggestion(self, suggestion: String) -> (r: Self)
        ensures
            r.file == self.file,
            r.span == self.span,
            r.severity == self.severity,
            r.code == self.code,
            r.message == self.message,
            r.suggestion == Some(suggestion),
    {
        Diagnostic { suggestion: Some(suggestion), ..self }
    }
}

/// A message made of a prefix, a name and a suffix.
pub fn message3(a: &str, name: &str, b: &str) -> (r: String)
    ensures
        r@ == a@ + name@ + b@,
{
    let mut s = own(a);
    push_str(&mut s, name);
    push_str(&mut s, b);
    s
}

} // verus!
