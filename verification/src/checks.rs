//! Validation checks for SysML v2 models.
//!
//! Each check implements [`Check`]: it takes a [`Model`] and returns the
//! diagnostics it finds.
use vstd::prelude::*;
use crate::diagnostic::{Diagnostic, Severity};
use crate::model::Span;
use crate::model::Model;

pub mod calculations;
pub mod constraints;
pub mod requirements;
pub mod references;

verus! {

/// A validation check that can be run against a model.
pub trait Check {
    /// The name of this check, as text.
    spec fn name_spec(&self) -> Seq<char>;

    /// Unique name of this check.
    fn name(&self) -> (r: &'static str)
        ensures
            r@ == self.name_spec(),
    ;

    /// Run the check and return its diagnostics.
    fn run(&self, model: &Model) -> Vec<Diagnostic>;
}

/// All available checks: unused definitions, unresolved references,
/// unsatisfied and unverified requirements, empty constraints and calc defs
/// without return, in that order.
#[verifier::spinoff_prover]
pub fn all_checks() -> (r: Vec<Box<dyn Check>>)
    ensures
        r@.len() == 6,
        r@[0].name_spec() == "unused"@,
        r@[1].name_spec() == "unresolved"@,
        r@[2].name_spec() == "unsatisfied"@,
        r@[3].name_spec() == "unverified"@,
        r@[4].name_spec() == "constraints"@,
        r@[5].name_spec() == "calculations"@,
{
    let v: Vec<Box<dyn Check>> = vec![
        Box::new(references::UnusedDefCheck),
        Box::new(references::UnresolvedTypeCheck),
        Box::new(requirements::UnsatisfiedReqCheck),
        Box::new(requirements::UnverifiedReqCheck),
        Box::new(constraints::ConstraintCheck),
        Box::new(calculations::CalcReturnCheck),
    ];
    v
}

/// `d` is a diagnostic for `file` at `span` with the given severity, code
/// and message, and no suggestion.
pub open spec fn is_diag(
    d: Diagnostic,
    file: Seq<char>,
    span: Span,
    severity: Severity,
    code: &'static str,
    msg: Seq<char>,
) -> bool {
    &&& d.file@ == file
    &&& d.span == span
    &&& d.severity == severity
    &&& d.code == code
    &&& d.message@ == msg
    &&& d.suggestion is None
}

} // verus!
