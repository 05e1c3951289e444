//! Checks for unsatisfied and unverified requirements.
use vstd::prelude::*;
use crate::cache::{filter_seq, lemma_filter_take};
use crate::checks::{is_diag, Check};
use crate::diagnostic::codes;
use crate::diagnostic::{message3, Diagnostic, Severity};
use crate::model::{simple_name, simple_name_spec, DefKind, Definition, Model};
use crate::text::str_eq;

verus! {

/// Some satisfy statement names requirement `name` (by its simple name).
pub open spec fn is_satisfied(m: Model, name: Seq<char>) -> bool {
    exists|j: int| 0 <= j < m.satisfactions@.len() && simple_name_spec(#[trigger] m.satisfactions@[j].requirement@) == name
}

/// Some verify statement names requirement `name` (by its simple name).
pub open spec fn is_verified(m: Model, name: Seq<char>) -> bool {
    exists|j: int| 0 <= j < m.verifications@.len() && simple_name_spec(#[trigger] m.verifications@[j].requirement@) == name
}

/// A requirement def without any satisfy statement.
pub open spec fn unsatisfied(m: Model, d: Definition) -> bool {
    d.kind == DefKind::Requirement && !is_satisfied(m, d.name@)
}

/// A requirement def without any verify statement.
pub open spec fn unverified(m: Model, d: Definition) -> bool {
    d.kind == DefKind::Requirement && !is_verified(m, d.name@)
}

/// Whether some satisfy statement names `name`.
fn satisfied_exec(m: &Model, name: &str) -> (r: bool)
    ensures
        r == is_satisfied(*m, name@),
{
    let mut j: usize = 0;
    while j < m.satisfactions.len()
        invariant
            j <= m.satisfactions@.len(),
            forall|k: int| 0 <= k < j ==> simple_name_spec(#[trigger] m.satisfactions@[k].requirement@) != name@,
        decreases m.satisfactions@.len() - j,
    {
        if str_eq(simple_name(m.satisfactions[j].requirement.as_str()), name) {
            return true;
        }
        j = j + 1;
    }
    false
}

/// Whether some verify statement names `name`.
fn verified_exec(m: &Model, name: &str) -> (r: bool)
    ensures
        r == is_verified(*m, name@),
{
    let mut j: usize = 0;
    while j < m.verifications.len()
        invariant
            j <= m.verifications@.len(),
            forall|k: int| 0 <= k < j ==> simple_name_spec(#[trigger] m.verifications@[k].requirement@) != name@,
        decreases m.verifications@.len() - j,
    {
        if str_eq(simple_name(m.verifications[j].requirement.as_str()), name) {
            return true;
        }
        j = j + 1;
    }
    false
}

/// The message for an unsatisfied requirement.
pub open spec fn unsatisfied_message(d: Definition) -> Seq<char> {
    "requirement def `"@ + d.name@ + "` has no corresponding satisfy statement"@
}

/// The message for an unverified requirement.
pub open spec fn unverified_message(d: Definition) -> Seq<char> {
    "requirement def `"@ + d.name@ + "` has no corresponding verify statement"@
}

/// Flags requirement defs that no satisfy statement names.
pub struct UnsatisfiedReqCheck;

impl Check for UnsatisfiedReqCheck {
    open spec fn name_spec(&self) -> Seq<char> {
        "unsatisfied"@
    }

    fn name(&self) -> (r: &'static str)
    {
        "unsatisfied"
    }

    fn run(&self, model: &Model) -> (r: Vec<Diagnostic>)
        ensures
            r@.len() == filter_seq(model.definitions@, |d: Definition| unsatisfied(*model, d)).len(),
            forall|i: int|
                0 <= i < r@.len() ==> {
                    let d = filter_seq(model.definitions@, |d: Definition| unsatisfied(*model, d))[i];
                    is_diag(#[trigger] r@[i], model.file@, d.span, Severity::Warning, codes::UNSATISFIED_REQ, unsatisfied_message(d))
                },
    {
        let ghost f = |d: Definition| unsatisfied(*model, d);
        let mut out: Vec<Diagnostic> = Vec::new();
        let mut i: usize = 0;
        while i < model.definitions.len()
            invariant
                i <= model.definitions@.len(),
                forall|x: Definition| #[trigger] f(x) == unsatisfied(*model, x),
                out@.len() == filter_seq(model.definitions@.take(i as int), f).len(),
                forall|k: int|
                    0 <= k < out@.len() ==> {
                        let d = filter_seq(model.definitions@.take(i as int), f)[k];
                        is_diag(#[trigger] out@[k], model.file@, d.span, Severity::Warning, codes::UNSATISFIED_REQ, unsatisfied_message(d))
                    },
            decreases model.definitions@.len() - i,
        {
            proof {
                lemma_filter_take(model.definitions@, f, i as int);
            }
            let d = &model.definitions[i];
            if d.kind == DefKind::Requirement && !satisfied_exec(model, d.name.as_str()) {
                let msg = message3("requirement def `", d.name.as_str(), "` has no corresponding satisfy statement");
                out.push(Diagnostic::warning(model.file.as_str(), d.span, codes::UNSATISFIED_REQ, msg));
            }
            i = i + 1;
        }
        assert(model.definitions@.take(model.definitions@.len() as int) =~= model.definitions@);
        out
    }
}

/// Flags requirement defs that no verify statement names.
pub struct UnverifiedReqCheck;

impl Check for UnverifiedReqCheck {
    open spec fn name_spec(&self) -> Seq<char> {
        "unverified"@
    }

    fn name(&self) -> (r: &'static str)
    {
        "unverified"
    }

    fn run(&self, model: &Model) -> (r: Vec<Diagnostic>)
        ensures
            r@.len() == filter_seq(model.definitions@, |d: Definition| unverified(*model, d)).len(),
            forall|i: int|
                0 <= i < r@.len() ==> {
                    let d = filter_seq(model.definitions@, |d: Definition| unverified(*model, d))[i];
                    is_diag(#[trigger] r@[i], model.file@, d.span, Severity::Warning, codes::UNVERIFIED_REQ, unverified_message(d))
                },
    {
        let ghost f = |d: Definition| unverified(*model, d);
        let mut out: Vec<Diagnostic> = Vec::new();
        let mut i: usize = 0;
        while i < model.definitions.len()
            invariant
                i <= model.definitions@.len(),
                forall|x: Definition| #[trigger] f(x) == unverified(*model, x),
                out@.len() == filter_seq(model.definitions@.take(i as int), f).len(),
                forall|k: int|
                    0 <= k < out@.len() ==> {
                        let d = filter_seq(model.definitions@.take(i as int), f)[k];
                        is_diag(#[trigger] out@[k], model.file@, d.span, Severity::Warning, codes::UNVERIFIED_REQ, unverified_message(d))
                    },
            decreases model.definitions@.len() - i,
        {
            proof {
                lemma_filter_take(model.definitions@, f, i as int);
            }
            let d = &model.definitions[i];
            if d.kind == DefKind::Requirement && !verified_exec(model, d.name.as_str()) {
                let msg = message3("requirement def `", d.name.as_str(), "` has no corresponding verify statement");
                out.push(Diagnostic::warning(model.file.as_str(), d.span, codes::UNVERIFIED_REQ, msg));
            }
            i = i + 1;
        }
        assert(model.definitions@.take(model.definitions@.len() as int) =~= model.definitions@);
        out
    }
}

/// A requirement def that some satisfy statement names (by its simple
/// name) is never reported as unsatisfied; one that none names is.
pub proof fn law_unsatisfied_by_satisfy(m: Model, d: Definition)
    ensures
        (exists|j: int| 0 <= j < m.satisfactions@.len() && simple_name_spec(#[trigger] m.satisfactions@[j].requirement@) == d.name@)
            ==> !unsatisfied(m, d),
        d.kind == DefKind::Requirement && (forall|j: int|
            0 <= j < m.satisfactions@.len() ==> simple_name_spec(#[trigger] m.satisfactions@[j].requirement@) != d.name@)
            ==> unsatisfied(m, d),
        d.kind != DefKind::Requirement ==> !unsatisfied(m, d),
{
}

/// Which requirement defs are unsatisfied does not depend on the model's
/// verify statements.
pub proof fn law_unsatisfied_ignores_verify(m: Model, v: Vec<crate::model::Verification>, d: Definition)
    ensures
        unsatisfied(m, d) == unsatisfied(Model { verifications: v, ..m }, d),
        filter_seq(m.definitions@, |x: Definition| unsatisfied(m, x)) == filter_seq(
            m.definitions@,
            |x: Definition| unsatisfied(Model { verifications: v, ..m }, x),
        ),
{
    let m2 = Model { verifications: v, ..m };
    assert((|x: Definition| unsatisfied(m, x)) =~= (|x: Definition| unsatisfied(m2, x)));
}

/// A requirement def that some verify statement names is never reported as
/// unverified; one that none names is; and which are unverified does not
/// depend on the satisfy statements.
pub proof fn law_unverified_by_verify(m: Model, s: Vec<crate::model::Satisfaction>, d: Definition)
    ensures
        (exists|j: int| 0 <= j < m.verifications@.len() && simple_name_spec(#[trigger] m.verifications@[j].requirement@) == d.name@)
            ==> !unverified(m, d),
        d.kind == DefKind::Requirement && (forall|j: int|
            0 <= j < m.verifications@.len() ==> simple_name_spec(#[trigger] m.verifications@[j].requirement@) != d.name@)
            ==> unverified(m, d),
        unverified(m, d) == unverified(Model { satisfactions: s, ..m }, d),
{
    let m2 = Model { satisfactions: s, ..m };
    assert(m2.verifications == m.verifications);
    assert(is_verified(m, d.name@) == is_verified(m2, d.name@));
}

} // verus!
