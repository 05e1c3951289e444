//! Checks for constraint definitions missing constraint expressions.
use vstd::prelude::*;
use crate::cache::{filter_seq, lemma_filter_take};
use crate::checks::{is_diag, Check};
use crate::diagnostic::codes;
use crate::diagnostic::{message3, Diagnostic, Severity};
use crate::model::{DefKind, Definition, Model};

verus! {

/// A constraint def with a body but no constraint expression.
pub open spec fn empty_constraint(d: Definition) -> bool {
    d.kind == DefKind::Constraint && d.has_body && !d.has_constraint_expr
}

/// The message for an empty constraint def.
pub open spec fn constraint_message(d: Definition) -> Seq<char> {
    "constraint def `"@ + d.name@ + "` has a body but no constraint expression"@
}

/// Flags constraint defs that have a body but no constraint expression.
pub struct ConstraintCheck;

impl Check for ConstraintCheck {
    open spec fn name_spec(&self) -> Seq<char> {
        "constraints"@
    }

    fn name(&self) -> (r: &'static str)
    {
        "constraints"
    }

    fn run(&self, model: &Model) -> (r: Vec<Diagnostic>)
        ensures
            r@.len() == filter_seq(model.definitions@, |d: Definition| empty_constraint(d)).len(),
            forall|i: int|
                0 <= i < r@.len() ==> {
                    let d = filter_seq(model.definitions@, |d: Definition| empty_constraint(d))[i];
                    is_diag(#[trigger] r@[i], model.file@, d.span, Severity::Warning, codes::EMPTY_CONSTRAINT, constraint_message(d))
                },
    {
        let ghost f = |d: Definition| empty_constraint(d);
        let mut out: Vec<Diagnostic> = Vec::new();
        let mut i: usize = 0;
        while i < model.definitions.len()
            invariant
                i <= model.definitions@.len(),
                forall|x: Definition| #[trigger] f(x) == empty_constraint(x),
                out@.len() == filter_seq(model.definitions@.take(i as int), f).len(),
                forall|k: int|
                    0 <= k < out@.len() ==> {
                        let d = filter_seq(model.definitions@.take(i as int), f)[k];
                        is_diag(#[trigger] out@[k], model.file@, d.span, Severity::Warning, codes::EMPTY_CONSTRAINT, constraint_message(d))
                    },
            decreases model.definitions@.len() - i,
        {
            proof {
                lemma_filter_take(model.definitions@, f, i as int);
            }
            let d = &model.definitions[i];
            if d.kind == DefKind::Constraint && d.has_body && !d.has_constraint_expr {
                let msg = message3("constraint def `", d.name.as_str(), "` has a body but no constraint expression");
                out.push(Diagnostic::warning(model.file.as_str(), d.span, codes::EMPTY_CONSTRAINT, msg));
            }
            i = i + 1;
        }
        assert(model.definitions@.take(model.definitions@.len() as int) =~= model.definitions@);
        out
    }
}

} // verus!
