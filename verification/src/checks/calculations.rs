//! Checks for calculation definitions missing return statements.
use vstd::prelude::*;
use crate::cache::{filter_seq, lemma_filter_take};
use crate::checks::{is_diag, Check};
use crate::diagnostic::codes;
use crate::diagnostic::{message3, Diagnostic, Severity};
use crate::model::{DefKind, Definition, Model};

verus! {

/// A calc def with a body but no return statement.
pub open spec fn calc_without_return(d: Definition) -> bool {
    d.kind == DefKind::Calc && d.has_body && !d.has_return
}

/// The message for a calc def without return.
pub open spec fn calc_message(d: Definition) -> Seq<char> {
    "calc def `"@ + d.name@ + "` has a body but no return statement"@
}

/// Flags calc defs that have a body but no return statement.
pub struct CalcReturnCheck;

impl Check for CalcReturnCheck {
    open spec fn name_spec(&self) -> Seq<char> {
        "calculations"@
    }

    fn name(&self) -> (r: &'static str)
    {
        "calculations"
    }

    fn run(&self, model: &Model) -> (r: Vec<Diagnostic>)
        ensures
            r@.len() == filter_seq(model.definitions@, |d: Definition| calc_without_return(d)).len(),
            forall|i: int|
                0 <= i < r@.len() ==> {
                    let d = filter_seq(model.definitions@, |d: Definition| calc_without_return(d))[i];
                    is_diag(#[trigger] r@[i], model.file@, d.span, Severity::Warning, codes::CALC_NO_RETURN, calc_message(d))
                },
    {
        let ghost f = |d: Definition| calc_without_return(d);
        let mut out: Vec<Diagnostic> = Vec::new();
        let mut i: usize = 0;
        while i < model.definitions.len()
            invariant
                i <= model.definitions@.len(),
                forall|x: Definition| #[trigger] f(x) == calc_without_return(x),
                out@.len() == filter_seq(model.definitions@.take(i as int), f).len(),
                forall|k: int|
                    0 <= k < out@.len() ==> {
                        let d = filter_seq(model.definitions@.take(i as int), f)[k];
                        is_diag(#[trigger] out@[k], model.file@, d.span, Severity::Warning, codes::CALC_NO_RETURN, calc_message(d))
                    },
            decreases model.definitions@.len() - i,
        {
            proof {
                lemma_filter_take(model.definitions@, f, i as int);
            }
            let d = &model.definitions[i];
            if d.kind == DefKind::Calc && d.has_body && !d.has_return {
                let msg = message3("calc def `", d.name.as_str(), "` has a body but no return statement");
                out.push(Diagnostic::warning(model.file.as_str(), d.span, codes::CALC_NO_RETURN, msg));
            }
            i = i + 1;
        }
        assert(model.definitions@.take(model.definitions@.len() as int) =~= model.definitions@);
        out
    }
}

} // verus!
