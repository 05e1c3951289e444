//! The action model: the steps of an action definition's body, as the
//! action-flow diagram and simulation read them.  Conditions and assigned
//! values are held as the text they are written with.
use vstd::prelude::*;
use crate::model::Span;

verus! {

/// One branch of a decision: an optional guard and the action it leads to.
#[derive(Debug)]
pub struct DecideBranch {
    /// The guard, as written, if any.
    pub guard: Option<String>,
    /// The name of the target action.
    pub target: String,
}

/// One step of an action body.
#[derive(Debug)]
pub enum ActionStep {
    /// `perform name` or a plain action usage.
    Perform { name: String, span: Span },
    /// Steps in order.
    Sequence { steps: Vec<ActionStep>, span: Span },
    /// `fork`: the branches run in parallel.
    Fork { name: Option<String>, branches: Vec<ActionStep>, span: Span },
    /// `join`.
    Join { name: Option<String>, span: Span },
    /// `decide`: one guarded branch is taken.
    Decide { name: Option<String>, branches: Vec<DecideBranch>, span: Span },
    /// `merge`.
    Merge { name: Option<String>, span: Span },
    /// `if condition then ... else ...`.
    IfAction { condition: String, then_step: Box<ActionStep>, else_step: Option<Box<ActionStep>>, span: Span },
    /// `assign target := value`.
    Assign { target: String, value: String, span: Span },
    /// `send payload via port to target`.
    Send { payload: Option<String>, via: Option<String>, to: Option<String>, span: Span },
    /// `while condition { body }`.
    WhileLoop { condition: String, body: Box<ActionStep>, span: Span },
    /// `for variable in collection { body }`.
    ForLoop { variable: String, collection: String, body: Box<ActionStep>, span: Span },
    /// `accept signal`.
    Accept { signal: Option<String>, span: Span },
    /// `terminate`.
    Terminate { span: Span },
    /// `done`.
    Done { span: Span },
}

/// An action definition with its body's steps.
#[derive(Debug)]
pub struct ActionModel {
    pub name: String,
    pub steps: Vec<ActionStep>,
    pub span: Span,
}

} // verus!
