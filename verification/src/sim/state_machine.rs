//! The state-machine model: states with their actions and transitions
//! between them, as diagrams and simulation read them.  Actions and guards
//! are held as the text they are written with.
use vstd::prelude::*;
use crate::model::Span;

verus! {

/// What makes a transition fire.
#[derive(Debug)]
pub enum Trigger {
    /// An event with this name.
    Signal(String),
    /// Completion of the source state.
    Completion,
}

/// A state with its entry, do and exit actions.
#[derive(Debug)]
pub struct StateNode {
    pub name: String,
    pub entry_action: Option<String>,
    pub do_action: Option<String>,
    pub exit_action: Option<String>,
    pub span: Span,
}

/// A transition between two states.
#[derive(Debug)]
pub struct Transition {
    pub name: Option<String>,
    pub source: String,
    pub target: String,
    pub trigger: Option<Trigger>,
    /// The guard condition, as written.
    pub guard: Option<String>,
    /// The effect action, as written.
    pub effect: Option<String>,
    pub span: Span,
}

/// A state machine definition.
#[derive(Debug)]
pub struct StateMachineModel {
    pub name: String,
    pub states: Vec<StateNode>,
    pub transitions: Vec<Transition>,
    pub entry_state: Option<String>,
    pub span: Span,
}

} // verus!
