//! Executing an action flow, one decision at a time.
//!
//! Conditions, guards and assigned values are expressions over the run's
//! variables, which assignments change as the run goes.  The stepper never
//! evaluates them: when it needs a value it stops with a request
//! ([`ExecRequest::EvalGuard`] or [`ExecRequest::EvalAssign`]) and the
//! caller, which holds the variables, answers with the next event.  Between
//! requests it walks the steps: a stack of pending work names each step by
//! its path of child indices from the body.
use vstd::prelude::*;
use crate::sim::action_flow::{ActionModel, ActionStep, DecideBranch};
use crate::text::{decimal, own, push_str, usize_to_decimal};
use crate::qualified_name::{join_strings, join_with};

verus! {

// ------------------------------------------------------------------------
// State
// ------------------------------------------------------------------------

/// Status of an execution.
#[derive(Debug, Clone, Copy, PartialEq, Eq, Structural)]
pub enum ActionExecStatus {
    Running,
    Completed,
    Error,
    MaxSteps,
}

/// One entry of an execution trace.
#[derive(Debug)]
pub struct ActionExecStep {
    pub step: usize,
    pub kind: String,
    pub description: String,
}

/// Work still to do, top of the stack last.
#[derive(Debug)]
pub enum ExecItem {
    /// Execute the step at this path.
    Run(Vec<usize>),
    /// Execute the children of the container at this path (the body itself
    /// for the empty path), from this index on.
    RunChildren(Vec<usize>, usize),
    /// Test the condition of the loop at this path before its next
    /// iteration, which gets this number.
    WhileCheck(Vec<usize>, usize),
}

/// What the stepper waits for.
#[derive(Debug)]
pub enum Pending {
    /// The condition of the `if` at this path.
    If(Vec<usize>),
    /// The guard of this branch of the decision at this path.
    Decide(Vec<usize>, usize),
    /// The value assigned by the step at this path.
    Assign(Vec<usize>),
    /// The condition of the loop at this path, before this iteration.
    While(Vec<usize>, usize),
}

/// The state of an execution.
#[derive(Debug)]
pub struct ActionExecState {
    pub action_name: String,
    pub step: usize,
    pub trace: Vec<ActionExecStep>,
    pub status: ActionExecStatus,
    pub work: Vec<ExecItem>,
    pub pending: Option<Pending>,
}

/// What the caller hands the stepper.
#[derive(Debug)]
pub enum ExecEvent {
    /// Go on; no value was asked for.
    Start,
    /// The truth of the condition or guard asked for.
    Guard(bool),
    /// The text of the value an assignment computed.
    Assigned(String),
    /// Why the assigned value could not be computed.
    AssignFailed(String),
}

/// What the stepper asks of the caller.
#[derive(Debug)]
pub enum ExecRequest {
    /// Evaluate this condition.
    EvalGuard(String),
    /// Evaluate this value and assign it to this target.
    EvalAssign(String, String),
    /// Call again to go on.
    Continue,
    /// The execution is over.
    Finished,
}

// ------------------------------------------------------------------------
// Plain data
// ------------------------------------------------------------------------

/// A work item as plain data.
pub enum ItemView {
    Run(Seq<usize>),
    RunChildren(Seq<usize>, nat),
    WhileCheck(Seq<usize>, nat),
}

/// A pending wait as plain data.
pub enum PendingView {
    If(Seq<usize>),
    Decide(Seq<usize>, nat),
    Assign(Seq<usize>),
    While(Seq<usize>, nat),
}

/// An event as plain data.
pub enum EventView {
    Start,
    Guard(bool),
    Assigned(Seq<char>),
    AssignFailed(Seq<char>),
}

/// A request as plain data.
pub enum RequestView {
    EvalGuard(Seq<char>),
    EvalAssign(Seq<char>, Seq<char>),
    Continue,
    Finished,
}

/// A trace entry as plain data: step number, kind, description.
pub type TraceView = (nat, Seq<char>, Seq<char>);

/// An execution's state as plain data.
pub struct ExecView {
    pub name: Seq<char>,
    pub step: nat,
    pub trace: Seq<TraceView>,
    pub status: ActionExecStatus,
    pub work: Seq<ItemView>,
    pub pending: Option<PendingView>,
}

impl View for ExecItem {
    type V = ItemView;

    open spec fn view(&self) -> ItemView {
        match self {
            ExecItem::Run(p) => ItemView::Run(p@),
            ExecItem::RunChildren(p, k) => ItemView::RunChildren(p@, *k as nat),
            ExecItem::WhileCheck(p, n) => ItemView::WhileCheck(p@, *n as nat),
        }
    }
}

impl View for Pending {
    type V = PendingView;

    open spec fn view(&self) -> PendingView {
        match self {
            Pending::If(p) => PendingView::If(p@),
            Pending::Decide(p, k) => PendingView::Decide(p@, *k as nat),
            Pending::Assign(p) => PendingView::Assign(p@),
            Pending::While(p, n) => PendingView::While(p@, *n as nat),
        }
    }
}

impl View for ExecEvent {
    type V = EventView;

    open spec fn view(&self) -> EventView {
        match self {
            ExecEvent::Start => EventView::Start,
            ExecEvent::Guard(b) => EventView::Guard(*b),
            ExecEvent::Assigned(v) => EventView::Assigned(v@),
            ExecEvent::AssignFailed(e) => EventView::AssignFailed(e@),
        }
    }
}

impl View for ExecRequest {
    type V = RequestView;

    open spec fn view(&self) -> RequestView {
        match self {
            ExecRequest::EvalGuard(c) => RequestView::EvalGuard(c@),
            ExecRequest::EvalAssign(t, v) => RequestView::EvalAssign(t@, v@),
            ExecRequest::Continue => RequestView::Continue,
            ExecRequest::Finished => RequestView::Finished,
        }
    }
}

impl View for ActionExecStep {
    type V = TraceView;

    open spec fn view(&self) -> TraceView {
        (self.step as nat, self.kind@, self.description@)
    }
}

/// The plain data of a trace.
pub open spec fn trace_views(t: Seq<ActionExecStep>) -> Seq<TraceView> {
    t.map_values(|e: ActionExecStep| e@)
}

/// The plain data of a work stack.
pub open spec fn item_views(w: Seq<ExecItem>) -> Seq<ItemView> {
    w.map_values(|i: ExecItem| i@)
}

/// The plain data of an optional wait.
pub open spec fn pending_view(p: Option<Pending>) -> Option<PendingView> {
    match p {
        Some(x) => Some(x@),
        None => None,
    }
}

impl View for ActionExecState {
    type V = ExecView;

    open spec fn view(&self) -> ExecView {
        ExecView {
            name: self.action_name@,
            step: self.step as nat,
            trace: trace_views(self.trace@),
            status: self.status,
            work: item_views(self.work@),
            pending: pending_view(self.pending),
        }
    }
}

// ------------------------------------------------------------------------
// Specification
// ------------------------------------------------------------------------

/// Child `k` of a step: a sequence's or fork's `k`-th step, an `if`'s
/// then (0) and else (1) steps, a loop's body (0).
pub open spec fn child(s: ActionStep, k: usize) -> Option<ActionStep> {
    match s {
        ActionStep::Sequence { steps, .. } => if k < steps@.len() {
            Some(steps@[k as int])
        } else {
            None
        },
        ActionStep::Fork { branches, .. } => if k < branches@.len() {
            Some(branches@[k as int])
        } else {
            None
        },
        ActionStep::IfAction { then_step, else_step, .. } => if k == 0 {
            Some(*then_step)
        } else if k == 1 {
            match else_step {
                Some(e) => Some(*e),
                None => None,
            }
        } else {
            None
        },
        ActionStep::WhileLoop { body, .. } => if k == 0 {
            Some(*body)
        } else {
            None
        },
        ActionStep::ForLoop { body, .. } => if k == 0 {
            Some(*body)
        } else {
            None
        },
        _ => None,
    }
}

/// The step at path `p`: its first index picks a step of the body, the
/// rest pick children.
pub open spec fn step_at(m: ActionModel, p: Seq<usize>) -> Option<ActionStep>
    decreases p.len(),
{
    if p.len() == 0 {
        None
    } else if p.len() == 1 {
        if p[0] < m.steps@.len() {
            Some(m.steps@[p[0] as int])
        } else {
            None
        }
    } else {
        match step_at(m, p.drop_last()) {
            Some(s) => child(s, p.last()),
            None => None,
        }
    }
}

/// How many children the container at `p` has (the body's steps for the
/// empty path).
pub open spec fn children_len(m: ActionModel, p: Seq<usize>) -> nat {
    if p.len() == 0 {
        m.steps@.len()
    } else {
        match step_at(m, p) {
            Some(ActionStep::Sequence { steps, .. }) => steps@.len(),
            Some(ActionStep::Fork { branches, .. }) => branches@.len(),
            _ => 0,
        }
    }
}

/// `s` with one more trace entry, numbered by the step count, which
/// advances.
pub open spec fn traced(s: ExecView, kind: Seq<char>, desc: Seq<char>) -> ExecView {
    ExecView { trace: s.trace.push((s.step, kind, desc)), step: s.step + 1, ..s }
}

/// What to ask after a state change: nothing more once the run is over.
pub open spec fn after(s: ExecView) -> (ExecView, RequestView) {
    (s, if s.status == ActionExecStatus::Running {
        RequestView::Continue
    } else {
        RequestView::Finished
    })
}

/// The text of an optional name, or `dflt`.
pub open spec fn name_or(o: Option<String>, dflt: Seq<char>) -> Seq<char> {
    match o {
        Some(x) => x@,
        None => dflt,
    }
}

/// ` {pre}{text}` pieces of a send step.
pub open spec fn part(o: Option<String>, pre: Seq<char>) -> Seq<char> {
    match o {
        Some(x) => pre + x@,
        None => seq![],
    }
}

/// `true` or `false`.
pub open spec fn bool_text(b: bool) -> Seq<char> {
    if b {
        "true"@
    } else {
        "false"@
    }
}

/// The decision at `p` records that it takes `target`.
pub open spec fn decided(m: ActionModel, s: ExecView, p: Seq<usize>, target: Seq<char>) -> ExecView {
    match step_at(m, p) {
        Some(ActionStep::Decide { name, .. }) => traced(s, "decide"@, "decide "@ + name_or(name, "decide"@) + " -> "@ + target),
        _ => s,
    }
}

/// The branches of the decision at `p`.
pub open spec fn decide_branches(m: ActionModel, p: Seq<usize>) -> Seq<DecideBranch> {
    match step_at(m, p) {
        Some(ActionStep::Decide { branches, .. }) => branches@,
        _ => seq![],
    }
}

/// Try the branches of the decision at `p` from `k` on: an unguarded one is
/// taken at once, a guarded one is asked about, and with none left the
/// decision takes `none`.
pub open spec fn decide_from(m: ActionModel, s: ExecView, p: Seq<usize>, k: nat) -> (ExecView, RequestView) {
    let bs = decide_branches(m, p);
    if k >= bs.len() {
        after(decided(m, s, p, "none"@))
    } else {
        match bs[k as int].guard {
            None => after(decided(m, s, p, bs[k as int].target@)),
            Some(g) => (ExecView { pending: Some(PendingView::Decide(p, k)), ..s }, RequestView::EvalGuard(g@)),
        }
    }
}

/// The request a wait stands for.
pub open spec fn request_of(m: ActionModel, pd: PendingView) -> RequestView {
    match pd {
        PendingView::If(p) => match step_at(m, p) {
            Some(ActionStep::IfAction { condition, .. }) => RequestView::EvalGuard(condition@),
            _ => RequestView::Continue,
        },
        PendingView::Decide(p, k) => if k < decide_branches(m, p).len() {
            match decide_branches(m, p)[k as int].guard {
                Some(g) => RequestView::EvalGuard(g@),
                None => RequestView::Continue,
            }
        } else {
            RequestView::Continue
        },
        PendingView::Assign(p) => match step_at(m, p) {
            Some(ActionStep::Assign { target, value, .. }) => RequestView::EvalAssign(target@, value@),
            _ => RequestView::Continue,
        },
        PendingView::While(p, _) => match step_at(m, p) {
            Some(ActionStep::WhileLoop { condition, .. }) => RequestView::EvalGuard(condition@),
            _ => RequestView::Continue,
        },
    }
}

/// Apply the answer to a wait.  An answer of the wrong kind changes
/// nothing, and the question is asked again.
pub open spec fn answer(m: ActionModel, s: ExecView, pd: PendingView, ev: EventView) -> (ExecView, RequestView) {
    let s0 = ExecView { pending: None, ..s };
    match pd {
        PendingView::If(p) => match ev {
            EventView::Guard(b) => {
                let s1 = traced(s0, "if"@, "if -> "@ + bool_text(b));
                let w = if b {
                    s1.work.push(ItemView::Run(p.push(0)))
                } else if step_at(m, p.push(1)) is Some {
                    s1.work.push(ItemView::Run(p.push(1)))
                } else {
                    s1.work
                };
                after(ExecView { work: w, ..s1 })
            },
            _ => (s, request_of(m, pd)),
        },
        PendingView::Decide(p, k) => match ev {
            EventView::Guard(b) => if b && k < decide_branches(m, p).len() {
                after(decided(m, s0, p, decide_branches(m, p)[k as int].target@))
            } else {
                decide_from(m, s0, p, k + 1)
            },
            _ => (s, request_of(m, pd)),
        },
        PendingView::Assign(p) => {
            let t = match step_at(m, p) {
                Some(ActionStep::Assign { target, .. }) => target@,
                _ => seq![],
            };
            match ev {
                EventView::Assigned(v) => after(traced(s0, "assign"@, "assign "@ + t + " := "@ + v)),
                EventView::AssignFailed(e) => after(
                    ExecView { status: ActionExecStatus::Error, ..traced(s0, "error"@, "assign "@ + t + " failed: "@ + e) },
                ),
                _ => (s, request_of(m, pd)),
            }
        },
        PendingView::While(p, n) => match ev {
            EventView::Guard(b) => if b {
                let s1 = traced(s0, "while"@, "while iteration "@ + decimal(n));
                after(ExecView { work: s1.work.push(ItemView::WhileCheck(p, n + 1)).push(ItemView::Run(p.push(0))), ..s1 })
            } else {
                after(s0)
            },
            _ => (s, request_of(m, pd)),
        },
    }
}

/// Execute one step found at `p`.
pub open spec fn run_step(m: ActionModel, s: ExecView, p: Seq<usize>, st: ActionStep) -> (ExecView, RequestView) {
    match st {
        ActionStep::Perform { name, .. } => after(traced(s, "perform"@, "perform "@ + name@)),
        ActionStep::Sequence { .. } => after(ExecView { work: s.work.push(ItemView::RunChildren(p, 0)), ..s }),
        ActionStep::Fork { name, branches, .. } => {
            let s1 = traced(s, "fork"@, "fork "@ + name_or(name, "fork"@) + " ("@ + decimal(branches@.len()) + " branches)"@);
            after(ExecView { work: s1.work.push(ItemView::RunChildren(p, 0)), ..s1 })
        },
        ActionStep::Join { name, .. } => after(traced(s, "join"@, "join "@ + name_or(name, "join"@))),
        ActionStep::Decide { .. } => decide_from(m, s, p, 0),
        ActionStep::Merge { name, .. } => after(traced(s, "merge"@, "merge "@ + name_or(name, "merge"@))),
        ActionStep::IfAction { condition, .. } => (ExecView { pending: Some(PendingView::If(p)), ..s }, RequestView::EvalGuard(condition@)),
        ActionStep::Assign { target, value, .. } => (ExecView { pending: Some(PendingView::Assign(p)), ..s }, RequestView::EvalAssign(target@, value@)),
        ActionStep::Send { payload, via, to, .. } => after(
            traced(s, "send"@, "send"@ + part(payload, " "@) + part(via, " via "@) + part(to, " to "@)),
        ),
        ActionStep::WhileLoop { .. } => after(ExecView { work: s.work.push(ItemView::WhileCheck(p, 0)), ..s }),
        ActionStep::ForLoop { variable, collection, .. } => {
            let s1 = traced(s, "for"@, "for "@ + variable@ + " in "@ + collection@);
            after(ExecView { work: s1.work.push(ItemView::Run(p.push(0))), ..s1 })
        },
        ActionStep::Accept { signal, .. } => after(traced(s, "accept"@, "accept"@ + part(signal, " "@))),
        ActionStep::Terminate { .. } => after(ExecView { status: ActionExecStatus::Completed, ..traced(s, "terminate"@, "terminate"@) }),
        ActionStep::Done { .. } => after(ExecView { status: ActionExecStatus::Completed, ..traced(s, "done"@, "done"@) }),
    }
}

/// Do the work item on top of the stack (already popped from `s`).
pub open spec fn run_item(m: ActionModel, s: ExecView, it: ItemView, max: nat) -> (ExecView, RequestView) {
    match it {
        ItemView::Run(p) => if s.step >= max {
            after(ExecView { status: ActionExecStatus::MaxSteps, ..s })
        } else {
            match step_at(m, p) {
                Some(st) => run_step(m, s, p, st),
                None => after(s),
            }
        },
        ItemView::RunChildren(p, k) => if k < children_len(m, p) {
            after(ExecView { work: s.work.push(ItemView::RunChildren(p, k + 1)).push(ItemView::Run(p.push(k as usize))), ..s })
        } else {
            after(s)
        },
        ItemView::WhileCheck(p, n) => if s.step >= max {
            after(ExecView { status: ActionExecStatus::MaxSteps, ..s })
        } else {
            match step_at(m, p) {
                Some(ActionStep::WhileLoop { condition, .. }) => (
                    ExecView { pending: Some(PendingView::While(p, n)), ..s },
                    RequestView::EvalGuard(condition@),
                ),
                _ => after(s),
            }
        },
    }
}

/// One move of an execution: nothing once it is over; the answer to what
/// it waits for; else the next work item, or completion when none is left.
/// Every step starts by checking the step bound.
pub open spec fn exec_advance_spec(m: ActionModel, s: ExecView, max: nat, ev: EventView) -> (ExecView, RequestView) {
    if s.status != ActionExecStatus::Running {
        (s, RequestView::Finished)
    } else {
        match s.pending {
            Some(pd) => answer(m, s, pd, ev),
            None => if s.work.len() == 0 {
                (ExecView { status: ActionExecStatus::Completed, ..s }, RequestView::Finished)
            } else {
                run_item(m, ExecView { work: s.work.drop_last(), ..s }, s.work.last(), max)
            },
        }
    }
}

/// Where an execution starts: the body's steps in order, nothing traced.
pub open spec fn exec_start_spec(m: ActionModel) -> ExecView {
    ExecView {
        name: m.name@,
        step: 0,
        trace: seq![],
        status: ActionExecStatus::Running,
        work: seq![ItemView::RunChildren(seq![], 0)],
        pending: None,
    }
}

/// What every state of an execution keeps: the step count stays within
/// the bound (below it while waiting for a value), and the trace holds one
/// entry per step.
pub open spec fn exec_bounded(s: ExecView, max: nat) -> bool {
    &&& s.step <= max
    &&& (s.pending is Some ==> s.step < max)
    &&& s.trace.len() == s.step
}

/// What an execution's state tells: within its bound, each trace entry
/// numbered by its position, `MaxSteps` only with the bound reached, and
/// `Error` only after a failed assignment, which the last entry records.
pub open spec fn exec_wf(s: ExecView, max: nat) -> bool {
    &&& exec_bounded(s, max)
    &&& forall|i: int| 0 <= i < s.trace.len() ==> (#[trigger] s.trace[i]).0 == i
    &&& s.status == ActionExecStatus::MaxSteps ==> s.step == max
    &&& s.status == ActionExecStatus::Error ==> s.trace.len() > 0 && s.trace.last().1 == "error"@
}

/// An execution starts in such a state, and every move keeps it in one.
pub proof fn law_exec_wf(m: ActionModel, s: ExecView, max: nat, ev: EventView)
    requires
        exec_wf(s, max),
    ensures
        exec_wf(exec_start_spec(m), max),
        exec_wf(exec_advance_spec(m, s, max, ev).0, max),
{
    let r = exec_advance_spec(m, s, max, ev).0;
    assert forall|i: int| 0 <= i < r.trace.len() implies (#[trigger] r.trace[i]).0 == i by {
        if i < s.trace.len() {
            assert(r.trace[i] == s.trace[i]);
        }
    }
}

/// Once an execution is over, it stays as it is and says so.
pub proof fn law_exec_finished(m: ActionModel, s: ExecView, max: nat, ev: EventView)
    requires
        s.status != ActionExecStatus::Running,
    ensures
        exec_advance_spec(m, s, max, ev) == (s, RequestView::Finished),
{
}

/// An execution starts within its bound, and every move keeps it there.
pub proof fn law_exec_bounded(m: ActionModel, s: ExecView, max: nat, ev: EventView)
    requires
        exec_bounded(s, max),
    ensures
        exec_bounded(exec_start_spec(m), max),
        exec_bounded(exec_advance_spec(m, s, max, ev).0, max),
{
}

// ------------------------------------------------------------------------
// Stepping
// ------------------------------------------------------------------------

/// Child `k` of a step.
fn child_ref(s: &ActionStep, k: usize) -> (r: Option<&ActionStep>)
    ensures
        match r {
            Some(c) => child(*s, k) == Some(*c),
            None => child(*s, k) is None,
        },
{
    match s {
        ActionStep::Sequence { steps, .. } => if k < steps.len() {
            Some(&steps[k])
        } else {
            None
        },
        ActionStep::Fork { branches, .. } => if k < branches.len() {
            Some(&branches[k])
        } else {
            None
        },
        ActionStep::IfAction { then_step, else_step, .. } => if k == 0 {
            Some(&**then_step)
        } else if k == 1 {
            match else_step {
                Some(e) => Some(&**e),
                None => None,
            }
        } else {
            None
        },
        ActionStep::WhileLoop { body, .. } => if k == 0 {
            Some(&**body)
        } else {
            None
        },
        ActionStep::ForLoop { body, .. } => if k == 0 {
            Some(&**body)
        } else {
            None
        },
        _ => None,
    }
}

/// The step at path `p`.
fn step_ref<'a>(m: &'a ActionModel, p: &Vec<usize>) -> (r: Option<&'a ActionStep>)
    ensures
        match r {
            Some(c) => step_at(*m, p@) == Some(*c),
            None => step_at(*m, p@) is None,
        },
{
    if p.len() == 0 {
        return None;
    }
    let mut cur: Option<&ActionStep> = if p[0] < m.steps.len() {
        Some(&m.steps[p[0]])
    } else {
        None
    };
    assert(p@.take(1).len() == 1 && p@.take(1)[0] == p@[0]);
    let mut i: usize = 1;
    while i < p.len()
        invariant
            1 <= i <= p@.len(),
            match cur {
                Some(c) => step_at(*m, p@.take(i as int)) == Some(*c),
                None => step_at(*m, p@.take(i as int)) is None,
            },
        decreases p@.len() - i,
    {
        assert(p@.take(i + 1).drop_last() =~= p@.take(i as int));
        assert(p@.take(i + 1).last() == p@[i as int]);
        cur = match cur {
            Some(c) => child_ref(c, p[i]),
            None => None,
        };
        i = i + 1;
    }
    assert(p@.take(i as int) =~= p@);
    cur
}

/// `p` followed by `k`.
fn extended(p: &Vec<usize>, k: usize) -> (r: Vec<usize>)
    ensures
        r@ == p@.push(k),
{
    let mut r: Vec<usize> = Vec::new();
    let mut i: usize = 0;
    while i < p.len()
        invariant
            i <= p@.len(),
            r@ == p@.take(i as int),
        decreases p@.len() - i,
    {
        r.push(p[i]);
        assert(r@ =~= p@.take(i + 1));
        i = i + 1;
    }
    assert(p@.take(i as int) =~= p@);
    r.push(k);
    r
}

/// A copy of a path.
fn copied(p: &Vec<usize>) -> (r: Vec<usize>)
    ensures
        r@ == p@,
{
    let mut r: Vec<usize> = Vec::new();
    let mut i: usize = 0;
    while i < p.len()
        invariant
            i <= p@.len(),
            r@ == p@.take(i as int),
        decreases p@.len() - i,
    {
        r.push(p[i]);
        assert(r@ =~= p@.take(i + 1));
        i = i + 1;
    }
    assert(p@.take(i as int) =~= p@);
    r
}

/// The text of an optional name, or `dflt`.
fn name_or_exec(o: &Option<String>, dflt: &str) -> (r: String)
    ensures
        r@ == name_or(*o, dflt@),
{
    match o {
        Some(x) => own(x.as_str()),
        None => own(dflt),
    }
}

/// Append `pre` and the text of `o`, when there is one.
fn push_part(out: &mut String, o: &Option<String>, pre: &str)
    ensures
        final(out)@ == old(out)@ + part(*o, pre@),
{
    match o {
        Some(x) => {
            push_str(out, pre);
            push_str(out, x.as_str());
        },
        None => {
            assert(out@ =~= old(out)@ + part(*o, pre@));
        },
    }
}

/// Record a trace entry and count the step.
fn trace_step(s: &mut ActionExecState, kind: &str, desc: String)
    requires
        old(s).step < usize::MAX,
    ensures
        final(s)@ == traced(old(s)@, kind@, desc@),
{
    let e = ActionExecStep { step: s.step, kind: own(kind), description: desc };
    let ghost t0 = s.trace@;
    s.trace.push(e);
    s.step = s.step + 1;
    assert(trace_views(s.trace@) =~= trace_views(t0).push((old(s).step as nat, kind@, desc@)));
}

/// What to ask after a state change.
fn after_exec(s: ActionExecState) -> (r: (ActionExecState, ExecRequest))
    ensures
        (r.0@, r.1@) == after(s@),
{
    let req = if s.status == ActionExecStatus::Running {
        ExecRequest::Continue
    } else {
        ExecRequest::Finished
    };
    (s, req)
}

/// Push a work item.
fn push_item(s: &mut ActionExecState, it: ExecItem)
    ensures
        final(s)@ == (ExecView { work: old(s)@.work.push(it@), ..old(s)@ }),
{
    let ghost w0 = s.work@;
    s.work.push(it);
    assert(item_views(s.work@) =~= item_views(w0).push(it@));
}

/// The decision at `p` takes `target`.
fn decide_exec(m: &ActionModel, s: &mut ActionExecState, p: &Vec<usize>, target: String)
    requires
        old(s).step < usize::MAX,
    ensures
        final(s)@ == decided(*m, old(s)@, p@, target@),
{
    match step_ref(m, p) {
        Some(ActionStep::Decide { name, .. }) => {
            let mut d = own("decide ");
            let l = name_or_exec(name, "decide");
            push_str(&mut d, l.as_str());
            push_str(&mut d, " -> ");
            push_str(&mut d, target.as_str());
            trace_step(s, "decide", d);
        },
        _ => {},
    }
}

/// Try the branches of the decision at `p` from `k` on.
fn decide_from_exec(m: &ActionModel, s: ActionExecState, p: &Vec<usize>, k: usize) -> (r: (ActionExecState, ExecRequest))
    requires
        s.step < usize::MAX,
        s.pending is None,
    ensures
        (r.0@, r.1@) == decide_from(*m, s@, p@, k as nat),
{
    let mut s = s;
    match step_ref(m, p) {
        Some(ActionStep::Decide { branches, .. }) => {
            if k >= branches.len() {
                decide_exec(m, &mut s, p, own("none"));
                after_exec(s)
            } else {
                match &branches[k].guard {
                    None => {
                        decide_exec(m, &mut s, p, own(branches[k].target.as_str()));
                        after_exec(s)
                    },
                    Some(g) => {
                        s.pending = Some(Pending::Decide(copied(p), k));
                        (s, ExecRequest::EvalGuard(own(g.as_str())))
                    },
                }
            }
        },
        _ => {
            decide_exec(m, &mut s, p, own("none"));
            after_exec(s)
        },
    }
}

/// The request a wait stands for.
fn request_exec(m: &ActionModel, pd: &Pending) -> (r: ExecRequest)
    ensures
        r@ == request_of(*m, pd@),
{
    match pd {
        Pending::If(p) => match step_ref(m, p) {
            Some(ActionStep::IfAction { condition, .. }) => ExecRequest::EvalGuard(own(condition.as_str())),
            _ => ExecRequest::Continue,
        },
        Pending::Decide(p, k) => match step_ref(m, p) {
            Some(ActionStep::Decide { branches, .. }) => if *k < branches.len() {
                match &branches[*k].guard {
                    Some(g) => ExecRequest::EvalGuard(own(g.as_str())),
                    None => ExecRequest::Continue,
                }
            } else {
                ExecRequest::Continue
            },
            _ => ExecRequest::Continue,
        },
        Pending::Assign(p) => match step_ref(m, p) {
            Some(ActionStep::Assign { target, value, .. }) => ExecRequest::EvalAssign(own(target.as_str()), own(value.as_str())),
            _ => ExecRequest::Continue,
        },
        Pending::While(p, _) => match step_ref(m, p) {
            Some(ActionStep::WhileLoop { condition, .. }) => ExecRequest::EvalGuard(own(condition.as_str())),
            _ => ExecRequest::Continue,
        },
    }
}

/// Apply the answer to what the execution waits for.
fn answer_exec(m: &ActionModel, s: ActionExecState, pd: Pending, ev: ExecEvent) -> (r: (ActionExecState, ExecRequest))
    requires
        s.step < usize::MAX,
        s.pending is None,
        match pd {
            Pending::While(_, n) => n < usize::MAX,
            _ => true,
        },
    ensures
        (r.0@, r.1@) == answer(*m, ExecView { pending: Some(pd@), ..s@ }, pd@, ev@),
{
    let mut s = s;
    let ghost full = ExecView { pending: Some(pd@), ..s@ };
    assert(s@ == ExecView { pending: None, ..full });
    match pd {
        Pending::If(p) => match ev {
            ExecEvent::Guard(b) => {
                let mut d = own("if -> ");
                push_str(&mut d, if b { "true" } else { "false" });
                proof {
                    reveal_strlit("true");
                    reveal_strlit("false");
                }
                trace_step(&mut s, "if", d);
                if b {
                    push_item(&mut s, ExecItem::Run(extended(&p, 0)));
                } else {
                    let q = extended(&p, 1);
                    if step_ref(m, &q).is_some() {
                        push_item(&mut s, ExecItem::Run(q));
                    }
                }
                after_exec(s)
            },
            _ => {
                let pd2 = Pending::If(p);
                let req = request_exec(m, &pd2);
                s.pending = Some(pd2);
                (s, req)
            },
        },
        Pending::Decide(p, k) => match ev {
            ExecEvent::Guard(b) => {
                let n = match step_ref(m, &p) {
                    Some(ActionStep::Decide { branches, .. }) => branches.len(),
                    _ => 0,
                };
                assert(n == decide_branches(*m, p@).len());
                if b && k < n {
                    let target = match step_ref(m, &p) {
                        Some(ActionStep::Decide { branches, .. }) => own(branches[k].target.as_str()),
                        _ => String::new(),
                    };
                    decide_exec(m, &mut s, &p, target);
                    after_exec(s)
                } else {
                    if k >= n {
                        decide_from_exec(m, s, &p, n)
                    } else {
                        decide_from_exec(m, s, &p, k + 1)
                    }
                }
            },
            _ => {
                let pd2 = Pending::Decide(p, k);
                let req = request_exec(m, &pd2);
                s.pending = Some(pd2);
                (s, req)
            },
        },
        Pending::Assign(p) => {
            let t = match step_ref(m, &p) {
                Some(ActionStep::Assign { target, .. }) => own(target.as_str()),
                _ => String::new(),
            };
            match ev {
                ExecEvent::Assigned(v) => {
                    let mut d = own("assign ");
                    push_str(&mut d, t.as_str());
                    push_str(&mut d, " := ");
                    push_str(&mut d, v.as_str());
                    trace_step(&mut s, "assign", d);
                    after_exec(s)
                },
                ExecEvent::AssignFailed(e) => {
                    let mut d = own("assign ");
                    push_str(&mut d, t.as_str());
                    push_str(&mut d, " failed: ");
                    push_str(&mut d, e.as_str());
                    trace_step(&mut s, "error", d);
                    s.status = ActionExecStatus::Error;
                    after_exec(s)
                },
                _ => {
                    let pd2 = Pending::Assign(p);
                    let req = request_exec(m, &pd2);
                    s.pending = Some(pd2);
                    (s, req)
                },
            }
        },
        Pending::While(p, n) => match ev {
            ExecEvent::Guard(b) => {
                if b {
                    let mut d = own("while iteration ");
                    let num = usize_to_decimal(n);
                    push_str(&mut d, num.as_str());
                    trace_step(&mut s, "while", d);
                    push_item(&mut s, ExecItem::WhileCheck(copied(&p), n + 1));
                    push_item(&mut s, ExecItem::Run(extended(&p, 0)));
                }
                after_exec(s)
            },
            _ => {
                let pd2 = Pending::While(p, n);
                let req = request_exec(m, &pd2);
                s.pending = Some(pd2);
                (s, req)
            },
        },
    }
}

/// Execute the step `st` found at `p`.
fn run_step_exec(m: &ActionModel, s: ActionExecState, p: Vec<usize>, st: &ActionStep) -> (r: (ActionExecState, ExecRequest))
    requires
        s.step < usize::MAX,
        s.pending is None,
        step_at(*m, p@) == Some(*st),
    ensures
        (r.0@, r.1@) == run_step(*m, s@, p@, *st),
{
    let mut s = s;
    match st {
        ActionStep::Perform { name, .. } => {
            let mut d = own("perform ");
            push_str(&mut d, name.as_str());
            trace_step(&mut s, "perform", d);
            after_exec(s)
        },
        ActionStep::Sequence { .. } => {
            push_item(&mut s, ExecItem::RunChildren(p, 0));
            after_exec(s)
        },
        ActionStep::Fork { name, branches, .. } => {
            let mut d = own("fork ");
            let l = name_or_exec(name, "fork");
            push_str(&mut d, l.as_str());
            push_str(&mut d, " (");
            let num = usize_to_decimal(branches.len());
            push_str(&mut d, num.as_str());
            push_str(&mut d, " branches)");
            trace_step(&mut s, "fork", d);
            push_item(&mut s, ExecItem::RunChildren(p, 0));
            after_exec(s)
        },
        ActionStep::Join { name, .. } => {
            let mut d = own("join ");
            let l = name_or_exec(name, "join");
            push_str(&mut d, l.as_str());
            trace_step(&mut s, "join", d);
            after_exec(s)
        },
        ActionStep::Decide { .. } => decide_from_exec(m, s, &p, 0),
        ActionStep::Merge { name, .. } => {
            let mut d = own("merge ");
            let l = name_or_exec(name, "merge");
            push_str(&mut d, l.as_str());
            trace_step(&mut s, "merge", d);
            after_exec(s)
        },
        ActionStep::IfAction { condition, .. } => {
            s.pending = Some(Pending::If(p));
            (s, ExecRequest::EvalGuard(own(condition.as_str())))
        },
        ActionStep::Assign { target, value, .. } => {
            s.pending = Some(Pending::Assign(p));
            (s, ExecRequest::EvalAssign(own(target.as_str()), own(value.as_str())))
        },
        ActionStep::Send { payload, via, to, .. } => {
            let mut d = own("send");
            push_part(&mut d, payload, " ");
            push_part(&mut d, via, " via ");
            push_part(&mut d, to, " to ");
            trace_step(&mut s, "send", d);
            after_exec(s)
        },
        ActionStep::WhileLoop { .. } => {
            push_item(&mut s, ExecItem::WhileCheck(p, 0));
            after_exec(s)
        },
        ActionStep::ForLoop { variable, collection, .. } => {
            let mut d = own("for ");
            push_str(&mut d, variable.as_str());
            push_str(&mut d, " in ");
            push_str(&mut d, collection.as_str());
            trace_step(&mut s, "for", d);
            push_item(&mut s, ExecItem::Run(extended(&p, 0)));
            after_exec(s)
        },
        ActionStep::Accept { signal, .. } => {
            let mut d = own("accept");
            push_part(&mut d, signal, " ");
            trace_step(&mut s, "accept", d);
            after_exec(s)
        },
        ActionStep::Terminate { .. } => {
            trace_step(&mut s, "terminate", own("terminate"));
            s.status = ActionExecStatus::Completed;
            after_exec(s)
        },
        ActionStep::Done { .. } => {
            trace_step(&mut s, "done", own("done"));
            s.status = ActionExecStatus::Completed;
            after_exec(s)
        },
    }
}

/// How many children the container at `p` has.
fn children_len_exec(m: &ActionModel, p: &Vec<usize>) -> (r: usize)
    ensures
        r as nat == children_len(*m, p@),
{
    if p.len() == 0 {
        m.steps.len()
    } else {
        match step_ref(m, p) {
            Some(ActionStep::Sequence { steps, .. }) => steps.len(),
            Some(ActionStep::Fork { branches, .. }) => branches.len(),
            _ => 0,
        }
    }
}

/// Where an execution of `model` starts.
pub fn exec_start(model: &ActionModel) -> (r: ActionExecState)
    ensures
        r@ == exec_start_spec(*model),
{
    let mut work: Vec<ExecItem> = Vec::new();
    work.push(ExecItem::RunChildren(Vec::new(), 0));
    let r = ActionExecState {
        action_name: own(model.name.as_str()),
        step: 0,
        trace: Vec::new(),
        status: ActionExecStatus::Running,
        work,
        pending: None,
    };
    assert(trace_views(r.trace@) =~= Seq::<TraceView>::empty());
    assert(item_views(r.work@) =~= seq![ItemView::RunChildren(seq![], 0)]);
    r
}

/// Advance an execution by one move on `event`: nothing once it is over;
/// the answer to what it waits for; else the next work item, or
/// completion when none is left.  The request says what the caller is to
/// evaluate next, or that it is to call again, or that the run is over.
pub fn exec_advance(model: &ActionModel, state: ActionExecState, max_steps: usize, event: ExecEvent) -> (r: (ActionExecState, ExecRequest))
    requires
        state.step < usize::MAX,
        match state.pending {
            Some(Pending::While(_, n)) => n < usize::MAX,
            _ => true,
        },
    ensures
        (r.0@, r.1@) == exec_advance_spec(*model, state@, max_steps as nat, event@),
{
    let mut s = state;
    if s.status != ActionExecStatus::Running {
        return (s, ExecRequest::Finished);
    }
    let ghost s0 = s@;
    match s.pending.take() {
        Some(pd) => {
            assert(s@ == ExecView { pending: None, ..s0 });
            answer_exec(model, s, pd, event)
        },
        None => {
            let ghost w0 = s.work@;
            match s.work.pop() {
                None => {
                    s.status = ActionExecStatus::Completed;
                    (s, ExecRequest::Finished)
                },
                Some(it) => {
                    assert(item_views(s.work@) =~= item_views(w0).drop_last());
                    assert(it@ == s0.work.last());
                    match it {
                        ExecItem::Run(p) => {
                            if s.step >= max_steps {
                                s.status = ActionExecStatus::MaxSteps;
                                after_exec(s)
                            } else {
                                match step_ref(model, &p) {
                                    Some(st) => run_step_exec(model, s, p, st),
                                    None => after_exec(s),
                                }
                            }
                        },
                        ExecItem::RunChildren(p, k) => {
                            if k < children_len_exec(model, &p) {
                                let q = extended(&p, k);
                                push_item(&mut s, ExecItem::RunChildren(p, k + 1));
                                push_item(&mut s, ExecItem::Run(q));
                                after_exec(s)
                            } else {
                                after_exec(s)
                            }
                        },
                        ExecItem::WhileCheck(p, n) => {
                            if s.step >= max_steps {
                                s.status = ActionExecStatus::MaxSteps;
                                after_exec(s)
                            } else {
                                match step_ref(model, &p) {
                                    Some(ActionStep::WhileLoop { condition, .. }) => {
                                        let c = own(condition.as_str());
                                        s.pending = Some(Pending::While(p, n));
                                        (s, ExecRequest::EvalGuard(c))
                                    },
                                    _ => after_exec(s),
                                }
                            }
                        },
                    }
                },
            }
        },
    }
}

// ------------------------------------------------------------------------
// Report
// ------------------------------------------------------------------------

/// The text of a status.
pub open spec fn exec_status_text(s: ActionExecStatus) -> Seq<char> {
    match s {
        ActionExecStatus::Running => "running"@,
        ActionExecStatus::Completed => "completed"@,
        ActionExecStatus::Error => "error"@,
        ActionExecStatus::MaxSteps => "max steps reached"@,
    }
}

impl ActionExecStatus {
    /// The text of the status.
    pub fn to_string(&self) -> (r: String)
        ensures
            r@ == exec_status_text(*self),
    {
        match self {
            ActionExecStatus::Running => own("running"),
            ActionExecStatus::Completed => own("completed"),
            ActionExecStatus::Error => own("error"),
            ActionExecStatus::MaxSteps => own("max steps reached"),
        }
    }
}

/// The line of one trace entry.
pub open spec fn entry_line(e: TraceView) -> Seq<char> {
    "  Step "@ + decimal(e.0) + ": ["@ + e.1 + "] "@ + e.2
}

/// The lines of a report: the action, each trace entry, the status with the
/// step count, and the variables' lines (`name = value`) when there are any.
pub open spec fn action_trace_lines(s: ExecView, env_lines: Seq<Seq<char>>) -> Seq<Seq<char>> {
    seq!["Action: "@ + s.name, seq![]] + s.trace.map_values(|e: TraceView| entry_line(e)) + seq![
        seq![],
        "Status: "@ + exec_status_text(s.status) + " ("@ + decimal(s.step) + " steps)"@,
    ] + if env_lines.len() > 0 {
        seq![seq![], "Environment:"@] + env_lines.map_values(|l: Seq<char>| "  "@ + l)
    } else {
        seq![]
    }
}

/// The report of an execution, one line per entry, joined by newlines.
pub open spec fn action_trace_text(s: ExecView, env_lines: Seq<Seq<char>>) -> Seq<char> {
    join_with(action_trace_lines(s, env_lines), "\n"@)
}

/// An execution's report as text; `env_lines` are the run's variables as
/// `name = value`, in the order to show them.
pub fn format_action_trace_text(state: &ActionExecState, env_lines: &Vec<String>) -> (r: String)
    ensures
        r@ == action_trace_text(state@, env_lines.deep_view()),
{
    let ghost sv = state@;
    let mut lines: Vec<String> = Vec::new();
    let mut l = own("Action: ");
    push_str(&mut l, state.action_name.as_str());
    lines.push(l);
    lines.push(String::new());
    let ghost head = lines.deep_view();
    let mut i: usize = 0;
    while i < state.trace.len()
        invariant
            i <= state.trace@.len(),
            sv == state@,
            lines.deep_view() == head + sv.trace.take(i as int).map_values(|e: TraceView| entry_line(e)),
        decreases state.trace@.len() - i,
    {
        let e = &state.trace[i];
        let mut x = own("  Step ");
        let d = usize_to_decimal(e.step);
        push_str(&mut x, d.as_str());
        push_str(&mut x, ": [");
        push_str(&mut x, e.kind.as_str());
        push_str(&mut x, "] ");
        push_str(&mut x, e.description.as_str());
        let ghost l0 = lines.deep_view();
        lines.push(x);
        assert(sv.trace[i as int] == e@);
        assert(lines.deep_view() =~= l0.push(entry_line(e@)));
        assert(sv.trace.take(i + 1).map_values(|e: TraceView| entry_line(e)) =~= sv.trace.take(i as int).map_values(
            |e: TraceView| entry_line(e),
        ).push(entry_line(sv.trace[i as int])));
        i = i + 1;
    }
    assert(sv.trace.take(i as int) =~= sv.trace);
    let ghost mid = lines.deep_view();
    lines.push(String::new());
    let mut l = own("Status: ");
    let st = state.status.to_string();
    push_str(&mut l, st.as_str());
    push_str(&mut l, " (");
    let d = usize_to_decimal(state.step);
    push_str(&mut l, d.as_str());
    push_str(&mut l, " steps)");
    lines.push(l);
    let ghost tail0 = lines.deep_view();
    assert(tail0 =~= head + sv.trace.map_values(|e: TraceView| entry_line(e)) + seq![
        seq![],
        "Status: "@ + exec_status_text(sv.status) + " ("@ + decimal(sv.step) + " steps)"@,
    ]);
    let ghost ev = env_lines.deep_view();
    if env_lines.len() > 0 {
        lines.push(String::new());
        lines.push(own("Environment:"));
        let ghost h2 = lines.deep_view();
        assert(h2 =~= tail0 + seq![seq![], "Environment:"@]);
        let mut j: usize = 0;
        while j < env_lines.len()
            invariant
                j <= env_lines@.len(),
                ev == env_lines.deep_view(),
                lines.deep_view() == h2 + ev.take(j as int).map_values(|l: Seq<char>| "  "@ + l),
            decreases env_lines@.len() - j,
        {
            let mut x = own("  ");
            push_str(&mut x, env_lines[j].as_str());
            let ghost l0 = lines.deep_view();
            lines.push(x);
            assert(ev[j as int] == env_lines@[j as int]@);
            assert(lines.deep_view() =~= l0.push("  "@ + ev[j as int]));
            assert(ev.take(j + 1).map_values(|l: Seq<char>| "  "@ + l) =~= ev.take(j as int).map_values(
                |l: Seq<char>| "  "@ + l,
            ).push("  "@ + ev[j as int]));
            j = j + 1;
        }
        assert(ev.take(j as int) =~= ev);
        assert(lines.deep_view() =~= tail0 + (seq![seq![], "Environment:"@] + ev.map_values(|l: Seq<char>| "  "@ + l)));
        assert(lines.deep_view() =~= action_trace_lines(sv, ev));
    } else {
        assert(lines.deep_view() =~= action_trace_lines(sv, ev));
    }
    join_strings(&lines, "\n")
}

} // verus!
