//! Stepping and running a state machine.
//!
//! A step takes the first transition, in model order, out of the current
//! state whose trigger matches the event (a completion or untriggered
//! transition always matches) and whose guard holds.  Guards are
//! expressions over the run's variables, which steps do not change, so the
//! caller evaluates each transition's guard once and hands the results in.
use vstd::prelude::*;
use crate::model::opt_view;
use crate::sim::state_machine::{StateMachineModel, StateNode, Transition, Trigger};
use crate::qualified_name::{join_strings, join_with};
use crate::text::{decimal, own, push_str, str_eq, usize_to_decimal};

verus! {

/// Status of a run.
#[derive(Debug, Clone, Copy, PartialEq, Eq, Structural)]
pub enum SimStatus {
    Running,
    Completed,
    Deadlocked,
    MaxSteps,
}

/// One fired transition in a run's trace.
#[derive(Debug)]
pub struct SimStep {
    pub step: usize,
    pub from_state: String,
    pub transition_name: Option<String>,
    pub trigger: Option<String>,
    pub guard_result: Option<bool>,
    pub effect: Option<String>,
    pub to_state: String,
    pub exit_action: Option<String>,
    pub entry_action: Option<String>,
}

/// The state of a run.
#[derive(Debug)]
pub struct SimulationState {
    pub machine_name: String,
    pub current_state: String,
    pub step: usize,
    pub trace: Vec<SimStep>,
    pub status: SimStatus,
}

/// A trace entry as plain data.
pub struct StepView {
    pub step: nat,
    pub from: Seq<char>,
    pub name: Option<Seq<char>>,
    pub trigger: Option<Seq<char>>,
    pub guard_result: Option<bool>,
    pub effect: Option<Seq<char>>,
    pub to: Seq<char>,
    pub exit: Option<Seq<char>>,
    pub entry: Option<Seq<char>>,
}

/// A run's state as plain data.
pub struct SimView {
    pub machine: Seq<char>,
    pub current: Seq<char>,
    pub step: nat,
    pub trace: Seq<StepView>,
    pub status: SimStatus,
}

impl View for SimStep {
    type V = StepView;

    open spec fn view(&self) -> StepView {
        StepView {
            step: self.step as nat,
            from: self.from_state@,
            name: opt_view(self.transition_name),
            trigger: opt_view(self.trigger),
            guard_result: self.guard_result,
            effect: opt_view(self.effect),
            to: self.to_state@,
            exit: opt_view(self.exit_action),
            entry: opt_view(self.entry_action),
        }
    }
}

/// The plain data of a trace.
pub open spec fn trace_view(t: Seq<SimStep>) -> Seq<StepView> {
    t.map_values(|s: SimStep| s@)
}

impl View for SimulationState {
    type V = SimView;

    open spec fn view(&self) -> SimView {
        SimView {
            machine: self.machine_name@,
            current: self.current_state@,
            step: self.step as nat,
            trace: trace_view(self.trace@),
            status: self.status,
        }
    }
}

/// The text of an optional event.
pub open spec fn event_view(e: Option<&str>) -> Option<Seq<char>> {
    match e {
        Some(x) => Some(x@),
        None => None,
    }
}

/// Whether a trigger lets a transition fire on `event`.
pub open spec fn trigger_ok(t: Option<Trigger>, event: Option<Seq<char>>) -> bool {
    match t {
        Some(Trigger::Signal(s)) => event == Some(s@),
        _ => true,
    }
}

/// Whether transition `i` fires from `cur` on `event`.
pub open spec fn fires(m: StateMachineModel, i: int, cur: Seq<char>, event: Option<Seq<char>>, guard_ok: Seq<bool>) -> bool {
    let t = m.transitions@[i];
    &&& t.source@ == cur
    &&& trigger_ok(t.trigger, event)
    &&& (t.guard is None || guard_ok[i])
}

/// The first transition from index `i` on that fires.
pub open spec fn first_firing(m: StateMachineModel, cur: Seq<char>, event: Option<Seq<char>>, guard_ok: Seq<bool>, i: int) -> Option<int>
    decreases m.transitions@.len() - i,
{
    if i < 0 || i >= m.transitions@.len() {
        None
    } else if fires(m, i, cur, event, guard_ok) {
        Some(i)
    } else {
        first_firing(m, cur, event, guard_ok, i + 1)
    }
}

/// Whether some transition leaves `cur`.
pub open spec fn has_outgoing(m: StateMachineModel, cur: Seq<char>) -> bool {
    exists|i: int| 0 <= i < m.transitions@.len() && (#[trigger] m.transitions@[i]).source@ == cur
}

/// The first state named `name`, if any.
pub open spec fn state_index(states: Seq<StateNode>, name: Seq<char>, from: int) -> Option<int>
    decreases states.len() - from,
{
    if from < 0 || from >= states.len() {
        None
    } else if states[from].name@ == name {
        Some(from)
    } else {
        state_index(states, name, from + 1)
    }
}

/// The exit action of the first state named `name`.
pub open spec fn exit_of(m: StateMachineModel, name: Seq<char>) -> Option<Seq<char>> {
    match state_index(m.states@, name, 0) {
        Some(k) => opt_view(m.states@[k].exit_action),
        None => None,
    }
}

/// The entry action of the first state named `name`.
pub open spec fn entry_of(m: StateMachineModel, name: Seq<char>) -> Option<Seq<char>> {
    match state_index(m.states@, name, 0) {
        Some(k) => opt_view(m.states@[k].entry_action),
        None => None,
    }
}

/// How a trigger is shown in the trace.
pub open spec fn trigger_text(t: Option<Trigger>) -> Option<Seq<char>> {
    match t {
        Some(Trigger::Signal(s)) => Some(s@),
        Some(Trigger::Completion) => Some("completion"@),
        None => None,
    }
}

/// The trace entry of transition `t` fired from `s`.
pub open spec fn fired_entry(m: StateMachineModel, s: SimView, t: Transition) -> StepView {
    StepView {
        step: s.step,
        from: s.current,
        name: opt_view(t.name),
        trigger: trigger_text(t.trigger),
        guard_result: if t.guard is Some {
            Some(true)
        } else {
            None
        },
        effect: opt_view(t.effect),
        to: t.target@,
        exit: exit_of(m, s.current),
        entry: entry_of(m, t.target@),
    }
}

/// One step from `s` on `event`: with no transition out of the current
/// state the run completes (in `done`) or deadlocks; otherwise the first
/// transition that fires is taken and traced, completing the run when it
/// reaches `done`; when none fires, nothing changes.
pub open spec fn step_spec(m: StateMachineModel, s: SimView, event: Option<Seq<char>>, guard_ok: Seq<bool>) -> SimView {
    if !has_outgoing(m, s.current) {
        SimView {
            status: if s.current == "done"@ {
                SimStatus::Completed
            } else {
                SimStatus::Deadlocked
            },
            ..s
        }
    } else {
        match first_firing(m, s.current, event, guard_ok, 0) {
            None => s,
            Some(i) => {
                let t = m.transitions@[i];
                SimView {
                    machine: s.machine,
                    current: t.target@,
                    step: s.step + 1,
                    trace: s.trace.push(fired_entry(m, s, t)),
                    status: if t.target@ == "done"@ {
                        SimStatus::Completed
                    } else {
                        s.status
                    },
                }
            },
        }
    }
}

/// A copy of an optional string.
fn copy_opt(o: &Option<String>) -> (r: Option<String>)
    ensures
        opt_view(r) == opt_view(*o),
{
    match o {
        Some(x) => Some(own(x.as_str())),
        None => None,
    }
}

/// A copy of a trace entry.
fn copy_step(s: &SimStep) -> (r: SimStep)
    ensures
        r@ == s@,
{
    SimStep {
        step: s.step,
        from_state: own(s.from_state.as_str()),
        transition_name: copy_opt(&s.transition_name),
        trigger: copy_opt(&s.trigger),
        guard_result: s.guard_result,
        effect: copy_opt(&s.effect),
        to_state: own(s.to_state.as_str()),
        exit_action: copy_opt(&s.exit_action),
        entry_action: copy_opt(&s.entry_action),
    }
}

/// A copy of a run's state.
fn copy_state(s: &SimulationState) -> (r: SimulationState)
    ensures
        r@ == s@,
{
    let mut trace: Vec<SimStep> = Vec::new();
    let mut i: usize = 0;
    while i < s.trace.len()
        invariant
            i <= s.trace@.len(),
            trace_view(trace@) == trace_view(s.trace@).take(i as int),
        decreases s.trace@.len() - i,
    {
        let ghost t0 = trace@;
        let c = copy_step(&s.trace[i]);
        let ghost cv = c@;
        trace.push(c);
        assert(trace_view(trace@) =~= trace_view(t0).push(cv));
        assert(cv == trace_view(s.trace@)[i as int]);
        assert(trace_view(trace@) =~= trace_view(s.trace@).take(i + 1));
        i = i + 1;
    }
    assert(trace_view(s.trace@).take(i as int) =~= trace_view(s.trace@));
    SimulationState {
        machine_name: own(s.machine_name.as_str()),
        current_state: own(s.current_state.as_str()),
        step: s.step,
        trace,
        status: s.status,
    }
}

/// The first state named `name`.
fn find_state(states: &Vec<StateNode>, name: &str) -> (r: Option<usize>)
    ensures
        match r {
            Some(k) => state_index(states@, name@, 0) == Some(k as int) && k < states@.len(),
            None => state_index(states@, name@, 0) is None,
        },
{
    let mut i: usize = 0;
    while i < states.len()
        invariant
            i <= states@.len(),
            state_index(states@, name@, 0) == state_index(states@, name@, i as int),
        decreases states@.len() - i,
    {
        if str_eq(states[i].name.as_str(), name) {
            return Some(i);
        }
        i = i + 1;
    }
    None
}

/// The exit or entry action of the first state named `name`.
fn action_of(states: &Vec<StateNode>, name: &str, exit: bool) -> (r: Option<String>)
    ensures
        opt_view(r) == match state_index(states@, name@, 0) {
            Some(k) => opt_view(if exit {
                states@[k].exit_action
            } else {
                states@[k].entry_action
            }),
            None => None,
        },
{
    match find_state(states, name) {
        Some(k) => if exit {
            copy_opt(&states[k].exit_action)
        } else {
            copy_opt(&states[k].entry_action)
        },
        None => None,
    }
}

/// Advance a run by one step on `event`; `guard_ok[i]` is whether the
/// guard of transition `i` holds.
pub fn step(machine: &StateMachineModel, state: &SimulationState, event: Option<&str>, guard_ok: &Vec<bool>) -> (r: SimulationState)
    requires
        guard_ok@.len() == machine.transitions@.len(),
        state.step < usize::MAX,
    ensures
        r@ == step_spec(*machine, state@, event_view(event), guard_ok@),
{
    let mut new_state = copy_state(state);
    let ghost ev = event_view(event);
    let mut any = false;
    let mut i: usize = 0;
    while i < machine.transitions.len()
        invariant
            i <= machine.transitions@.len(),
            any == exists|j: int| 0 <= j < i && (#[trigger] machine.transitions@[j]).source@ == state.current_state@,
        decreases machine.transitions@.len() - i,
    {
        if str_eq(machine.transitions[i].source.as_str(), state.current_state.as_str()) {
            any = true;
        }
        i = i + 1;
    }
    if !any {
        new_state.status = if str_eq(state.current_state.as_str(), "done") {
            SimStatus::Completed
        } else {
            SimStatus::Deadlocked
        };
        return new_state;
    }
    let mut i: usize = 0;
    while i < machine.transitions.len()
        invariant
            i <= machine.transitions@.len(),
            guard_ok@.len() == machine.transitions@.len(),
            has_outgoing(*machine, state@.current),
            new_state@ == state@,
            state.step < usize::MAX,
            first_firing(*machine, state@.current, ev, guard_ok@, 0) == first_firing(*machine, state@.current, ev, guard_ok@, i as int),
            ev == event_view(event),
        decreases machine.transitions@.len() - i,
    {
        let t = &machine.transitions[i];
        let trigger_ok = match &t.trigger {
            Some(Trigger::Signal(sig)) => match event {
                Some(e) => str_eq(e, sig.as_str()),
                None => false,
            },
            _ => true,
        };
        let guard_holds = match &t.guard {
            Some(_) => guard_ok[i],
            None => true,
        };
        if str_eq(t.source.as_str(), state.current_state.as_str()) && trigger_ok && guard_holds {
            let from = own(state.current_state.as_str());
            let exit_action = action_of(&machine.states, state.current_state.as_str(), true);
            let entry_action = action_of(&machine.states, t.target.as_str(), false);
            let trigger = match &t.trigger {
                Some(Trigger::Signal(sig)) => Some(own(sig.as_str())),
                Some(Trigger::Completion) => Some(own("completion")),
                None => None,
            };
            let entry = SimStep {
                step: new_state.step,
                from_state: from,
                transition_name: copy_opt(&t.name),
                trigger,
                guard_result: match &t.guard {
                    Some(_) => Some(true),
                    None => None,
                },
                effect: copy_opt(&t.effect),
                to_state: own(t.target.as_str()),
                exit_action,
                entry_action,
            };
            let ghost tr0 = new_state.trace@;
            new_state.trace.push(entry);
            new_state.current_state = own(t.target.as_str());
            new_state.step = new_state.step + 1;
            if str_eq(t.target.as_str(), "done") {
                new_state.status = SimStatus::Completed;
            }
            assert(trace_view(new_state.trace@) =~= trace_view(tr0).push(fired_entry(*machine, state@, *t)));
            return new_state;
        }
        i = i + 1;
    }
    new_state
}


/// An event is used up only when there is one.
pub proof fn lemma_consumes_event(m: StateMachineModel, cur: Seq<char>, event: Option<Seq<char>>, guard_ok: Seq<bool>, i: int)
    requires
        0 <= i,
    ensures
        (match first_firing(m, cur, event, guard_ok, i) {
            Some(j) => i <= j < m.transitions@.len() && fires(m, j, cur, event, guard_ok),
            None => true,
        }),
        i == 0 && consumes(m, cur, event, guard_ok) ==> event is Some,
    decreases m.transitions@.len() - i,
{
    if i < m.transitions@.len() && !fires(m, i, cur, event, guard_ok) {
        lemma_consumes_event(m, cur, event, guard_ok, i + 1);
    }
}

/// Whether the step from `cur` on `event` fires a transition triggered by
/// that signal, which uses the event up.
pub open spec fn consumes(m: StateMachineModel, cur: Seq<char>, event: Option<Seq<char>>, guard_ok: Seq<bool>) -> bool {
    &&& has_outgoing(m, cur)
    &&& match first_firing(m, cur, event, guard_ok, 0) {
        Some(i) => m.transitions@[i].trigger matches Some(Trigger::Signal(_)),
        None => false,
    }
}

/// Whether the step from `cur` on `event` fires a transition triggered by
/// that signal.
fn signal_fires(machine: &StateMachineModel, cur: &str, event: Option<&str>, guard_ok: &Vec<bool>) -> (r: bool)
    requires
        guard_ok@.len() == machine.transitions@.len(),
    ensures
        r == consumes(*machine, cur@, event_view(event), guard_ok@),
{
    let ghost ev = event_view(event);
    let mut i: usize = 0;
    while i < machine.transitions.len()
        invariant
            i <= machine.transitions@.len(),
            guard_ok@.len() == machine.transitions@.len(),
            ev == event_view(event),
            first_firing(*machine, cur@, ev, guard_ok@, 0) == first_firing(*machine, cur@, ev, guard_ok@, i as int),
            forall|j: int| 0 <= j < i ==> (#[trigger] machine.transitions@[j]).source@ != cur@,
        decreases machine.transitions@.len() - i,
    {
        let t = &machine.transitions[i];
        let trigger_ok = match &t.trigger {
            Some(Trigger::Signal(sig)) => match event {
                Some(e) => str_eq(e, sig.as_str()),
                None => false,
            },
            _ => true,
        };
        let guard_holds = match &t.guard {
            Some(_) => guard_ok[i],
            None => true,
        };
        let same = str_eq(t.source.as_str(), cur);
        if same && trigger_ok && guard_holds {
            return match &t.trigger {
                Some(Trigger::Signal(_)) => true,
                _ => false,
            };
        }
        if same {
            let ghost k = i;
            let mut j: usize = i + 1;
            while j < machine.transitions.len()
                invariant
                    i < j <= machine.transitions@.len(),
                    guard_ok@.len() == machine.transitions@.len(),
                    ev == event_view(event),
                    machine.transitions@[i as int].source@ == cur@,
                    first_firing(*machine, cur@, ev, guard_ok@, 0) == first_firing(*machine, cur@, ev, guard_ok@, j as int),
                decreases machine.transitions@.len() - j,
            {
                let t = &machine.transitions[j];
                let trigger_ok = match &t.trigger {
                    Some(Trigger::Signal(sig)) => match event {
                        Some(e) => str_eq(e, sig.as_str()),
                        None => false,
                    },
                    _ => true,
                };
                let guard_holds = match &t.guard {
                    Some(_) => guard_ok[j],
                    None => true,
                };
                if str_eq(t.source.as_str(), cur) && trigger_ok && guard_holds {
                    return match &t.trigger {
                        Some(Trigger::Signal(_)) => true,
                        _ => false,
                    };
                }
                j = j + 1;
            }
            return false;
        }
        i = i + 1;
    }
    false
}

/// Settings of a run: a bound on its steps and the events to inject, each
/// consumed when a transition triggered by that signal fires.
#[derive(Debug)]
pub struct SimConfig {
    pub max_steps: usize,
    pub events: Vec<String>,
}

/// The `k`-th event, if there is one.
pub open spec fn event_at(events: Seq<Seq<char>>, k: nat) -> Option<Seq<char>> {
    if k < events.len() {
        Some(events[k as int])
    } else {
        None
    }
}

/// A step either traces one more transition and counts it, or leaves the
/// trace and the count as they were.
pub proof fn lemma_step_shape(m: StateMachineModel, s: SimView, event: Option<Seq<char>>, guard_ok: Seq<bool>)
    ensures
        ({
            let n = step_spec(m, s, event, guard_ok);
            ||| n.trace.len() == s.trace.len() + 1 && n.step == s.step + 1
            ||| n.trace == s.trace && n.step == s.step
        }),
{
}

/// A run from state `s`, the `k`-th event next: it stops at the step bound
/// (`MaxSteps`); a step that fires or ends the run is taken, consuming the
/// event when the transition that fired is triggered by it; when nothing fires
/// the next event is tried, and with none left the run deadlocks.
pub open spec fn run_from(m: StateMachineModel, max: nat, events: Seq<Seq<char>>, guard_ok: Seq<bool>, s: SimView, k: nat) -> SimView
    decreases max - s.step, events.len() - k, if s.status == SimStatus::Running {
        1int
    } else {
        0int
    },
{
    if s.status != SimStatus::Running {
        s
    } else if s.step >= max {
        SimView { status: SimStatus::MaxSteps, ..s }
    } else {
        let ev = event_at(events, k);
        let n = step_spec(m, s, ev, guard_ok);
        proof {
            lemma_step_shape(m, s, ev, guard_ok);
        }
        if n.status != SimStatus::Running || n.trace.len() > s.trace.len() {
            let used = consumes(m, s.current, ev, guard_ok);
            run_from(m, max, events, guard_ok, n, if used {
                k + 1
            } else {
                k
            })
        } else if ev is Some && k + 1 < events.len() {
            run_from(m, max, events, guard_ok, s, k + 1)
        } else {
            SimView { status: SimStatus::Deadlocked, ..s }
        }
    }
}

/// A run never takes more steps than its bound, and its trace holds one
/// entry per step taken.
pub proof fn law_run_bounded(m: StateMachineModel, max: nat, events: Seq<Seq<char>>, guard_ok: Seq<bool>, s: SimView, k: nat)
    requires
        s.step <= max,
        s.trace.len() == s.step,
    ensures
        run_from(m, max, events, guard_ok, s, k).step <= max,
        run_from(m, max, events, guard_ok, s, k).trace.len() == run_from(m, max, events, guard_ok, s, k).step,
    decreases max - s.step, events.len() - k, if s.status == SimStatus::Running {
        1int
    } else {
        0int
    },
{
    if s.status == SimStatus::Running && s.step < max {
        let ev = event_at(events, k);
        let n = step_spec(m, s, ev, guard_ok);
        lemma_step_shape(m, s, ev, guard_ok);
        if n.status != SimStatus::Running || n.trace.len() > s.trace.len() {
            let used = consumes(m, s.current, ev, guard_ok);
            law_run_bounded(m, max, events, guard_ok, n, if used {
                k + 1
            } else {
                k
            });
        } else if ev is Some && k + 1 < events.len() {
            law_run_bounded(m, max, events, guard_ok, s, k + 1);
        }
    }
}

/// Where a run starts: the entry state, else the first state; a machine
/// without states is deadlocked at once.
pub open spec fn initial_run(m: StateMachineModel) -> SimView {
    match m.entry_state {
        Some(e) => SimView { machine: m.name@, current: e@, step: 0, trace: seq![], status: SimStatus::Running },
        None => if m.states@.len() > 0 {
            SimView { machine: m.name@, current: m.states@[0].name@, step: 0, trace: seq![], status: SimStatus::Running }
        } else {
            SimView { machine: m.name@, current: seq![], step: 0, trace: seq![], status: SimStatus::Deadlocked }
        },
    }
}

/// Run a state machine from its start; `guard_ok[i]` is whether the guard
/// of transition `i` holds.
pub fn simulate(machine: &StateMachineModel, config: &SimConfig, guard_ok: &Vec<bool>) -> (r: SimulationState)
    requires
        guard_ok@.len() == machine.transitions@.len(),
    ensures
        r@ == run_from(*machine, config.max_steps as nat, config.events.deep_view(), guard_ok@, initial_run(*machine), 0),
        r.step <= config.max_steps,
        r.trace@.len() == r.step,
{
    let mut state = match &machine.entry_state {
        Some(e) => SimulationState {
            machine_name: own(machine.name.as_str()),
            current_state: own(e.as_str()),
            step: 0,
            trace: Vec::new(),
            status: SimStatus::Running,
        },
        None => if machine.states.len() > 0 {
            SimulationState {
                machine_name: own(machine.name.as_str()),
                current_state: own(machine.states[0].name.as_str()),
                step: 0,
                trace: Vec::new(),
                status: SimStatus::Running,
            }
        } else {
            SimulationState {
                machine_name: own(machine.name.as_str()),
                current_state: String::new(),
                step: 0,
                trace: Vec::new(),
                status: SimStatus::Deadlocked,
            }
        },
    };
    assert(state@ == initial_run(*machine)) by {
        assert(trace_view(state.trace@) =~= Seq::<StepView>::empty());
    }
    let ghost evs = config.events.deep_view();
    let ghost total = run_from(*machine, config.max_steps as nat, evs, guard_ok@, state@, 0);
    let mut k: usize = 0;
    while state.status == SimStatus::Running
        invariant
            guard_ok@.len() == machine.transitions@.len(),
            evs == config.events.deep_view(),
            evs.len() == config.events@.len(),
            k <= evs.len(),
            state.step <= config.max_steps,
            run_from(*machine, config.max_steps as nat, evs, guard_ok@, state@, k as nat) == total,
        decreases config.max_steps - state.step, evs.len() - k, if state.status == SimStatus::Running {
            1int
        } else {
            0int
        },
    {
        if state.step >= config.max_steps {
            state.status = SimStatus::MaxSteps;
        } else {
            let ev: Option<&str> = if k < config.events.len() {
                Some(config.events[k].as_str())
            } else {
                None
            };
            assert(event_view(ev) == event_at(evs, k as nat));
            let ghost s0 = state@;
            let used = signal_fires(machine, state.current_state.as_str(), ev, guard_ok);
            proof {
                lemma_consumes_event(*machine, state@.current, event_at(evs, k as nat), guard_ok@, 0);
            }
            let stepped = step(machine, &state, ev, guard_ok);
            proof {
                lemma_step_shape(*machine, s0, event_at(evs, k as nat), guard_ok@);
            }
            if stepped.status != SimStatus::Running || stepped.trace.len() > state.trace.len() {
                if used {
                    k = k + 1;
                }
                state = stepped;
            } else if ev.is_some() && k + 1 < config.events.len() {
                k = k + 1;
            } else {
                state.status = SimStatus::Deadlocked;
            }
        }
    }
    proof {
        law_run_bounded(*machine, config.max_steps as nat, evs, guard_ok@, initial_run(*machine), 0);
    }
    state
}

/// The text of a run's status.
pub open spec fn status_text(s: SimStatus) -> Seq<char> {
    match s {
        SimStatus::Running => "running"@,
        SimStatus::Completed => "completed"@,
        SimStatus::Deadlocked => "deadlocked"@,
        SimStatus::MaxSteps => "max steps reached"@,
    }
}

/// `pre`, the text and `post` when there is a text; nothing otherwise.
pub open spec fn wrapped(o: Option<Seq<char>>, pre: Seq<char>, post: Seq<char>) -> Seq<char> {
    match o {
        Some(x) => pre + x + post,
        None => seq![],
    }
}

/// `true` or `false`.
pub open spec fn bool_text(b: bool) -> Seq<char> {
    if b {
        "true"@
    } else {
        "false"@
    }
}

/// One line of the form `prefix` and the text, when there is a text.
pub open spec fn action_line(o: Option<Seq<char>>, prefix: Seq<char>) -> Seq<Seq<char>> {
    match o {
        Some(x) => seq![prefix + x],
        None => seq![],
    }
}

/// The lines of one trace entry: the transition, then its exit action,
/// effect and entry action where it has them.
pub open spec fn step_lines(t: StepView) -> Seq<Seq<char>> {
    seq![
        "  Step "@ + decimal(t.step) + ": "@ + t.from + " --"@ + wrapped(t.trigger, " ["@, "]"@) + (match t.guard_result {
            Some(g) => " guard="@ + bool_text(g),
            None => seq![],
        }) + wrapped(t.name, " ("@, ")"@) + "--> "@ + t.to,
    ] + action_line(t.exit, "          exit: "@) + action_line(t.effect, "          effect: "@) + action_line(
        t.entry,
        "          entry: "@,
    )
}

/// The lines of a whole trace.
pub open spec fn trace_lines(t: Seq<StepView>) -> Seq<Seq<char>>
    decreases t.len(),
{
    if t.len() == 0 {
        seq![]
    } else {
        trace_lines(t.drop_last()) + step_lines(t.last())
    }
}

/// The lines of a run's report: the machine, where it started, each traced
/// transition, and the status with the step count and the current state.
pub open spec fn report_lines(s: SimView) -> Seq<Seq<char>> {
    seq![
        "State Machine: "@ + s.machine,
        "Initial state: "@ + (if s.trace.len() > 0 {
            s.trace[0].from
        } else {
            s.current
        }),
        seq![],
    ] + trace_lines(s.trace) + seq![
        seq![],
        "Status: "@ + status_text(s.status) + " ("@ + decimal(s.step) + " steps, current: "@ + s.current + ")"@,
    ]
}

/// Append `pre`, the text of `o` and `post`, when `o` holds a text.
fn push_wrapped(out: &mut String, o: &Option<String>, pre: &str, post: &str)
    ensures
        final(out)@ == old(out)@ + wrapped(opt_view(*o), pre@, post@),
{
    match o {
        Some(x) => {
            push_str(out, pre);
            push_str(out, x.as_str());
            push_str(out, post);
            assert(final(out)@ =~= old(out)@ + wrapped(opt_view(*o), pre@, post@));
        },
        None => {
            assert(out@ =~= old(out)@ + wrapped(opt_view(*o), pre@, post@));
        },
    }
}

/// Append the line `prefix` and the text of `o`, when `o` holds a text.
fn push_action_line(lines: &mut Vec<String>, o: &Option<String>, prefix: &str)
    ensures
        final(lines).deep_view() == old(lines).deep_view() + action_line(opt_view(*o), prefix@),
{
    match o {
        Some(x) => {
            let mut l = own(prefix);
            push_str(&mut l, x.as_str());
            lines.push(l);
            assert(final(lines).deep_view() =~= old(lines).deep_view() + action_line(opt_view(*o), prefix@));
        },
        None => {
            assert(lines.deep_view() =~= old(lines).deep_view() + action_line(opt_view(*o), prefix@));
        },
    }
}

impl SimStatus {
    /// The text of the status.
    pub fn to_string(&self) -> (r: String)
        ensures
            r@ == status_text(*self),
    {
        match self {
            SimStatus::Running => own("running"),
            SimStatus::Completed => own("completed"),
            SimStatus::Deadlocked => own("deadlocked"),
            SimStatus::MaxSteps => own("max steps reached"),
        }
    }
}

/// Append the lines of one trace entry.
fn push_step_lines(lines: &mut Vec<String>, t: &SimStep)
    ensures
        final(lines).deep_view() == old(lines).deep_view() + step_lines(t@),
{
    let mut l = own("  Step ");
    let d = usize_to_decimal(t.step);
    push_str(&mut l, d.as_str());
    push_str(&mut l, ": ");
    push_str(&mut l, t.from_state.as_str());
    push_str(&mut l, " --");
    push_wrapped(&mut l, &t.trigger, " [", "]");
    match t.guard_result {
        Some(g) => {
            push_str(&mut l, " guard=");
            if g {
                push_str(&mut l, "true");
            } else {
                push_str(&mut l, "false");
            }
        },
        None => {},
    }
    push_wrapped(&mut l, &t.transition_name, " (", ")");
    push_str(&mut l, "--> ");
    push_str(&mut l, t.to_state.as_str());
    assert(l@ =~= step_lines(t@)[0]);
    lines.push(l);
    push_action_line(lines, &t.exit_action, "          exit: ");
    push_action_line(lines, &t.effect, "          effect: ");
    push_action_line(lines, &t.entry_action, "          entry: ");
    assert(final(lines).deep_view() =~= old(lines).deep_view() + step_lines(t@));
}

/// A run's report as text: the machine, where it started, each traced
/// transition with its actions, and the status with the step count and the
/// current state, one per line.
pub fn format_trace_text(state: &SimulationState) -> (r: String)
    ensures
        r@ == join_with(report_lines(state@), "\n"@),
{
    let mut lines: Vec<String> = Vec::new();
    let mut l = own("State Machine: ");
    push_str(&mut l, state.machine_name.as_str());
    lines.push(l);
    let mut l = own("Initial state: ");
    if state.trace.len() > 0 {
        push_str(&mut l, state.trace[0].from_state.as_str());
    } else {
        push_str(&mut l, state.current_state.as_str());
    }
    lines.push(l);
    lines.push(String::new());
    let ghost sv = state@;
    let ghost head = lines.deep_view();
    assert(head =~= report_lines(sv).take(3));
    let mut i: usize = 0;
    while i < state.trace.len()
        invariant
            i <= state.trace@.len(),
            sv == state@,
            lines.deep_view() == head + trace_lines(sv.trace.take(i as int)),
        decreases state.trace@.len() - i,
    {
        push_step_lines(&mut lines, &state.trace[i]);
        assert(sv.trace.take(i + 1).drop_last() =~= sv.trace.take(i as int));
        i = i + 1;
    }
    assert(sv.trace.take(i as int) =~= sv.trace);
    lines.push(String::new());
    let mut l = own("Status: ");
    let st = state.status.to_string();
    push_str(&mut l, st.as_str());
    push_str(&mut l, " (");
    let d = usize_to_decimal(state.step);
    push_str(&mut l, d.as_str());
    push_str(&mut l, " steps, current: ");
    push_str(&mut l, state.current_state.as_str());
    push_str(&mut l, ")");
    let ghost mid = lines.deep_view();
    lines.push(l);
    assert(lines.deep_view() =~= mid.push(report_lines(sv).last()));
    assert(report_lines(sv) =~= head + trace_lines(sv.trace) + seq![seq![], report_lines(sv).last()]);
    assert(lines.deep_view() =~= report_lines(sv));
    join_strings(&lines, "\n")
}

} // verus!
