use sysml_core::model::Span;
use sysml_core::sim::state_machine::{StateMachineModel, StateNode, Transition, Trigger};
use sysml_core::sim::state_sim::{format_trace_text, simulate, step, SimConfig, SimStatus, SimulationState};

fn state(name: &str) -> StateNode {
    StateNode { name: name.to_string(), entry_action: None, do_action: None, exit_action: None, span: Span::default() }
}

fn transition(source: &str, target: &str, trigger: Option<Trigger>, guard: Option<&str>) -> Transition {
    Transition {
        name: None,
        source: source.to_string(),
        target: target.to_string(),
        trigger,
        guard: guard.map(|g| g.to_string()),
        effect: None,
        span: Span::default(),
    }
}

fn next() -> Option<Trigger> {
    Some(Trigger::Signal("next".to_string()))
}

fn machine(name: &str, states: Vec<StateNode>, transitions: Vec<Transition>, entry: Option<&str>) -> StateMachineModel {
    StateMachineModel {
        name: name.to_string(),
        states,
        transitions,
        entry_state: entry.map(|e| e.to_string()),
        span: Span::default(),
    }
}

fn traffic_light() -> StateMachineModel {
    machine(
        "TrafficLight",
        vec![state("red"), state("green"), state("yellow")],
        vec![
            transition("red", "green", next(), None),
            transition("green", "yellow", next(), None),
            transition("yellow", "red", next(), None),
        ],
        Some("red"),
    )
}

fn config(max_steps: usize, events: &[&str]) -> SimConfig {
    SimConfig { max_steps, events: events.iter().map(|e| e.to_string()).collect() }
}

fn all_pass(m: &StateMachineModel) -> Vec<bool> {
    vec![true; m.transitions.len()]
}

#[test]
fn simulate_traffic_light_cycle() {
    let machine = traffic_light();
    let result = simulate(&machine, &config(10, &["next", "next", "next"]), &all_pass(&machine));
    assert_eq!(result.step, 3);
    assert_eq!(result.current_state, "red");
    assert_eq!(result.trace.len(), 3);
    assert_eq!(result.trace[0].from_state, "red");
    assert_eq!(result.trace[0].to_state, "green");
    assert_eq!(result.trace[1].to_state, "yellow");
    assert_eq!(result.trace[2].to_state, "red");
}

#[test]
fn simulate_deadlock_no_events() {
    let machine = traffic_light();
    let result = simulate(&machine, &config(10, &[]), &all_pass(&machine));
    assert_eq!(result.status, SimStatus::Deadlocked);
    assert_eq!(result.current_state, "red");
}

#[test]
fn simulate_triggerless_transitions() {
    let machine = machine(
        "Auto",
        vec![state("a"), state("b"), state("done")],
        vec![transition("a", "b", None, None), transition("b", "done", None, None)],
        Some("a"),
    );
    let result = simulate(&machine, &config(100, &[]), &all_pass(&machine));
    assert_eq!(result.status, SimStatus::Completed);
    assert_eq!(result.step, 2);
    assert_eq!(result.current_state, "done");
}

#[test]
fn simulate_with_guard() {
    let machine = machine(
        "Guarded",
        vec![state("idle"), state("active")],
        vec![transition("idle", "active", None, Some("temperature > 100"))],
        Some("idle"),
    );
    // The guard fails: temperature 50.
    let result = simulate(&machine, &config(5, &[]), &vec![false]);
    assert_eq!(result.status, SimStatus::Deadlocked);
    assert_eq!(result.current_state, "idle");

    // The guard holds: temperature 150.
    let result = simulate(&machine, &config(5, &[]), &vec![true]);
    assert_eq!(result.current_state, "active");
    assert_eq!(result.trace[0].guard_result, Some(true));
}

#[test]
fn simulate_max_steps() {
    let machine = machine("Loop", vec![state("a")], vec![transition("a", "a", None, None)], Some("a"));
    let result = simulate(&machine, &config(5, &[]), &all_pass(&machine));
    assert_eq!(result.status, SimStatus::MaxSteps);
    assert_eq!(result.step, 5);
}

#[test]
fn step_by_step() {
    let machine = traffic_light();
    let start = SimulationState {
        machine_name: "TrafficLight".to_string(),
        current_state: "red".to_string(),
        step: 0,
        trace: Vec::new(),
        status: SimStatus::Running,
    };
    let guards = all_pass(&machine);
    let stepped = step(&machine, &start, Some("next"), &guards);
    assert_eq!(stepped.current_state, "green");
    assert_eq!(stepped.step, 1);

    let stepped2 = step(&machine, &stepped, Some("next"), &guards);
    assert_eq!(stepped2.current_state, "yellow");
}

#[test]
fn step_records_actions_and_trigger_text() {
    let mut red = state("red");
    red.exit_action = Some("stopTimer".to_string());
    let mut green = state("green");
    green.entry_action = Some("startTimer".to_string());
    let mut t = transition("red", "green", Some(Trigger::Completion), Some("ready"));
    t.name = Some("go".to_string());
    t.effect = Some("log".to_string());
    let machine = machine("Light", vec![red, green], vec![t], Some("red"));
    let start = SimulationState {
        machine_name: "Light".to_string(),
        current_state: "red".to_string(),
        step: 0,
        trace: Vec::new(),
        status: SimStatus::Running,
    };
    let stepped = step(&machine, &start, None, &vec![true]);
    let s = &stepped.trace[0];
    assert_eq!(s.step, 0);
    assert_eq!(s.from_state, "red");
    assert_eq!(s.to_state, "green");
    assert_eq!(s.transition_name.as_deref(), Some("go"));
    assert_eq!(s.trigger.as_deref(), Some("completion"));
    assert_eq!(s.guard_result, Some(true));
    assert_eq!(s.effect.as_deref(), Some("log"));
    assert_eq!(s.exit_action.as_deref(), Some("stopTimer"));
    assert_eq!(s.entry_action.as_deref(), Some("startTimer"));
    assert_eq!(stepped.status, SimStatus::Running);
}

#[test]
fn step_without_match_leaves_the_state_unchanged() {
    let machine = traffic_light();
    let start = SimulationState {
        machine_name: "TrafficLight".to_string(),
        current_state: "red".to_string(),
        step: 4,
        trace: Vec::new(),
        status: SimStatus::Running,
    };
    let stepped = step(&machine, &start, Some("stop"), &all_pass(&machine));
    assert_eq!(stepped.current_state, "red");
    assert_eq!(stepped.step, 4);
    assert!(stepped.trace.is_empty());
    assert_eq!(stepped.status, SimStatus::Running);
}

#[test]
fn unmatched_events_are_skipped() {
    let machine = traffic_light();
    let result = simulate(&machine, &config(10, &["stop", "next"]), &all_pass(&machine));
    assert_eq!(result.current_state, "green");
    assert_eq!(result.step, 1);
    assert_eq!(result.status, SimStatus::Deadlocked);
}

#[test]
fn machine_without_states_is_deadlocked_at_once() {
    let machine = machine("Empty", vec![], vec![], None);
    let result = simulate(&machine, &config(10, &[]), &vec![]);
    assert_eq!(result.status, SimStatus::Deadlocked);
    assert_eq!(result.current_state, "");
    assert_eq!(result.machine_name, "Empty");
}

#[test]
fn run_starts_at_first_state_without_entry() {
    let machine = machine("NoEntry", vec![state("s"), state("done")], vec![transition("s", "done", None, None)], None);
    let result = simulate(&machine, &config(10, &[]), &all_pass(&machine));
    assert_eq!(result.trace[0].from_state, "s");
    assert_eq!(result.status, SimStatus::Completed);
}

#[test]
fn trace_format_text() {
    let machine = traffic_light();
    let result = simulate(&machine, &config(10, &["next", "next"]), &all_pass(&machine));
    let text = format_trace_text(&result);
    assert!(text.contains("TrafficLight"));
    assert!(text.contains("red"));
    assert!(text.contains("green"));
    assert!(text.contains("[next]"));
}

#[test]
fn trace_text_lists_every_step_and_action() {
    let mut red = state("red");
    red.exit_action = Some("stopTimer".to_string());
    let mut t = transition("red", "green", next(), Some("ready"));
    t.name = Some("go".to_string());
    t.effect = Some("log".to_string());
    let machine = machine("Light", vec![red, state("green")], vec![t], Some("red"));
    let result = simulate(&machine, &config(10, &["next"]), &vec![true]);
    let text = format_trace_text(&result);
    assert_eq!(
        text,
        "State Machine: Light\nInitial state: red\n\n  Step 0: red -- [next] guard=true (go)--> green\n          exit: stopTimer\n          effect: log\n\nStatus: deadlocked (1 steps, current: green)"
    );
}

#[test]
fn trace_text_of_a_run_that_never_moved() {
    let machine = traffic_light();
    let result = simulate(&machine, &config(10, &[]), &all_pass(&machine));
    assert_eq!(
        format_trace_text(&result),
        "State Machine: TrafficLight\nInitial state: red\n\n\nStatus: deadlocked (0 steps, current: red)"
    );
}

#[test]
fn run_is_bounded_and_traces_every_step() {
    let machine = machine("Loop", vec![state("a")], vec![transition("a", "a", None, None)], Some("a"));
    for max in [0usize, 1, 3, 7] {
        let result = simulate(&machine, &config(max, &[]), &all_pass(&machine));
        assert_eq!(result.step, max);
        assert_eq!(result.trace.len(), result.step);
        assert_eq!(result.status, SimStatus::MaxSteps);
    }
}

#[test]
fn status_texts() {
    assert_eq!(SimStatus::Running.to_string(), "running");
    assert_eq!(SimStatus::Completed.to_string(), "completed");
    assert_eq!(SimStatus::Deadlocked.to_string(), "deadlocked");
    assert_eq!(SimStatus::MaxSteps.to_string(), "max steps reached");
}

#[test]
fn completion_transition_leaves_the_event_pending() {
    let machine = machine(
        "Go",
        vec![state("a"), state("b"), state("c")],
        vec![
            transition("a", "b", Some(Trigger::Completion), None),
            transition("b", "c", Some(Trigger::Signal("go".to_string())), None),
        ],
        Some("a"),
    );
    let result = simulate(&machine, &config(10, &["go"]), &all_pass(&machine));
    assert_eq!(result.current_state, "c");
    assert_eq!(result.step, 2);
    assert_eq!(result.trace[1].trigger.as_deref(), Some("go"));
}
