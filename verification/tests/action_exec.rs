use sysml_core::model::Span;
use sysml_core::sim::action_exec::{
    exec_advance, exec_start, format_action_trace_text, ActionExecState, ActionExecStatus, ExecEvent, ExecRequest,
};
use sysml_core::sim::action_flow::{ActionModel, ActionStep, DecideBranch};

fn perform(name: &str) -> ActionStep {
    ActionStep::Perform { name: name.to_string(), span: Span::default() }
}

fn model(name: &str, steps: Vec<ActionStep>) -> ActionModel {
    ActionModel { name: name.to_string(), steps, span: Span::default() }
}

/// A tiny evaluator over numeric variables: literals, variables, `+`, `*`
/// and `<` between two operands, and `true`/`false`.
struct Vars(Vec<(String, f64)>);

impl Vars {
    fn get(&self, k: &str) -> Option<f64> {
        self.0.iter().find(|(n, _)| n == k).map(|(_, v)| *v)
    }

    fn operand(&self, t: &str) -> Result<f64, String> {
        t.parse::<f64>().ok().or_else(|| self.get(t)).ok_or_else(|| format!("unknown variable {t}"))
    }

    fn value(&self, e: &str) -> Result<f64, String> {
        let parts: Vec<&str> = e.split_whitespace().collect();
        match parts.as_slice() {
            [a] => self.operand(a),
            [a, "+", b] => Ok(self.operand(a)? + self.operand(b)?),
            [a, "*", b] => Ok(self.operand(a)? * self.operand(b)?),
            _ => Err(format!("cannot evaluate {e}")),
        }
    }

    fn condition(&self, e: &str) -> bool {
        let parts: Vec<&str> = e.split_whitespace().collect();
        match parts.as_slice() {
            ["true"] => true,
            ["false"] => false,
            [a, "<", b] => matches!((self.operand(a), self.operand(b)), (Ok(x), Ok(y)) if x < y),
            _ => false,
        }
    }
}

/// Drive an execution to its end, as a caller holding the variables does.
fn run(m: &ActionModel, max_steps: usize, vars: &mut Vars) -> ActionExecState {
    let mut state = exec_start(m);
    let mut event = ExecEvent::Start;
    loop {
        let (next, request) = exec_advance(m, state, max_steps, event);
        state = next;
        event = match request {
            ExecRequest::EvalGuard(c) => ExecEvent::Guard(vars.condition(&c)),
            ExecRequest::EvalAssign(t, v) => match vars.value(&v) {
                Ok(x) => {
                    vars.0.retain(|(n, _)| n != &t);
                    vars.0.push((t.clone(), x));
                    ExecEvent::Assigned(format!("{x}"))
                },
                Err(e) => ExecEvent::AssignFailed(e),
            },
            ExecRequest::Continue => ExecEvent::Start,
            ExecRequest::Finished => break,
        };
    }
    state
}

fn descriptions(s: &ActionExecState) -> Vec<&str> {
    s.trace.iter().map(|e| e.description.as_str()).collect()
}

#[test]
fn execute_sequential_actions() {
    let m = model("Process", vec![perform("step1"), perform("step2"), perform("step3")]);
    let result = run(&m, 1000, &mut Vars(vec![]));
    assert_eq!(result.status, ActionExecStatus::Completed);
    assert_eq!(result.step, 3);
    assert_eq!(result.trace.len(), 3);
    assert_eq!(result.trace[0].description, "perform step1");
    assert_eq!(result.trace[1].description, "perform step2");
    assert_eq!(result.trace[2].description, "perform step3");
}

fn conditional(condition: &str) -> ActionModel {
    model(
        "Conditional",
        vec![ActionStep::IfAction {
            condition: condition.to_string(),
            then_step: Box::new(perform("yes_action")),
            else_step: Some(Box::new(perform("no_action"))),
            span: Span::default(),
        }],
    )
}

#[test]
fn execute_if_true_branch() {
    let result = run(&conditional("true"), 1000, &mut Vars(vec![]));
    assert_eq!(result.status, ActionExecStatus::Completed);
    assert_eq!(result.trace.len(), 2);
    assert_eq!(result.trace[1].description, "perform yes_action");
}

#[test]
fn execute_if_false_branch() {
    let result = run(&conditional("false"), 1000, &mut Vars(vec![]));
    assert_eq!(result.trace.len(), 2);
    assert_eq!(result.trace[1].description, "perform no_action");
    assert_eq!(result.trace[0].description, "if -> false");
}

fn assign(target: &str, value: &str) -> ActionStep {
    ActionStep::Assign { target: target.to_string(), value: value.to_string(), span: Span::default() }
}

#[test]
fn execute_assign_action() {
    let m = model("Assigner", vec![assign("x", "42"), assign("y", "x * 2")]);
    let mut vars = Vars(vec![]);
    let result = run(&m, 1000, &mut vars);
    assert_eq!(result.status, ActionExecStatus::Completed);
    assert_eq!(vars.get("x"), Some(42.0));
    assert_eq!(vars.get("y"), Some(84.0));
    assert_eq!(descriptions(&result), vec!["assign x := 42", "assign y := 84"]);
}

#[test]
fn execute_fork_join() {
    let m = model(
        "Parallel",
        vec![
            ActionStep::Fork {
                name: Some("split".to_string()),
                branches: vec![perform("branch_a"), perform("branch_b")],
                span: Span::default(),
            },
            ActionStep::Join { name: Some("sync".to_string()), span: Span::default() },
        ],
    );
    let result = run(&m, 1000, &mut Vars(vec![]));
    assert_eq!(result.status, ActionExecStatus::Completed);
    assert_eq!(result.trace.len(), 4);
    assert_eq!(result.trace[0].kind, "fork");
    assert_eq!(result.trace[3].kind, "join");
    assert_eq!(descriptions(&result), vec!["fork split (2 branches)", "perform branch_a", "perform branch_b", "join sync"]);
}

#[test]
fn execute_send_action() {
    let m = model(
        "Sender",
        vec![ActionStep::Send {
            payload: Some("SignalA".to_string()),
            via: Some("port1".to_string()),
            to: Some("receiver".to_string()),
            span: Span::default(),
        }],
    );
    let result = run(&m, 1000, &mut Vars(vec![]));
    assert_eq!(result.status, ActionExecStatus::Completed);
    assert_eq!(result.trace[0].description, "send SignalA via port1 to receiver");
}

#[test]
fn execute_while_loop() {
    let m = model(
        "Counter",
        vec![
            assign("i", "0"),
            ActionStep::WhileLoop {
                condition: "i < 3".to_string(),
                body: Box::new(assign("i", "i + 1")),
                span: Span::default(),
            },
        ],
    );
    let mut vars = Vars(vec![]);
    let result = run(&m, 1000, &mut vars);
    assert_eq!(result.status, ActionExecStatus::Completed);
    assert_eq!(vars.get("i"), Some(3.0));
    assert_eq!(
        descriptions(&result),
        vec![
            "assign i := 0",
            "while iteration 0",
            "assign i := 1",
            "while iteration 1",
            "assign i := 2",
            "while iteration 2",
            "assign i := 3",
        ]
    );
}

#[test]
fn execute_max_steps() {
    let m = model(
        "Infinite",
        vec![ActionStep::WhileLoop { condition: "true".to_string(), body: Box::new(perform("loop_body")), span: Span::default() }],
    );
    let result = run(&m, 10, &mut Vars(vec![]));
    assert_eq!(result.status, ActionExecStatus::MaxSteps);
    assert_eq!(result.step, 10);
}

#[test]
fn format_text_output() {
    let m = model("Test", vec![perform("doSomething")]);
    let result = run(&m, 1000, &mut Vars(vec![]));
    let text = format_action_trace_text(&result, &vec![]);
    assert!(text.contains("Action: Test"));
    assert!(text.contains("perform doSomething"));
    assert!(text.contains("completed"));
    assert_eq!(text, "Action: Test\n\n  Step 0: [perform] perform doSomething\n\nStatus: completed (1 steps)");
}

#[test]
fn report_lists_the_variables() {
    let m = model("Assigner", vec![assign("x", "42")]);
    let result = run(&m, 1000, &mut Vars(vec![]));
    let text = format_action_trace_text(&result, &vec!["x = 42".to_string()]);
    assert_eq!(
        text,
        "Action: Assigner\n\n  Step 0: [assign] assign x := 42\n\nStatus: completed (1 steps)\n\nEnvironment:\n  x = 42"
    );
}

#[test]
fn decision_takes_the_first_branch_whose_guard_holds() {
    let m = model(
        "Choose",
        vec![ActionStep::Decide {
            name: None,
            branches: vec![
                DecideBranch { guard: Some("false".to_string()), target: "a".to_string() },
                DecideBranch { guard: Some("true".to_string()), target: "b".to_string() },
                DecideBranch { guard: None, target: "c".to_string() },
            ],
            span: Span::default(),
        }],
    );
    let result = run(&m, 1000, &mut Vars(vec![]));
    assert_eq!(descriptions(&result), vec!["decide decide -> b"]);
}

#[test]
fn decision_without_a_holding_guard_takes_none() {
    let m = model(
        "Choose",
        vec![ActionStep::Decide {
            name: Some("pick".to_string()),
            branches: vec![DecideBranch { guard: Some("false".to_string()), target: "a".to_string() }],
            span: Span::default(),
        }],
    );
    let result = run(&m, 1000, &mut Vars(vec![]));
    assert_eq!(descriptions(&result), vec!["decide pick -> none"]);
}

#[test]
fn failed_assignment_stops_with_an_error() {
    let m = model("Broken", vec![assign("x", "nope"), perform("after")]);
    let result = run(&m, 1000, &mut Vars(vec![]));
    assert_eq!(result.status, ActionExecStatus::Error);
    assert_eq!(result.trace[0].kind, "error");
    assert_eq!(result.trace[0].description, "assign x failed: unknown variable nope");
    assert_eq!(result.trace.len(), 1);
}

#[test]
fn done_completes_before_later_steps() {
    let m = model(
        "Early",
        vec![
            ActionStep::Sequence { steps: vec![perform("a"), ActionStep::Done { span: Span::default() }], span: Span::default() },
            perform("b"),
        ],
    );
    let result = run(&m, 1000, &mut Vars(vec![]));
    assert_eq!(result.status, ActionExecStatus::Completed);
    assert_eq!(descriptions(&result), vec!["perform a", "done"]);
}

#[test]
fn for_loop_runs_its_body_once() {
    let m = model(
        "Each",
        vec![ActionStep::ForLoop {
            variable: "w".to_string(),
            collection: "wheels".to_string(),
            body: Box::new(perform("check")),
            span: Span::default(),
        }],
    );
    let result = run(&m, 1000, &mut Vars(vec![]));
    assert_eq!(descriptions(&result), vec!["for w in wheels", "perform check"]);
    assert_eq!(ActionExecStatus::MaxSteps.to_string(), "max steps reached");
}
