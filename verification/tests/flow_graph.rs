use sysml_core::model::Span;
use sysml_core::sim::action_flow::ActionStep;
use sysml_core::sim::flow_graph::build_flow_graph;

/// Steps laid out one after another, each ten bytes further on.
struct Body {
    steps: Vec<ActionStep>,
    at: usize,
}

fn span(start: usize, end: usize) -> Span {
    Span { start_row: 0, start_col: 0, end_row: 0, end_col: 0, start_byte: start, end_byte: end }
}

impl Body {
    fn new() -> Self {
        Body { steps: Vec::new(), at: 0 }
    }

    fn next(&mut self) -> usize {
        self.at += 10;
        self.at
    }

    fn action(&mut self, name: &str) -> &mut Self {
        let b = self.next();
        self.steps.push(ActionStep::Perform { name: name.to_string(), span: span(b, b + 5) });
        self
    }

    fn fork(&mut self, name: &str) -> &mut Self {
        let b = self.next();
        self.steps.push(ActionStep::Fork { name: Some(name.to_string()), branches: Vec::new(), span: span(b, b + 5) });
        self
    }

    fn join(&mut self, name: &str) -> &mut Self {
        let b = self.next();
        self.steps.push(ActionStep::Join { name: Some(name.to_string()), span: span(b, b + 5) });
        self
    }

    /// `first a then b;`
    fn first(&mut self, a: &str, b: &str) -> &mut Self {
        let p = self.next();
        self.steps.push(ActionStep::Sequence {
            steps: vec![
                ActionStep::Perform { name: a.to_string(), span: span(p, p + 2) },
                ActionStep::Perform { name: b.to_string(), span: span(p + 3, p + 5) },
            ],
            span: span(p, p + 5),
        });
        self
    }

    /// A loose `then x;`.
    fn then(&mut self, x: &str) -> &mut Self {
        self.action(x)
    }
}

fn outline(steps: &[ActionStep]) -> Vec<String> {
    steps
        .iter()
        .map(|s| match s {
            ActionStep::Perform { name, .. } => format!("perform {name}"),
            ActionStep::Fork { name, branches, .. } => {
                format!("fork {} [{}]", name.as_deref().unwrap_or(""), outline(branches).join(", "))
            },
            ActionStep::Join { name, .. } => format!("join {}", name.as_deref().unwrap_or("")),
            ActionStep::Sequence { steps, .. } => format!("seq ({})", outline(steps).join(", ")),
            ActionStep::Done { .. } => "done".to_string(),
            _ => "other".to_string(),
        })
        .collect()
}

#[test]
fn fork_join_flow_graph_from_successions() {
    let mut b = Body::new();
    for a in [
        "driverGetIn",
        "passengerGetIn",
        "checkSafety",
        "driveToDestination",
        "providePower",
        "monitorSystems",
        "driverGetOut",
        "passengerGetOut",
    ] {
        b.action(a);
    }
    b.fork("forkBoard").join("joinBoard").fork("forkDrive").join("joinDrive").fork("forkExit").join("joinExit");
    b.first("start", "forkBoard").then("driverGetIn").then("passengerGetIn");
    b.first("driverGetIn", "joinBoard").first("passengerGetIn", "joinBoard");
    b.first("joinBoard", "checkSafety");
    b.first("checkSafety", "forkDrive").then("driveToDestination").then("providePower").then("monitorSystems");
    b.first("driveToDestination", "joinDrive").first("providePower", "joinDrive").first("monitorSystems", "joinDrive");
    b.first("joinDrive", "forkExit").then("driverGetOut").then("passengerGetOut");
    b.first("driverGetOut", "joinExit").first("passengerGetOut", "joinExit");
    b.first("joinExit", "done");

    let steps = build_flow_graph(std::mem::take(&mut b.steps));
    let forks: Vec<_> = steps.iter().filter(|s| matches!(s, ActionStep::Fork { .. })).collect();
    let joins: Vec<_> = steps.iter().filter(|s| matches!(s, ActionStep::Join { .. })).collect();
    assert_eq!(forks.len(), 3);
    assert_eq!(joins.len(), 3);
    if let ActionStep::Fork { branches, .. } = forks[0] {
        assert_eq!(branches.len(), 2);
    }
    if let ActionStep::Fork { branches, .. } = forks[1] {
        assert_eq!(branches.len(), 3);
    }
    assert_eq!(
        outline(&steps),
        vec![
            "perform start",
            "fork forkBoard [perform driverGetIn, perform passengerGetIn]",
            "join joinBoard",
            "perform checkSafety",
            "fork forkDrive [perform driveToDestination, perform providePower, perform monitorSystems]",
            "join joinDrive",
            "fork forkExit [perform driverGetOut, perform passengerGetOut]",
            "join joinExit",
        ]
    );
}

#[test]
fn body_without_successions_is_unchanged() {
    let mut b = Body::new();
    b.action("a").fork("f").join("j");
    let steps = build_flow_graph(std::mem::take(&mut b.steps));
    assert_eq!(outline(&steps), vec!["perform a", "fork f []", "join j"]);
}

#[test]
fn walk_starts_at_sources_nothing_leads_to() {
    let mut b = Body::new();
    b.first("a", "b").first("c", "d").first("b", "e");
    let steps = build_flow_graph(std::mem::take(&mut b.steps));
    assert_eq!(outline(&steps), vec!["perform a", "perform b", "perform e", "perform c", "perform d"]);
}

#[test]
fn branches_with_several_steps_become_sequences_and_other_steps_follow() {
    let mut b = Body::new();
    b.fork("f").join("j");
    b.first("start", "f").then("x").then("y");
    b.first("x", "x2").first("x2", "j").first("y", "j");
    b.first("j", "z");
    let mid = b.next();
    b.steps.push(ActionStep::Done { span: span(mid, mid + 1) });
    let steps = build_flow_graph(std::mem::take(&mut b.steps));
    assert_eq!(
        outline(&steps),
        vec!["perform start", "fork f [seq (perform x, perform x2), perform y]", "join j", "perform z", "done"]
    );
}

#[test]
fn cycle_without_sources_walks_from_the_first_source() {
    let mut b = Body::new();
    b.first("a", "b").first("b", "a");
    let steps = build_flow_graph(std::mem::take(&mut b.steps));
    assert_eq!(outline(&steps), vec!["perform a", "perform b"]);
}
