use sysml_core::diagram::activity::{add_action_step, build_act_from_action_model};
use sysml_core::diagram::graph::{DiagramGraph, DiagramKind, NodeKind};
use sysml_core::model::Span;
use sysml_core::sim::action_flow::{ActionModel, ActionStep, DecideBranch};

fn perform(name: &str) -> ActionStep {
    ActionStep::Perform { name: name.to_string(), span: Span::default() }
}

fn model(name: &str, steps: Vec<ActionStep>) -> ActionModel {
    ActionModel { name: name.to_string(), steps, span: Span::default() }
}

fn edges(g: &DiagramGraph) -> Vec<(String, String, Option<String>)> {
    g.edges.iter().map(|e| (e.source.clone(), e.target.clone(), e.label.clone())).collect()
}

fn e(s: &str, t: &str, l: Option<&str>) -> (String, String, Option<String>) {
    (s.to_string(), t.to_string(), l.map(|x| x.to_string()))
}

#[test]
fn act_from_action_model() {
    let am = model("Process", vec![perform("Step1"), perform("Step2"), ActionStep::Done { span: Span::default() }]);
    let graph = build_act_from_action_model(&am);
    assert_eq!(graph.kind, DiagramKind::ActionFlowView);
    assert!(graph.has_node("__initial__"));
    assert!(graph.has_node("__final__"));
    let actions: Vec<_> = graph.nodes.iter().filter(|n| n.kind == NodeKind::Action).collect();
    assert_eq!(actions.len(), 2);
    assert_eq!(actions[0].label, "Step1");
    assert_eq!(actions[1].label, "Step2");
    assert!(graph.edges.len() >= 3);
    assert_eq!(graph.title, "act [Process]");
    assert_eq!(
        edges(&graph),
        vec![e("__initial__", "act_0", None), e("act_0", "act_1", None), e("act_1", "__final__", None)]
    );
}

#[test]
fn act_with_decision() {
    let am = model(
        "Branching",
        vec![ActionStep::IfAction {
            condition: "ready".to_string(),
            then_step: Box::new(perform("Go")),
            else_step: Some(Box::new(perform("Wait"))),
            span: Span::default(),
        }],
    );
    let graph = build_act_from_action_model(&am);
    let decisions: Vec<_> = graph.nodes.iter().filter(|n| n.kind == NodeKind::Decision).collect();
    assert!(!decisions.is_empty());
    assert!(graph.has_node("__final__"));
    assert_eq!(decisions[0].label, "ready");
    assert_eq!(
        edges(&graph),
        vec![
            e("__initial__", "if_0", None),
            e("if_0", "act_1", Some("[yes]")),
            e("if_0", "act_2", Some("[no]")),
            e("act_1", "__final__", None),
            e("act_2", "__final__", None),
        ]
    );
}

#[test]
fn act_if_without_else_exits_through_the_decision() {
    let am = model(
        "Maybe",
        vec![ActionStep::IfAction {
            condition: "x > 1".to_string(),
            then_step: Box::new(perform("Go")),
            else_step: None,
            span: Span::default(),
        }],
    );
    let graph = build_act_from_action_model(&am);
    assert_eq!(
        edges(&graph),
        vec![
            e("__initial__", "if_0", None),
            e("if_0", "act_1", Some("[yes]")),
            e("act_1", "__final__", None),
            e("if_0", "__final__", None),
        ]
    );
}

#[test]
fn act_loops_fork_and_decide() {
    let am = model(
        "Mixed",
        vec![
            ActionStep::WhileLoop {
                condition: "busy".to_string(),
                body: Box::new(perform("Work")),
                span: Span::default(),
            },
            ActionStep::Fork {
                name: None,
                branches: vec![perform("A"), perform("B")],
                span: Span::default(),
            },
            ActionStep::Join { name: Some("J".to_string()), span: Span::default() },
            ActionStep::Decide {
                name: None,
                branches: vec![
                    DecideBranch { guard: Some("ok".to_string()), target: "Yes".to_string() },
                    DecideBranch { guard: None, target: "No".to_string() },
                ],
                span: Span::default(),
            },
        ],
    );
    let graph = build_act_from_action_model(&am);
    let ids: Vec<&str> = graph.nodes.iter().map(|n| n.id.as_str()).collect();
    assert_eq!(
        ids,
        vec!["__initial__", "while_0", "act_1", "fork_2", "act_3", "act_4", "join_5", "decide_6", "act_7", "act_8", "__final__"]
    );
    assert_eq!(graph.nodes[3].label, "fork");
    assert_eq!(graph.nodes[7].label, "?");
    assert_eq!(
        edges(&graph),
        vec![
            e("__initial__", "while_0", None),
            e("while_0", "act_1", None),
            e("act_1", "while_0", None),
            e("while_0", "fork_2", None),
            e("fork_2", "act_3", None),
            e("fork_2", "act_4", None),
            e("act_3", "join_5", None),
            e("act_4", "join_5", None),
            e("join_5", "decide_6", None),
            e("decide_6", "act_7", Some("[ok]")),
            e("decide_6", "act_8", None),
            e("act_7", "__final__", None),
            e("act_8", "__final__", None),
        ]
    );
}

#[test]
fn act_step_labels_and_counter() {
    let mut graph = DiagramGraph::new("t".to_string(), DiagramKind::ActionFlowView);
    let mut counter = 5usize;
    let prev = vec!["p".to_string(), "q".to_string()];
    let send = ActionStep::Send {
        payload: Some("Sig".to_string()),
        via: None,
        to: Some("rx".to_string()),
        span: Span::default(),
    };
    let exits = add_action_step(&mut graph, &send, &prev, &mut counter);
    assert_eq!(exits, vec!["act_5".to_string()]);
    assert_eq!(counter, 6);
    assert_eq!(graph.nodes[0].label, "send Sig to rx");
    assert_eq!(graph.nodes[0].stereotype.as_deref(), Some("<<send>>"));
    assert_eq!(edges(&graph), vec![e("p", "act_5", None), e("q", "act_5", None)]);
    let assign = ActionStep::Assign { target: "x".to_string(), value: "x + 1".to_string(), span: Span::default() };
    add_action_step(&mut graph, &assign, &exits, &mut counter);
    assert_eq!(graph.nodes[1].label, "x := x + 1");
    let done = ActionStep::Terminate { span: Span::default() };
    let ends = add_action_step(&mut graph, &done, &vec!["act_6".to_string()], &mut counter);
    add_action_step(&mut graph, &ActionStep::Done { span: Span::default() }, &ends, &mut counter);
    assert_eq!(counter, 7);
    assert_eq!(graph.nodes.iter().filter(|n| n.kind == NodeKind::FinalState).count(), 1);
}
