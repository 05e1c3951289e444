use sysml_core::diagram::emitters::{render, DiagramFormat};
use sysml_core::diagram::graph::{DiagramKind, EdgeKind, NodeKind};
use sysml_core::diagram::state_chart::build_stm_from_state_machine;
use sysml_core::model::Span;
use sysml_core::sim::state_machine::{StateMachineModel, StateNode, Transition, Trigger};

fn state(name: &str, entry: Option<&str>) -> StateNode {
    StateNode {
        name: name.to_string(),
        entry_action: entry.map(|e| e.to_string()),
        do_action: None,
        exit_action: None,
        span: Span::default(),
    }
}

fn traffic(name: &str) -> StateMachineModel {
    StateMachineModel {
        name: name.to_string(),
        states: vec![state("Red", Some("stopTraffic")), state("Green", None)],
        transitions: vec![Transition {
            name: None,
            source: "Red".to_string(),
            target: "Green".to_string(),
            trigger: Some(Trigger::Signal("timer".to_string())),
            guard: None,
            effect: Some("startGo".to_string()),
            span: Span::default(),
        }],
        entry_state: Some("Red".to_string()),
        span: Span::default(),
    }
}

#[test]
fn rich_stm_has_transition_labels() {
    let sm = traffic("Traffic");
    let graph = build_stm_from_state_machine(&sm);
    assert_eq!(graph.kind, DiagramKind::StateTransitionView);
    assert!(graph.has_node("Red"));
    assert!(graph.has_node("Green"));
    assert!(graph.has_node("__initial__"));

    let tr = graph.edges.iter().find(|e| e.source == "Red").unwrap();
    let label = tr.label.as_deref().unwrap();
    assert!(label.contains("timer"));
    assert!(label.contains("/ startGo"));

    let red = graph.nodes.iter().find(|n| n.id == "Red").unwrap();
    assert!(red.attributes.iter().any(|(k, _)| k == "entry"));
}

#[test]
fn rich_stm_with_transitions() {
    let sm = traffic("TrafficLight");
    let graph = build_stm_from_state_machine(&sm);
    let output = render(&graph, DiagramFormat::Mermaid);
    assert!(output.contains("timer"));
    assert!(output.contains("/ startGo"));
    assert!(output.contains("Red"));
    assert!(output.contains("Green"));
}

#[test]
fn stm_lays_out_states_and_transitions_in_order() {
    let mut sm = traffic("Light");
    sm.states[1].do_action = Some("blink".to_string());
    sm.states[1].exit_action = Some("log".to_string());
    sm.transitions.push(Transition {
        name: Some("back".to_string()),
        source: "Green".to_string(),
        target: "Red".to_string(),
        trigger: Some(Trigger::Completion),
        guard: Some("clear".to_string()),
        effect: None,
        span: Span::default(),
    });
    sm.transitions.push(Transition {
        name: None,
        source: "Red".to_string(),
        target: "Red".to_string(),
        trigger: None,
        guard: None,
        effect: None,
        span: Span::default(),
    });
    let graph = build_stm_from_state_machine(&sm);
    assert_eq!(graph.title, "stm [Light]");
    let ids: Vec<&str> = graph.nodes.iter().map(|n| n.id.as_str()).collect();
    assert_eq!(ids, vec!["__initial__", "Red", "Green"]);
    assert_eq!(graph.nodes[0].kind, NodeKind::InitialState);
    assert_eq!(graph.nodes[1].kind, NodeKind::State);
    assert_eq!(
        graph.nodes[2].attributes,
        vec![("do".to_string(), "blink".to_string()), ("exit".to_string(), "log".to_string())]
    );
    let edges: Vec<(&str, &str, Option<&str>)> =
        graph.edges.iter().map(|e| (e.source.as_str(), e.target.as_str(), e.label.as_deref())).collect();
    assert_eq!(
        edges,
        vec![
            ("__initial__", "Red", None),
            ("Red", "Green", Some("timer / startGo")),
            ("Green", "Red", Some("completion [clear]")),
            ("Red", "Red", None),
        ]
    );
    assert!(graph.edges.iter().all(|e| e.kind == EdgeKind::Transition));
}

#[test]
fn stm_without_entry_state_has_no_initial_edge() {
    let mut sm = traffic("Light");
    sm.entry_state = None;
    let graph = build_stm_from_state_machine(&sm);
    assert_eq!(graph.edges.len(), 1);
    assert_eq!(graph.edges[0].source, "Red");
}
