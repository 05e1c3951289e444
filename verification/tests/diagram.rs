use sysml_core::diagram::builders::{
    apply_view_filter, build_alloc, build_bdd, build_ibd, build_par, build_pkg, build_req, build_stm, build_sv,
    build_trace, build_ucd,
};
use sysml_core::diagram::emitters::{render, DiagramFormat};
use sysml_core::query::{KindFilter, ListFilter};
use sysml_core::diagram::graph::{
    DiagramEdge, DiagramGraph, DiagramKind, DiagramNode, EdgeKind, GeneralViewFlavor,
    GridViewFlavor, LayoutDirection, NodeKind, Subgraph,
};
use sysml_core::model::{
    Allocation, Connection, DefKind, Definition, Direction, Flow, Model, Multiplicity,
    Satisfaction, Span, Usage, Verification,
};

fn def(kind: DefKind, name: &str, parent: Option<&str>) -> Definition {
    Definition {
        kind,
        name: name.into(),
        super_type: None,
        span: Span::default(),
        has_body: true,
        param_count: 0,
        has_constraint_expr: false,
        has_return: false,
        visibility: None,
        short_name: None,
        doc: None,
        is_abstract: false,
        enum_members: Vec::new(),
        parent_def: parent.map(|p| p.to_string()),
        body_start_byte: None,
        body_end_byte: None,
        qualified_name: None,
    }
}

fn usage(kind: &str, name: &str, type_ref: Option<&str>, parent: Option<&str>) -> Usage {
    Usage {
        kind: kind.into(),
        name: name.into(),
        type_ref: type_ref.map(|t| t.to_string()),
        span: Span::default(),
        direction: None,
        is_conjugated: false,
        parent_def: parent.map(|p| p.to_string()),
        multiplicity: None,
        value_expr: None,
        short_name: None,
        redefinition: None,
        subsets: None,
        qualified_name: None,
    }
}

fn span(start: usize, end: usize) -> Span {
    Span { start_row: 0, start_col: 0, end_row: 0, end_col: 0, start_byte: start, end_byte: end }
}

#[test]
fn format_from_str() {
    assert_eq!(DiagramFormat::from_str("mermaid"), Some(DiagramFormat::Mermaid));
    assert_eq!(DiagramFormat::from_str("puml"), Some(DiagramFormat::PlantUml));
    assert_eq!(DiagramFormat::from_str("dot"), Some(DiagramFormat::Dot));
    assert_eq!(DiagramFormat::from_str("d2"), Some(DiagramFormat::D2));
    assert_eq!(DiagramFormat::from_str("unknown"), None);
}

#[test]
fn format_from_str_aliases_ignore_case() {
    assert_eq!(DiagramFormat::from_str("MMD"), Some(DiagramFormat::Mermaid));
    assert_eq!(DiagramFormat::from_str("PlantUML"), Some(DiagramFormat::PlantUml));
    assert_eq!(DiagramFormat::from_str("Graphviz"), Some(DiagramFormat::Dot));
    assert_eq!(DiagramFormat::from_str("terrastruct"), Some(DiagramFormat::D2));
}

fn small_graph() -> DiagramGraph {
    let mut g = DiagramGraph::new(
        "bdd [t]".to_string(),
        DiagramKind::GeneralView(GeneralViewFlavor::Default),
    );
    let mut a = DiagramNode::usage("A".to_string(), "A".to_string(), NodeKind::Block);
    a.stereotype = Some("<<part def>>".to_string());
    g.add_node(a);
    g.add_edge(DiagramEdge {
        source: "A".to_string(),
        target: "B".to_string(),
        label: None,
        kind: EdgeKind::Specialization,
    });
    g
}

#[test]
fn dot_output_exact() {
    let out = render(&small_graph(), DiagramFormat::Dot);
    let expected = "digraph \"bdd [t]\" {\n    rankdir=TB;\n    label=\"bdd [t]\";\n    fontsize=14;\n\n    \"A\" [label=\"<<part def>>\\nA\", shape=box];\n\n    \"A\" -> \"B\" [style=solid, arrowhead=empty];\n}\n";
    assert_eq!(out, expected);
}

#[test]
fn dot_escapes_quotes_and_hides_clustered_nodes() {
    let mut g = DiagramGraph::new("say \"hi\"".to_string(), DiagramKind::BrowserView);
    g.direction = LayoutDirection::LeftRight;
    g.add_node(DiagramNode::usage("P".to_string(), "P".to_string(), NodeKind::Block));
    g.add_node(DiagramNode::usage("__initial__".to_string(), String::new(), NodeKind::InitialState));
    g.add_subgraph(Subgraph { id: "Pkg".into(), label: "Pkg".into(), node_ids: vec!["P".into()] });
    let out = render(&g, DiagramFormat::Dot);
    assert!(out.starts_with("digraph \"say \\\"hi\\\"\" {\n    rankdir=LR;\n"));
    assert!(out.contains("    subgraph cluster_0 {\n        label=\"Pkg\";\n        style=dashed;\n        \"P\";\n    }\n\n"));
    assert!(!out.contains("\"P\" [label"));
    assert!(out.contains("    \"__initial__\" [shape=circle, width=0.25, fixedsize=true, style=filled, fillcolor=black, label=\"\"];\n"));
}

#[test]
fn mermaid_class_output_exact() {
    let out = render(&small_graph(), DiagramFormat::Mermaid);
    let expected = "---\ntitle: bdd [t]\n---\nclassDiagram\n    class A {\n        <<part def>>\n    }\n    B <|-- A\n";
    assert_eq!(out, expected);
}

#[test]
fn mermaid_state_diagram() {
    let mut g = DiagramGraph::new("stm [S]".to_string(), DiagramKind::StateTransitionView);
    g.add_node(DiagramNode::usage("__initial__".to_string(), String::new(), NodeKind::InitialState));
    g.add_node(DiagramNode::usage("off".to_string(), "off".to_string(), NodeKind::State));
    g.add_edge(DiagramEdge {
        source: "__initial__".into(),
        target: "off".into(),
        label: Some("go".into()),
        kind: EdgeKind::Transition,
    });
    let out = render(&g, DiagramFormat::Mermaid);
    assert_eq!(out, "---\ntitle: stm [S]\n---\nstateDiagram-v2\n    off : off\n    [*] --> off : go\n");
}

#[test]
fn plantuml_class_output_exact() {
    let out = render(&small_graph(), DiagramFormat::PlantUml);
    let expected = "@startuml\ntitle bdd [t]\n\nclass \"A\" <<part def>> {\n}\n\nA --|> B\n@enduml\n";
    assert_eq!(out, expected);
}

#[test]
fn d2_output_exact() {
    let out = render(&small_graph(), DiagramFormat::D2);
    let expected = "title: |\n  bdd [t]\n|\n\ndirection: down\n\nA: |md\n  A\\n<<part def>>\n| { shape: rectangle }\n\nA <- B \n";
    assert_eq!(out, expected);
}

#[test]
fn d2_ids_are_sanitized() {
    let mut g = DiagramGraph::new("x".to_string(), DiagramKind::ActionFlowView);
    g.add_node(DiagramNode::usage("a b.c".to_string(), "L".to_string(), NodeKind::Action));
    g.add_edge(DiagramEdge {
        source: "__initial__".into(),
        target: "a b.c".into(),
        label: Some("go".into()),
        kind: EdgeKind::Dependency,
    });
    let out = render(&g, DiagramFormat::D2);
    assert!(out.contains("a_b_c: L { shape: rectangle }\n"));
    assert!(out.contains("initial -> a_b_c : go {\n    style.stroke-dash: 3\n  }\n"));
}

fn trace_model() -> Model {
    let mut m = Model::new("v.sysml".to_string());
    let mut req = def(DefKind::Requirement, "MassReq", None);
    req.doc = Some("mass under 2000 kg".into());
    m.definitions.push(req);
    m.definitions.push(def(DefKind::Requirement, "SpeedReq", None));
    let mut vehicle = def(DefKind::Part, "Vehicle", None);
    vehicle.span = span(100, 200);
    m.definitions.push(vehicle);
    m.satisfactions.push(Satisfaction { requirement: "MassReq".into(), by: None, span: span(120, 140) });
    m.satisfactions.push(Satisfaction {
        requirement: "Reqs::MassReq".into(),
        by: Some("Pkg::Vehicle".into()),
        span: Span::default(),
    });
    m.verifications.push(Verification { requirement: "MassReq".into(), by: "MassTest".into(), span: Span::default() });
    m
}

#[test]
fn trace_diagram_columns_and_status() {
    let g = build_trace(&trace_model());
    assert_eq!(g.title, "trace [v.sysml]");
    assert_eq!(g.kind, DiagramKind::GridView(GridViewFlavor::Trace));
    let ids: Vec<&str> = g.nodes.iter().map(|n| n.id.as_str()).collect();
    assert_eq!(ids, vec!["MassReq", "SpeedReq", "Vehicle", "MassTest"]);
    assert_eq!(
        g.nodes[0].attributes,
        vec![("text".to_string(), "mass under 2000 kg".to_string())]
    );
    assert_eq!(
        g.nodes[1].attributes,
        vec![
            ("status".to_string(), "UNSATISFIED".to_string()),
            ("status".to_string(), "UNVERIFIED".to_string())
        ]
    );
    assert_eq!(g.nodes[2].stereotype.as_deref(), Some("<<part def>>"));
    assert_eq!(g.nodes[3].stereotype, None);
    assert_eq!(g.edges.len(), 3);
    assert_eq!(g.edges[0].source, "Vehicle");
    assert_eq!(g.edges[0].kind, EdgeKind::Satisfy);
    assert_eq!(g.edges[1].target, "MassReq");
    assert_eq!(g.edges[2].kind, EdgeKind::Verify);
    assert_eq!(g.edges[2].label.as_deref(), Some("<<verify>>"));
}

#[test]
fn req_diagram_shares_blocks() {
    let mut m = trace_model();
    m.verifications.push(Verification { requirement: "SpeedReq".into(), by: "Vehicle".into(), span: Span::default() });
    let g = build_req(&m);
    assert_eq!(g.title, "req [v.sysml]");
    let ids: Vec<&str> = g.nodes.iter().map(|n| n.id.as_str()).collect();
    assert_eq!(ids, vec!["MassReq", "SpeedReq", "Vehicle", "MassTest"]);
    assert_eq!(g.nodes[2].stereotype, None);
    assert_eq!(g.edges.len(), 4);
    let out = render(&g, DiagramFormat::PlantUml);
    assert!(out.contains("rectangle \"MassReq\\nmass under 2000 kg\" as MassReq <<requirement>>\n"));
    assert!(out.contains("Vehicle ..> MassReq : <<satisfy>>\n"));
}

#[test]
fn bdd_blocks_and_edges() {
    let mut m = Model::new("v.sysml".to_string());
    m.definitions.push(def(DefKind::Part, "PowerSource", None));
    let mut engine = def(DefKind::Part, "Engine", None);
    engine.super_type = Some("Lib::PowerSource".into());
    m.definitions.push(engine);
    let mut vehicle = def(DefKind::Part, "Vehicle", None);
    vehicle.is_abstract = true;
    m.definitions.push(vehicle);
    let mut wheels = usage("part", "wheels", Some("Wheel"), Some("Vehicle"));
    wheels.multiplicity = Some(Multiplicity { lower: Some("4".into()), upper: None, is_ordered: false, is_nonunique: false });
    m.usages.push(usage("part", "engine", Some("Engine"), Some("Vehicle")));
    m.usages.push(wheels);
    let g = build_bdd(&m, None);
    assert_eq!(g.title, "bdd [v.sysml]");
    assert_eq!(g.nodes.len(), 3);
    assert_eq!(g.nodes[2].attributes[0], ("modifier".to_string(), "abstract".to_string()));
    assert_eq!(g.nodes[2].attributes[1], ("part".to_string(), "engine : Engine".to_string()));
    assert_eq!(g.nodes[2].attributes[2], ("part".to_string(), "wheels : Wheel [4]".to_string()));
    assert_eq!(g.edges.len(), 2);
    assert_eq!(g.edges[0].kind, EdgeKind::Specialization);
    assert_eq!(g.edges[0].target, "PowerSource");
    assert_eq!(g.edges[1].kind, EdgeKind::Composition);
    assert_eq!(g.edges[1].label.as_deref(), Some("engine"));
    let scoped = build_bdd(&m, Some("Engine"));
    assert_eq!(scoped.title, "bdd [Engine]");
    assert_eq!(scoped.nodes.len(), 1);
    assert!(scoped.edges.is_empty());
}

/// Vehicle { part engine : Engine { port fuelIn; part pump { port out } } ; port dataOut }
fn ibd_model() -> Model {
    let mut m = Model::new("v.sysml".to_string());
    m.definitions.push(def(DefKind::Part, "Vehicle", None));
    let mut engine = usage("part", "engine", Some("Engine"), Some("Vehicle"));
    engine.span = span(10, 100);
    m.usages.push(engine);
    let mut trans = usage("part", "transmission", None, Some("Vehicle"));
    trans.span = span(110, 150);
    m.usages.push(trans);
    let mut data = usage("port", "dataOut", Some("DataPort"), Some("Vehicle"));
    data.direction = Some(Direction::Out);
    data.is_conjugated = true;
    m.usages.push(data);
    let mut fuel = usage("port", "fuelIn", Some("FuelPort"), Some("engine"));
    fuel.direction = Some(Direction::In);
    fuel.span = span(20, 30);
    m.usages.push(fuel);
    let mut pump = usage("part", "pump", Some("Pump"), Some("engine"));
    pump.span = span(40, 90);
    m.usages.push(pump);
    let mut out = usage("port", "out", Some("Flow"), Some("pump"));
    out.span = span(50, 60);
    out.is_conjugated = true;
    m.usages.push(out);
    // Same name, outside the engine's span: not nested in it.
    let mut stray = usage("port", "stray", None, Some("engine"));
    stray.span = span(200, 210);
    m.usages.push(stray);
    m.connections.push(Connection {
        name: Some("c1".into()),
        source: "engine.fuelIn".into(),
        target: "tank.out".into(),
        span: Span::default(),
    });
    m.connections.push(Connection { name: None, source: "a.b".into(), target: "c".into(), span: Span::default() });
    m.flows.push(Flow {
        name: Some("f".into()),
        item_type: Some("Fuel".into()),
        source: "tank".into(),
        target: "engine.fuelIn".into(),
        span: Span::default(),
    });
    m
}

#[test]
fn ibd_parts_and_ports() {
    let g = build_ibd(&ibd_model(), "Vehicle");
    assert_eq!(g.kind, DiagramKind::InterconnectionView);
    assert_eq!(g.title, "ibd [Vehicle]");
    assert!(g.has_node("engine"));
    assert!(g.has_node("transmission"));
    assert!(g.has_node("dataOut"));
    let engine = &g.nodes[0];
    assert_eq!(engine.label, "engine : Engine");
    assert_eq!(
        engine.attributes,
        vec![
            ("in port fuelIn".to_string(), "FuelPort".to_string()),
            ("port pump.out".to_string(), "~Flow".to_string()),
        ]
    );
    assert_eq!(g.nodes[1].label, "transmission : ?");
    assert_eq!(g.nodes[2].kind, NodeKind::Port);
    assert_eq!(g.nodes[2].label, "out dataOut : ~DataPort");
}

#[test]
fn ibd_connection_edge() {
    let g = build_ibd(&ibd_model(), "Vehicle");
    assert_eq!(g.edges.len(), 2);
    assert_eq!(g.edges[0].source, "engine");
    assert_eq!(g.edges[0].target, "tank");
    assert_eq!(g.edges[0].label.as_deref(), Some("c1"));
    assert_eq!(g.edges[0].kind, EdgeKind::Connection);
    assert_eq!(g.edges[1].kind, EdgeKind::Flow);
    assert_eq!(g.edges[1].label.as_deref(), Some("<<Fuel>>"));
}

#[test]
fn stm_initial_state_and_first_transition() {
    let mut m = Model::new("s.sysml".to_string());
    m.definitions.push(def(DefKind::Part, "P", None));
    m.definitions.push(def(DefKind::State, "Idle", None));
    m.definitions.push(def(DefKind::State, "Machine", None));
    m.usages.push(usage("state", "off", None, Some("Machine")));
    m.usages.push(usage("action", "go", None, Some("Machine")));
    m.usages.push(usage("state", "on", None, Some("Machine")));
    let g = build_stm(&m, Some("Machine"));
    assert_eq!(g.title, "stm [Machine]");
    let ids: Vec<&str> = g.nodes.iter().map(|n| n.id.as_str()).collect();
    assert_eq!(ids, vec!["__initial__", "off", "on"]);
    assert_eq!(g.nodes[0].kind, NodeKind::InitialState);
    assert_eq!(g.edges.len(), 1);
    assert_eq!(g.edges[0].source, "__initial__");
    assert_eq!(g.edges[0].target, "off");
    assert_eq!(g.edges[0].kind, EdgeKind::Transition);
    let first = build_stm(&m, None);
    assert_eq!(first.title, "stm [Idle]");
    assert_eq!(first.nodes.len(), 1);
    assert!(first.edges.is_empty());
    let missing = build_stm(&m, Some("Nope"));
    assert_eq!(missing.title, "stm");
    assert!(missing.nodes.is_empty());
}

#[test]
fn pkg_diagram_with_package() {
    let mut m = Model::new("p.sysml".to_string());
    m.definitions.push(def(DefKind::Package, "Pkg", None));
    m.definitions.push(def(DefKind::Part, "Engine", Some("Pkg")));
    m.definitions.push(def(DefKind::Package, "Empty", None));
    m.definitions.push(def(DefKind::Port, "Plug", None));
    let g = build_pkg(&m);
    assert_eq!(g.title, "pkg [p.sysml]");
    assert_eq!(g.kind, DiagramKind::BrowserView);
    let ids: Vec<&str> = g.nodes.iter().map(|n| n.id.as_str()).collect();
    assert_eq!(ids, vec!["Pkg", "Engine", "Empty", "Plug"]);
    assert_eq!(g.nodes[0].kind, NodeKind::Package);
    assert_eq!(g.nodes[0].stereotype.as_deref(), Some("<<package>>"));
    assert_eq!(g.nodes[1].stereotype.as_deref(), Some("<<part def>>"));
    assert!(!g.nodes[1].is_definition);
    assert!(g.nodes[3].is_definition);
    assert_eq!(g.subgraphs.len(), 1);
    assert_eq!(g.subgraphs[0].id, "Pkg");
    assert_eq!(g.subgraphs[0].node_ids, vec!["Engine".to_string()]);
}

#[test]
fn par_diagram_with_constraints() {
    let mut m = Model::new("c.sysml".to_string());
    m.definitions.push(def(DefKind::Constraint, "MassLimit", None));
    m.definitions.push(def(DefKind::Constraint, "Inner", Some("Sys")));
    let mut mass = usage("attribute", "mass", Some("Real"), Some("MassLimit"));
    mass.direction = Some(Direction::In);
    m.usages.push(mass);
    m.usages.push(usage("attribute", "limit", None, Some("MassLimit")));
    let g = build_par(&m, None);
    assert_eq!(g.title, "par [c.sysml]");
    assert_eq!(g.nodes.len(), 2);
    assert_eq!(g.nodes[0].stereotype.as_deref(), Some("<<constraint>>"));
    assert_eq!(
        g.nodes[0].attributes,
        vec![("in mass".to_string(), "Real".to_string()), ("limit".to_string(), "?".to_string())]
    );
    let scoped = build_par(&m, Some("Sys"));
    assert_eq!(scoped.title, "par [Sys]");
    assert_eq!(scoped.nodes.len(), 1);
    assert_eq!(scoped.nodes[0].id, "Inner");
}

#[test]
fn alloc_diagram_shows_allocations() {
    let mut m = Model::new("a.sysml".to_string());
    m.definitions.push(def(DefKind::Action, "Drive", None));
    m.definitions.push(def(DefKind::Action, "Brake", None));
    m.definitions.push(def(DefKind::Part, "Engine", None));
    m.allocations.push(Allocation { source: "Logical::Drive".into(), target: "Engine".into(), span: Span::default() });
    m.allocations.push(Allocation { source: "Drive".into(), target: "Wheel".into(), span: Span::default() });
    let g = build_alloc(&m);
    assert_eq!(g.title, "alloc [a.sysml]");
    let ids: Vec<&str> = g.nodes.iter().map(|n| n.id.as_str()).collect();
    assert_eq!(ids, vec!["Drive", "Engine", "Wheel", "Brake"]);
    assert_eq!(g.nodes[0].kind, NodeKind::Action);
    assert_eq!(g.nodes[0].stereotype.as_deref(), Some("<<action def>>"));
    assert_eq!(g.nodes[1].kind, NodeKind::Block);
    assert_eq!(g.nodes[2].stereotype, None);
    assert_eq!(g.nodes[3].stereotype.as_deref(), Some("<<action>> UNALLOCATED"));
    assert_eq!(g.edges.len(), 2);
    assert_eq!(g.edges[0].label.as_deref(), Some("<<allocate>>"));
    assert_eq!(g.edges[1].source, "Drive");
    assert_eq!(g.edges[1].target, "Wheel");
}

#[test]
fn ucd_diagram_shows_use_cases() {
    let mut m = Model::new("u.sysml".to_string());
    let mut order = def(DefKind::UseCase, "PlaceOrder", None);
    order.doc = Some("Customer orders goods".into());
    m.definitions.push(order);
    m.definitions.push(def(DefKind::UseCase, "Pay", None));
    m.usages.push(usage("actor", "customer", Some("Customer"), Some("PlaceOrder")));
    m.usages.push(usage("use case", "pay", Some("Pay"), Some("PlaceOrder")));
    m.usages.push(usage("actor", "customer", Some("Customer"), Some("Pay")));
    m.usages.push(usage("actor", "bank", None, Some("Pay")));
    let g = build_ucd(&m);
    assert_eq!(g.title, "ucd [u.sysml]");
    let ids: Vec<&str> = g.nodes.iter().map(|n| n.id.as_str()).collect();
    assert_eq!(ids, vec!["PlaceOrder", "Customer", "Pay", "bank"]);
    assert_eq!(g.nodes[0].attributes, vec![("description".to_string(), "Customer orders goods".to_string())]);
    assert!(g.nodes[2].attributes.is_empty());
    assert_eq!(g.nodes[1].kind, NodeKind::Actor);
    let edges: Vec<(&str, &str, Option<&str>)> =
        g.edges.iter().map(|e| (e.source.as_str(), e.target.as_str(), e.label.as_deref())).collect();
    assert_eq!(
        edges,
        vec![
            ("Customer", "PlaceOrder", None),
            ("PlaceOrder", "Pay", Some("<<include>>")),
            ("Customer", "Pay", None),
            ("bank", "Pay", None),
        ]
    );
}

#[test]
fn sv_lifelines_and_messages() {
    let mut m = Model::new("q.sysml".to_string());
    m.usages.push(usage("part", "client", Some("Client"), None));
    m.usages.push(usage("item", "msg", None, None));
    m.usages.push(usage("part", "inner", None, Some("Sys")));
    m.usages.push(usage("port", "p", None, None));
    m.flows.push(Flow { name: Some("request".into()), item_type: None, source: "client".into(), target: "Net::server".into(), span: Span::default() });
    m.flows.push(Flow { name: None, item_type: Some("Reply".into()), source: "server".into(), target: "client".into(), span: Span::default() });
    m.flows.push(Flow { name: None, item_type: None, source: "x".into(), target: "y".into(), span: Span::default() });
    let g = build_sv(&m, None);
    assert_eq!(g.title, "sv [q.sysml]");
    let labels: Vec<&str> = g.nodes.iter().map(|n| n.label.as_str()).collect();
    assert_eq!(labels, vec!["client : Client", "msg", "server"]);
    assert_eq!(g.edges.len(), 2);
    assert_eq!(g.edges[0].label.as_deref(), Some("request"));
    assert_eq!(g.edges[1].label.as_deref(), Some("Reply"));
    assert_eq!(g.edges[1].kind, EdgeKind::Message);
    let scoped = build_sv(&m, Some("Sys"));
    assert_eq!(scoped.title, "sv [Sys]");
    assert_eq!(scoped.nodes.len(), 1);
    assert_eq!(scoped.nodes[0].id, "inner");
}

#[test]
fn layout_direction_codes() {
    let d = LayoutDirection::default_direction();
    assert_eq!(d, LayoutDirection::TopBottom);
    let all = [
        LayoutDirection::TopBottom,
        LayoutDirection::LeftRight,
        LayoutDirection::BottomTop,
        LayoutDirection::RightLeft,
    ];
    let mermaid: Vec<&str> = all.iter().map(|d| d.mermaid_code()).collect();
    let dot: Vec<&str> = all.iter().map(|d| d.dot_code()).collect();
    let d2: Vec<&str> = all.iter().map(|d| d.d2_code()).collect();
    assert_eq!(mermaid, vec!["TD", "LR", "BT", "RL"]);
    assert_eq!(dot, vec!["TB", "LR", "BT", "RL"]);
    assert_eq!(d2, vec!["down", "right", "up", "left"]);
}

#[test]
fn filter_by_names_keeps_allowed_and_control_nodes() {
    let mut g = DiagramGraph::new("f".to_string(), DiagramKind::ActionFlowView);
    for id in ["A", "B", "C"] {
        g.add_node(DiagramNode::usage(id.to_string(), id.to_string(), NodeKind::Block));
    }
    g.add_node(DiagramNode::usage("start".to_string(), "".to_string(), NodeKind::InitialState));
    for (s, t) in [("A", "B"), ("B", "C"), ("C", "C")] {
        g.add_edge(DiagramEdge { source: s.to_string(), target: t.to_string(), label: None, kind: EdgeKind::Flow });
    }
    g.add_subgraph(Subgraph { id: "S1".to_string(), label: "S1".to_string(), node_ids: vec!["A".to_string(), "C".to_string()] });
    g.add_subgraph(Subgraph { id: "S2".to_string(), label: "S2".to_string(), node_ids: vec!["C".to_string()] });
    g.filter_by_names(&vec!["A", "B"]);
    let ids: Vec<&str> = g.nodes.iter().map(|n| n.id.as_str()).collect();
    assert_eq!(ids, vec!["A", "B", "start"]);
    let edges: Vec<(&str, &str)> = g.edges.iter().map(|e| (e.source.as_str(), e.target.as_str())).collect();
    assert_eq!(edges, vec![("A", "B"), ("B", "C")]);
    assert_eq!(g.subgraphs.len(), 1);
    assert_eq!(g.subgraphs[0].id, "S1");
    assert_eq!(g.subgraphs[0].node_ids, vec!["A".to_string()]);
}

#[test]
fn view_filter_keeps_listed_elements() {
    let mut m = Model::new("v.sysml".to_string());
    m.definitions.push(def(DefKind::Part, "Vehicle", None));
    m.definitions.push(def(DefKind::Part, "Engine", None));
    m.definitions.push(def(DefKind::Port, "FuelPort", None));
    let mut graph = build_bdd(&m, None);
    assert_eq!(graph.nodes.len(), 3);
    let mut filter = ListFilter::default();
    filter.kind = Some(KindFilter::DefKind(DefKind::Part));
    apply_view_filter(&mut graph, &m, Some(&filter));
    let ids: Vec<&str> = graph.nodes.iter().map(|n| n.id.as_str()).collect();
    assert_eq!(ids, vec!["Vehicle", "Engine"]);

    let mut unchanged = build_bdd(&m, None);
    apply_view_filter(&mut unchanged, &m, None);
    assert_eq!(unchanged.nodes.len(), 3);
    let mut nothing = ListFilter::default();
    nothing.name_pattern = Some("Nope".to_string());
    apply_view_filter(&mut unchanged, &m, Some(&nothing));
    assert_eq!(unchanged.nodes.len(), 3);
}
