use sysml_core::cache::Cache;
use sysml_core::index::{parse_flat_toml, parse_toml_refs, Indexer};
use sysml_core::model::{
    Allocation, Connection, DefKind, Definition, Flow, Model, Satisfaction, Span, Usage,
    Verification,
};

/// Helper: build a minimal model with the given definitions, usages,
/// and relationships.
fn vehicle_model() -> Model {
    let mut model = Model::new("vehicle.sysml".to_string());

    model.definitions.push(Definition {
        kind: DefKind::Package,
        name: "VehicleModel".into(),
        super_type: None,
        span: Span {
            start_row: 1,
            start_col: 1,
            end_row: 30,
            end_col: 1,
            start_byte: 0,
            end_byte: 500,
        },
        has_body: true,
        param_count: 0,
        has_constraint_expr: false,
        has_return: false,
        visibility: None,
        short_name: None,
        doc: None,
        is_abstract: false,
            enum_members: Vec::new(),
        parent_def: None,
        body_start_byte: None,
        body_end_byte: None,
        qualified_name: None,
    });

    model.definitions.push(Definition {
        kind: DefKind::Part,
        name: "Vehicle".into(),
        super_type: None,
        span: Span {
            start_row: 3,
            start_col: 5,
            end_row: 15,
            end_col: 5,
            start_byte: 40,
            end_byte: 300,
        },
        has_body: true,
        param_count: 0,
        has_constraint_expr: false,
        has_return: false,
        visibility: None,
        short_name: None,
        doc: None,
        is_abstract: false,
            enum_members: Vec::new(),
        parent_def: Some("VehicleModel".into()),
        body_start_byte: None,
        body_end_byte: None,
        qualified_name: None,
    });

    model.definitions.push(Definition {
        kind: DefKind::Part,
        name: "Engine".into(),
        super_type: Some("PowerSource".into()),
        span: Span {
            start_row: 17,
            start_col: 5,
            end_row: 20,
            end_col: 5,
            start_byte: 310,
            end_byte: 400,
        },
        has_body: true,
        param_count: 0,
        has_constraint_expr: false,
        has_return: false,
        visibility: None,
        short_name: None,
        doc: None,
        is_abstract: false,
            enum_members: Vec::new(),
        parent_def: Some("VehicleModel".into()),
        body_start_byte: None,
        body_end_byte: None,
        qualified_name: None,
    });

    model.definitions.push(Definition {
        kind: DefKind::Requirement,
        name: "MassReq".into(),
        super_type: None,
        span: Span {
            start_row: 22,
            start_col: 5,
            end_row: 25,
            end_col: 5,
            start_byte: 410,
            end_byte: 480,
        },
        has_body: true,
        param_count: 0,
        has_constraint_expr: false,
        has_return: false,
        visibility: None,
        short_name: None,
        doc: None,
        is_abstract: false,
            enum_members: Vec::new(),
        parent_def: Some("VehicleModel".into()),
        body_start_byte: None,
        body_end_byte: None,
        qualified_name: None,
    });

    // Usages
    model.usages.push(Usage {
        kind: "part".into(),
        name: "engine".into(),
        type_ref: Some("Engine".into()),
        span: Span {
            start_row: 5,
            start_col: 9,
            end_row: 5,
            end_col: 30,
            start_byte: 80,
            end_byte: 110,
        },
        direction: None,
        is_conjugated: false,
        parent_def: Some("Vehicle".into()),
        multiplicity: None,
        value_expr: None,
        short_name: None,
        redefinition: None,
        subsets: None,
        qualified_name: None,
    });
    model.usages.push(Usage {
        kind: "part".into(),
        name: "wheel".into(),
        type_ref: Some("Wheel".into()),
        span: Span {
            start_row: 6,
            start_col: 9,
            end_row: 6,
            end_col: 30,
            start_byte: 111,
            end_byte: 140,
        },
        direction: None,
        is_conjugated: false,
        parent_def: Some("Vehicle".into()),
        multiplicity: None,
        value_expr: None,
        short_name: None,
        redefinition: None,
        subsets: None,
        qualified_name: None,
    });

    // Connections
    model.connections.push(Connection {
        name: Some("engineToTrans".into()),
        source: "engine".into(),
        target: "transmission".into(),
        span: Span {
            start_row: 10,
            start_col: 9,
            end_row: 10,
            end_col: 50,
            start_byte: 180,
            end_byte: 230,
        },
    });

    // Satisfactions
    model.satisfactions.push(Satisfaction {
        requirement: "MassReq".into(),
        by: Some("Vehicle".into()),
        span: Span {
            start_row: 28,
            start_col: 5,
            end_row: 28,
            end_col: 40,
            start_byte: 490,
            end_byte: 500,
        },
    });

    model
}

#[test]
fn index_model_creates_nodes_for_definitions() {
    let mut cache = Cache::new();
    let model = vehicle_model();
    Indexer::index_model(&mut cache, &model);

    // 4 definitions + 2 usages = 6 nodes
    assert_eq!(cache.stats().nodes, 6);

    // Check qualified name of a nested definition
    let vehicle = cache.find_node("VehicleModel::Vehicle");
    assert!(vehicle.is_some(), "Vehicle should have qualified name VehicleModel::Vehicle");
    let vehicle = vehicle.unwrap();
    assert_eq!(vehicle.kind, "part def");
    assert_eq!(vehicle.file, "vehicle.sysml");
    assert_eq!(vehicle.line, 3);
    assert_eq!(vehicle.parent.as_deref(), Some("VehicleModel"));
}

#[test]
fn index_model_creates_nodes_for_usages() {
    let mut cache = Cache::new();
    let model = vehicle_model();
    Indexer::index_model(&mut cache, &model);

    // Usage "engine" is under Vehicle, which is under VehicleModel
    let engine = cache.find_node("VehicleModel::Vehicle::engine");
    assert!(engine.is_some(), "engine usage should have fully qualified name");
    let engine = engine.unwrap();
    assert_eq!(engine.kind, "part");
    assert_eq!(engine.parent.as_deref(), Some("VehicleModel::Vehicle"));
}

#[test]
fn index_model_creates_specialization_edges() {
    let mut cache = Cache::new();
    let model = vehicle_model();
    Indexer::index_model(&mut cache, &model);

    let edges = cache.find_edges_from("VehicleModel::Engine");
    assert_eq!(edges.len(), 1);
    assert_eq!(edges[0].target, "PowerSource");
    assert_eq!(edges[0].kind, "specializes");
}

#[test]
fn index_model_creates_connection_edges() {
    let mut cache = Cache::new();
    let model = vehicle_model();
    Indexer::index_model(&mut cache, &model);

    let edges: Vec<_> = cache
        .find_edges_from("engine")
        .into_iter()
        .filter(|e| e.kind == "connects")
        .collect();
    assert_eq!(edges.len(), 1);
    assert_eq!(edges[0].target, "transmission");
}

#[test]
fn index_model_creates_satisfaction_edges() {
    let mut cache = Cache::new();
    let model = vehicle_model();
    Indexer::index_model(&mut cache, &model);

    let edges: Vec<_> = cache
        .find_edges_from("Vehicle")
        .into_iter()
        .filter(|e| e.kind == "satisfies")
        .collect();
    assert_eq!(edges.len(), 1);
    assert_eq!(edges[0].target, "MassReq");
}

#[test]
fn index_model_handles_empty_model() {
    let mut cache = Cache::new();
    let model = Model::new("empty.sysml".to_string());
    Indexer::index_model(&mut cache, &model);

    assert_eq!(cache.stats().nodes, 0);
    assert_eq!(cache.stats().edges, 0);
}

#[test]
fn index_model_skips_unnamed_usages() {
    let mut cache = Cache::new();
    let mut model = Model::new("test.sysml".to_string());
    model.usages.push(Usage {
        kind: "part".into(),
        name: "".into(),
        type_ref: Some("Foo".into()),
        span: Span::default(),
        direction: None,
        is_conjugated: false,
        parent_def: None,
        multiplicity: None,
        value_expr: None,
        short_name: None,
        redefinition: None,
        subsets: None,
        qualified_name: None,
    });

    Indexer::index_model(&mut cache, &model);
    assert_eq!(cache.stats().nodes, 0);
}

#[test]
fn build_qualified_names_chains_parents() {
    let mut model = Model::new("test.sysml".to_string());

    // A -> B -> C  (three levels of nesting)
    model.definitions.push(Definition {
        kind: DefKind::Package,
        name: "A".into(),
        super_type: None,
        span: Span::default(),
        has_body: true,
        param_count: 0,
        has_constraint_expr: false,
        has_return: false,
        visibility: None,
        short_name: None,
        doc: None,
        is_abstract: false,
            enum_members: Vec::new(),
        parent_def: None,
        body_start_byte: None,
        body_end_byte: None,
        qualified_name: None,
    });
    model.definitions.push(Definition {
        kind: DefKind::Part,
        name: "B".into(),
        super_type: None,
        span: Span::default(),
        has_body: true,
        param_count: 0,
        has_constraint_expr: false,
        has_return: false,
        visibility: None,
        short_name: None,
        doc: None,
        is_abstract: false,
            enum_members: Vec::new(),
        parent_def: Some("A".into()),
        body_start_byte: None,
        body_end_byte: None,
        qualified_name: None,
    });
    model.definitions.push(Definition {
        kind: DefKind::Port,
        name: "C".into(),
        super_type: None,
        span: Span::default(),
        has_body: true,
        param_count: 0,
        has_constraint_expr: false,
        has_return: false,
        visibility: None,
        short_name: None,
        doc: None,
        is_abstract: false,
            enum_members: Vec::new(),
        parent_def: Some("B".into()),
        body_start_byte: None,
        body_end_byte: None,
        qualified_name: None,
    });

    let qn = Indexer::build_qualified_names(&model);
    assert_eq!(qn.get("A").map(String::as_str), Some("A"));
    assert_eq!(qn.get("B").map(String::as_str), Some("A::B"));
    assert_eq!(qn.get("C").map(String::as_str), Some("A::B::C"));
}

#[test]
fn parse_flat_toml_extracts_top_level_keys() {
    let contents = r#"
id = "rev-001"
tool = "review"
type = "design-review"
created = "2025-01-15"
author = "alice"

[[refs]]
qualified_name = "Vehicle"
kind = "reviews"
"#;
    let kv = parse_flat_toml(contents);
    assert_eq!(kv.get("id").map(String::as_str), Some("rev-001"));
    assert_eq!(kv.get("tool").map(String::as_str), Some("review"));
    assert_eq!(kv.get("type").map(String::as_str), Some("design-review"));
    assert_eq!(kv.get("created").map(String::as_str), Some("2025-01-15"));
    assert_eq!(kv.get("author").map(String::as_str), Some("alice"));
}

#[test]
fn parse_flat_toml_ignores_comments_and_blanks() {
    let contents = r#"
# This is a comment
id = "test-001"

# Another comment
tool = "lint"
"#;
    let kv = parse_flat_toml(contents);
    assert_eq!(kv.len(), 2);
    assert_eq!(kv.get("id").map(String::as_str), Some("test-001"));
}

#[test]
fn parse_toml_refs_extracts_multiple_refs() {
    let contents = r#"
id = "rev-001"
tool = "review"

[[refs]]
qualified_name = "Vehicle"
kind = "reviews"

[[refs]]
qualified_name = "Engine"
kind = "reviews"
"#;
    let refs = parse_toml_refs(contents);
    assert_eq!(refs.len(), 2);
    assert_eq!(refs[0], ("Vehicle".to_string(), "reviews".to_string()));
    assert_eq!(refs[1], ("Engine".to_string(), "reviews".to_string()));
}

#[test]
fn parse_toml_refs_handles_no_refs() {
    let contents = r#"
id = "test-001"
tool = "lint"
"#;
    let refs = parse_toml_refs(contents);
    assert!(refs.is_empty());
}

#[test]
fn parse_toml_refs_handles_other_sections() {
    let contents = r#"
id = "rev-002"

[[refs]]
qualified_name = "MassReq"
kind = "decides"

[metadata]
version = "1"
"#;
    let refs = parse_toml_refs(contents);
    assert_eq!(refs.len(), 1);
    assert_eq!(refs[0].0, "MassReq");
}

#[test]
fn index_model_verification_edges() {
    let mut cache = Cache::new();
    let mut model = Model::new("test.sysml".to_string());

    model.verifications.push(Verification {
        requirement: "MassReq".into(),
        by: "MassTest".into(),
        span: Span::default(),
    });

    Indexer::index_model(&mut cache, &model);

    let edges = cache.find_edges_from("MassTest");
    assert_eq!(edges.len(), 1);
    assert_eq!(edges[0].target, "MassReq");
    assert_eq!(edges[0].kind, "verifies");
}

#[test]
fn index_model_allocation_edges() {
    let mut cache = Cache::new();
    let mut model = Model::new("test.sysml".to_string());

    model.allocations.push(Allocation {
        source: "SoftwareModule".into(),
        target: "ECU".into(),
        span: Span::default(),
    });

    Indexer::index_model(&mut cache, &model);

    let edges = cache.find_edges_from("SoftwareModule");
    assert_eq!(edges.len(), 1);
    assert_eq!(edges[0].target, "ECU");
    assert_eq!(edges[0].kind, "allocates");
}

#[test]
fn index_model_flow_edges() {
    let mut cache = Cache::new();
    let mut model = Model::new("test.sysml".to_string());

    model.flows.push(Flow {
        name: Some("fuelFlow".into()),
        item_type: Some("Fuel".into()),
        source: "fuelTank".into(),
        target: "engine".into(),
        span: Span::default(),
    });

    Indexer::index_model(&mut cache, &model);

    let edges = cache.find_edges_from("fuelTank");
    assert_eq!(edges.len(), 1);
    assert_eq!(edges[0].target, "engine");
    assert_eq!(edges[0].kind, "flows");
}

#[test]
fn index_model_top_level_usage_no_parent() {
    let mut cache = Cache::new();
    let mut model = Model::new("test.sysml".to_string());

    model.usages.push(Usage {
        kind: "part".into(),
        name: "standalone".into(),
        type_ref: None,
        span: Span {
            start_row: 1,
            start_col: 1,
            end_row: 1,
            end_col: 20,
            start_byte: 0,
            end_byte: 20,
        },
        direction: None,
        is_conjugated: false,
        parent_def: None,
        multiplicity: None,
        value_expr: None,
        short_name: None,
        redefinition: None,
        subsets: None,
        qualified_name: None,
    });

    Indexer::index_model(&mut cache, &model);

    let node = cache.find_node("standalone");
    assert!(node.is_some());
    assert!(node.unwrap().parent.is_none());
}

#[test]
fn index_record_contents_adds_record_and_refs() {
    let toml_content = r#"
id = "rev-100"
tool = "review"
type = "design-review"
created = "2025-06-01"
author = "charlie"

[[refs]]
qualified_name = "Vehicle"
kind = "reviews"

[[refs]]
qualified_name = "Engine"
kind = "reviews"
"#;
    assert!(Indexer::record_is_readable(toml_content));
    let mut cache = Cache::new();
    Indexer::index_record_contents(&mut cache, "records/rev-100.toml", toml_content);

    assert_eq!(cache.stats().records, 1);
    assert_eq!(cache.stats().ref_edges, 2);

    let records = cache.find_records_by_tool("review");
    assert_eq!(records.len(), 1);
    assert_eq!(records[0].id, "rev-100");
    assert_eq!(records[0].author, "charlie");
    assert_eq!(records[0].record_type, "design-review");
    assert_eq!(records[0].file, "records/rev-100.toml");

    let refs = cache.find_refs_for_record("rev-100");
    assert_eq!(refs.len(), 2);
    assert_eq!(refs[1].qualified_name, "Engine");
    assert_eq!(refs[1].ref_kind, "reviews");

    let referencing = cache.find_records_referencing("Vehicle");
    assert_eq!(referencing.len(), 1);
    assert_eq!(referencing[0].id, "rev-100");
}

#[test]
fn index_record_contents_skips_text_without_id() {
    let mut cache = Cache::new();
    Indexer::index_record_contents(&mut cache, "bad.toml", "tool = \"review\"\n");
    assert_eq!(cache.stats().records, 0);
    assert_eq!(cache.stats().ref_edges, 0);
}

#[test]
fn record_with_lone_quote_value_is_unreadable() {
    assert!(!Indexer::record_is_readable("id = \"\n"));
    assert!(!Indexer::record_is_readable("id = \"a\"\n[[refs]]\nkind = '\n"));
    assert!(Indexer::record_is_readable("[meta]\nid = \"\n"));
}

#[test]
fn parse_flat_toml_strips_single_quotes_and_keeps_bare_values() {
    let kv = parse_flat_toml("a = 'x y'\nb = 42\nc=\"\"\nno equals here\n");
    assert_eq!(kv.get("a").map(String::as_str), Some("x y"));
    assert_eq!(kv.get("b").map(String::as_str), Some("42"));
    assert_eq!(kv.get("c").map(String::as_str), Some(""));
    assert_eq!(kv.len(), 3);
}

#[test]
fn parse_flat_toml_later_key_wins() {
    let kv = parse_flat_toml("id = \"one\"\nid = \"two\"\n");
    assert_eq!(kv.get("id").map(String::as_str), Some("two"));
    assert_eq!(kv.len(), 1);
}

#[test]
fn parse_toml_refs_drops_unnamed_tables() {
    let refs = parse_toml_refs("[[refs]]\nkind = \"x\"\n[[refs]]\nqualified_name = \"A\"\n");
    assert_eq!(refs, vec![("A".to_string(), "".to_string())]);
}
