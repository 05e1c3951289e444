use sysml_core::model::{qualify_model, simple_name, DefKind, Definition, Direction, Model, Span, Usage};

fn def(kind: DefKind, name: &str, parent: Option<&str>) -> Definition {
    Definition {
        kind,
        name: name.into(),
        super_type: None,
        span: Span::default(),
        has_body: true,
        param_count: 0,
        has_constraint_expr: false,
        has_return: false,
        visibility: None,
        short_name: None,
        doc: None,
        is_abstract: false,
        enum_members: Vec::new(),
        parent_def: parent.map(|p| p.to_string()),
        body_start_byte: None,
        body_end_byte: None,
        qualified_name: None,
    }
}

fn usage(name: &str, parent: Option<&str>) -> Usage {
    Usage {
        kind: "part".into(),
        name: name.into(),
        type_ref: None,
        span: Span::default(),
        direction: None,
        is_conjugated: false,
        parent_def: parent.map(|p| p.to_string()),
        multiplicity: None,
        value_expr: None,
        short_name: None,
        redefinition: None,
        subsets: None,
        qualified_name: None,
    }
}

#[test]
fn qualify_model_walks_parent_chains() {
    let mut m = Model::new("q.sysml".to_string());
    m.definitions.push(def(DefKind::Package, "Pkg", None));
    m.definitions.push(def(DefKind::Part, "Vehicle", Some("Pkg")));
    m.definitions.push(def(DefKind::Part, "Engine", Some("Vehicle")));
    m.usages.push(usage("engine", Some("Vehicle")));
    m.usages.push(usage("loose", None));
    m.usages.push(usage("orphan", Some("Unknown")));
    qualify_model(&mut m);
    let qn = |q: &Option<sysml_core::qualified_name::QualifiedName>| q.as_ref().unwrap().to_string();
    assert_eq!(qn(&m.definitions[0].qualified_name), "Pkg");
    assert_eq!(qn(&m.definitions[1].qualified_name), "Pkg::Vehicle");
    assert_eq!(qn(&m.definitions[2].qualified_name), "Pkg::Vehicle::Engine");
    assert_eq!(qn(&m.usages[0].qualified_name), "Pkg::Vehicle::engine");
    assert_eq!(qn(&m.usages[1].qualified_name), "loose");
    assert_eq!(qn(&m.usages[2].qualified_name), "Unknown::orphan");
    assert_eq!(m.definitions[2].name, "Engine");
}

#[test]
fn qualify_model_follows_last_definition_of_a_name() {
    let mut m = Model::new("q.sysml".to_string());
    m.definitions.push(def(DefKind::Part, "A", Some("X")));
    m.definitions.push(def(DefKind::Part, "A", Some("Y")));
    m.usages.push(usage("u", Some("A")));
    qualify_model(&mut m);
    let q = m.usages[0].qualified_name.as_ref().unwrap().to_string();
    assert_eq!(q, "Y::A::u");
}

#[test]
fn direction_labels_and_simple_names() {
    assert_eq!(Direction::In.label(), "in");
    assert_eq!(Direction::Out.conjugated(), Direction::In);
    assert_eq!(simple_name("Pkg::Vehicle.engine"), "engine");
}

#[test]
fn simple_name_is_a_plain_suffix_and_idempotent() {
    for name in ["A::B.c", "Pkg::Engine", "Engine", "a.b::c.d", "::", "x.", ""] {
        let s = simple_name(name);
        assert!(name.ends_with(s));
        assert!(!s.contains("::") && !s.contains('.'));
        assert_eq!(simple_name(s), s);
    }
    assert_eq!(simple_name("A::B.c"), "c");
    assert_eq!(simple_name("Pkg::Engine"), "Engine");
    assert_eq!(simple_name("a.b::c.d"), "d");
}
