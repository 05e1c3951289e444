use sysml_core::model::{
    Connection, DefKind, Definition, Direction, Model, Satisfaction, Span, Usage, Verification,
    Visibility,
};
use sysml_core::query::{
    list_elements, list_ports, trace_coverage, trace_requirements, unconnected_ports, Element,
    KindFilter, ListFilter, TraceRow,
};

fn def(kind: DefKind, name: &str, parent: Option<&str>) -> Definition {
    Definition {
        kind,
        name: name.into(),
        super_type: None,
        span: Span::default(),
        has_body: true,
        param_count: 0,
        has_constraint_expr: false,
        has_return: false,
        visibility: None,
        short_name: None,
        doc: None,
        is_abstract: false,
        enum_members: Vec::new(),
        parent_def: parent.map(|p| p.to_string()),
        body_start_byte: None,
        body_end_byte: None,
        qualified_name: None,
    }
}

fn usage(kind: &str, name: &str, type_ref: Option<&str>, parent: Option<&str>) -> Usage {
    Usage {
        kind: kind.into(),
        name: name.into(),
        type_ref: type_ref.map(|t| t.to_string()),
        span: Span::default(),
        direction: None,
        is_conjugated: false,
        parent_def: parent.map(|p| p.to_string()),
        multiplicity: None,
        value_expr: None,
        short_name: None,
        redefinition: None,
        subsets: None,
        qualified_name: None,
    }
}

fn sample() -> Model {
    let mut m = Model::new("test.sysml".to_string());
    m.definitions.push(def(DefKind::Part, "Vehicle", None));
    m.definitions.push(def(DefKind::Part, "Engine", None));
    let mut wheel = def(DefKind::Part, "Wheel", Some("Vehicle"));
    wheel.is_abstract = true;
    wheel.visibility = Some(Visibility::Private);
    m.definitions.push(wheel);
    m.definitions.push(def(DefKind::Requirement, "MassReq", None));
    m.definitions.push(def(DefKind::Requirement, "SpeedReq", None));
    m.usages.push(usage("part", "engine", Some("Engine"), Some("Vehicle")));
    let mut p = usage("port", "fuelIn", Some("FuelPort"), Some("Vehicle"));
    p.direction = Some(Direction::In);
    m.usages.push(p);
    m.usages.push(usage("port", "dataOut", Some("DataPort"), None));
    m.connections.push(Connection {
        name: None,
        source: "engine.fuelIn".into(),
        target: "tank".into(),
        span: Span::default(),
    });
    m.satisfactions.push(Satisfaction {
        requirement: "Reqs::MassReq".into(),
        by: Some("Vehicle".into()),
        span: Span::default(),
    });
    m.satisfactions.push(Satisfaction { requirement: "MassReq".into(), by: None, span: Span::default() });
    m.verifications.push(Verification {
        requirement: "MassReq".into(),
        by: "MassTest".into(),
        span: Span::default(),
    });
    m
}

#[test]
fn trace_coverage_metrics() {
    let rows = vec![
        TraceRow {
            requirement: "R1".into(),
            satisfied_by: vec!["A".into()],
            verified_by: vec!["T1".into()],
        },
        TraceRow {
            requirement: "R2".into(),
            satisfied_by: vec!["B".into()],
            verified_by: vec![],
        },
        TraceRow {
            requirement: "R3".into(),
            satisfied_by: vec![],
            verified_by: vec![],
        },
    ];
    let cov = trace_coverage(&rows);
    assert_eq!(cov.total_requirements, 3);
    assert_eq!(cov.satisfied_count, 2);
    assert_eq!(cov.verified_count, 1);
    assert_eq!(cov.fully_traced_count, 1);
}

#[test]
fn list_elements_default_lists_definitions_then_usages() {
    let m = sample();
    let r = list_elements(&m, &ListFilter::default());
    assert_eq!(r.len(), 8);
    assert_eq!(r[0].name(), "Vehicle");
    assert_eq!(r[0].kind_label(), "part def");
    assert_eq!(r[5].name(), "engine");
    assert_eq!(r[5].kind_label(), "part");
    assert_eq!(r[5].parent_def(), Some("Vehicle"));
    assert_eq!(r[5].type_ref(), Some("Engine"));
    assert!(matches!(r[5], Element::Usage(_)));
}

#[test]
fn list_elements_filters() {
    let m = sample();
    let mut f = ListFilter::default();
    f.kind = Some(KindFilter::DefKind(DefKind::Requirement));
    let r = list_elements(&m, &f);
    assert_eq!(r.iter().map(|e| e.name()).collect::<Vec<_>>(), vec!["MassReq", "SpeedReq"]);

    let mut f = ListFilter::default();
    f.kind = Some(KindFilter::UsageKind("port".into()));
    assert_eq!(list_elements(&m, &f).len(), 2);

    let mut f = ListFilter::default();
    f.name_pattern = Some("eed".into());
    let r = list_elements(&m, &f);
    assert_eq!(r.len(), 1);
    assert_eq!(r[0].name(), "SpeedReq");

    let mut f = ListFilter::default();
    f.parent = Some("Vehicle".into());
    assert_eq!(list_elements(&m, &f).len(), 3);

    let mut f = ListFilter::default();
    f.abstract_only = true;
    let r = list_elements(&m, &f);
    assert_eq!(r.len(), 1);
    assert_eq!(r[0].name(), "Wheel");

    let mut f = ListFilter::default();
    f.kind = Some(KindFilter::Definitions);
    f.visibility = Some(Visibility::Private);
    let r = list_elements(&m, &f);
    assert_eq!(r.len(), 1);
    assert_eq!(r[0].name(), "Wheel");

    let mut f = ListFilter::default();
    f.kind = Some(KindFilter::Definitions);
    f.unused_only = true;
    let listed = list_elements(&m, &f);
    let names: Vec<&str> = listed.iter().map(|e| e.name()).collect();
    assert_eq!(names, vec!["Wheel", "SpeedReq"]);

    let mut f = ListFilter::default();
    f.unused_only = true;
    let listed = list_elements(&m, &f);
    let names: Vec<&str> = listed.iter().map(|e| e.name()).collect();
    assert_eq!(names, vec!["Wheel", "SpeedReq"]);
}

#[test]
fn trace_requirements_rows() {
    let m = sample();
    let rows = trace_requirements(&m);
    assert_eq!(rows.len(), 2);
    assert_eq!(rows[0].requirement, "MassReq");
    assert_eq!(rows[0].satisfied_by, vec!["Vehicle".to_string(), "(implicit)".to_string()]);
    assert_eq!(rows[0].verified_by, vec!["MassTest".to_string()]);
    assert_eq!(rows[1].requirement, "SpeedReq");
    assert!(rows[1].satisfied_by.is_empty());
    let cov = trace_coverage(&rows);
    assert_eq!(cov.fully_traced_count, 1);
}

#[test]
fn ports_and_unconnected_ports() {
    let m = sample();
    let ports = list_ports(&m);
    assert_eq!(ports.len(), 2);
    assert_eq!(ports[0].name, "fuelIn");
    assert_eq!(ports[0].owner, "Vehicle");
    assert_eq!(ports[0].direction, Some(Direction::In));
    assert_eq!(ports[1].owner, "");
    let unconn = unconnected_ports(&m);
    assert_eq!(unconn.len(), 1);
    assert_eq!(unconn[0].name, "dataOut");
}
