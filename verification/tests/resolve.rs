use sysml_core::model::{DefKind, Definition, Model, Multiplicity, Span, Usage};
use sysml_core::sim::resolve::{
    attribute_lookups_end, find_attribute_value, resolve_attribute_tree, AttributeNode,
};

fn def(name: &str, super_type: Option<&str>) -> Definition {
    Definition {
        kind: DefKind::Part,
        name: name.into(),
        super_type: super_type.map(|s| s.to_string()),
        span: Span::default(),
        has_body: true,
        param_count: 0,
        has_constraint_expr: false,
        has_return: false,
        visibility: None,
        short_name: None,
        doc: None,
        is_abstract: false,
        enum_members: Vec::new(),
        parent_def: None,
        body_start_byte: None,
        body_end_byte: None,
        qualified_name: None,
    }
}

fn usage(kind: &str, name: &str, type_ref: Option<&str>, parent: &str) -> Usage {
    Usage {
        kind: kind.into(),
        name: name.into(),
        type_ref: type_ref.map(|t| t.to_string()),
        span: Span::default(),
        direction: None,
        is_conjugated: false,
        parent_def: Some(parent.to_string()),
        multiplicity: None,
        value_expr: None,
        short_name: None,
        redefinition: None,
        subsets: None,
        qualified_name: None,
    }
}

fn attr(name: &str, value: &str, parent: &str) -> Usage {
    let mut u = usage("attribute", name, Some("Real"), parent);
    u.value_expr = Some(value.to_string());
    u
}

fn part(name: &str, ty: &str, count: Option<&str>, parent: &str) -> Usage {
    let mut u = usage("part", name, Some(ty), parent);
    u.multiplicity = count.map(|c| Multiplicity {
        lower: Some(c.to_string()),
        upper: None,
        is_ordered: false,
        is_nonunique: false,
    });
    u
}

/// Vehicle { engine: Engine, wheels: Wheel[4], body: Pkg::Body }, with
/// masses on Vehicle, Engine, Wheel (inherited by SportWheel) and Body.
fn vehicle() -> Model {
    let mut m = Model::new("vehicle.sysml".to_string());
    m.definitions = vec![
        def("Vehicle", None),
        def("Engine", None),
        def("Wheel", None),
        def("SportWheel", Some("Pkg::Wheel")),
        def("Body", None),
        def("Piston", None),
    ];
    m.usages = vec![
        attr("mass", " 1200.5 ", "Vehicle"),
        part("engine", "Engine", None, "Vehicle"),
        part("wheels", "SportWheel", Some("4"), "Vehicle"),
        part("body", "Pkg::Body", None, "Vehicle"),
        attr("mass", "not a number", "Engine"),
        attr("mass", "180", "Engine"),
        part("pistons", "Piston", Some("6"), "Engine"),
        usage("action", "run", Some("Run"), "Engine"),
        attr("mass", "2.5e1", "Wheel"),
        attr("mass", "350.", "Body"),
    ];
    m
}

fn shape(n: &AttributeNode) -> String {
    let kids: Vec<String> = n.children.iter().map(shape).collect();
    format!(
        "{}:{}x{}={}[{}]",
        n.name,
        n.definition,
        n.quantity,
        n.own_value.as_deref().unwrap_or("-"),
        kids.join(",")
    )
}

#[test]
fn attribute_values_own_and_inherited() {
    let m = vehicle();
    assert!(attribute_lookups_end(&m, "mass"));
    assert_eq!(find_attribute_value(&m, "Vehicle", "mass").as_deref(), Some("1200.5"));
    assert_eq!(find_attribute_value(&m, "Engine", "mass").as_deref(), Some("180"));
    assert_eq!(find_attribute_value(&m, "SportWheel", "mass").as_deref(), Some("2.5e1"));
    assert_eq!(find_attribute_value(&m, "Piston", "mass"), None);
    assert_eq!(find_attribute_value(&m, "Nowhere", "mass"), None);
    assert_eq!(find_attribute_value(&m, "Vehicle", "power"), None);
}

#[test]
fn part_tree_with_quantities() {
    let m = vehicle();
    let t = resolve_attribute_tree(&m, "Vehicle", "mass");
    assert_eq!(t.root, "Vehicle");
    assert_eq!(t.attribute, "mass");
    assert_eq!(t.own_value.as_deref(), Some("1200.5"));
    let shapes: Vec<String> = t.children.iter().map(shape).collect();
    assert_eq!(
        shapes,
        vec![
            "engine:Enginex1=180[pistons:Pistonx6=-[]]".to_string(),
            "wheels:SportWheelx4=2.5e1[]".to_string(),
            "body:Bodyx1=350.[]".to_string(),
        ]
    );
}

#[test]
fn cycles_are_entered_once() {
    let mut m = Model::new("loop.sysml".to_string());
    m.definitions = vec![def("A", None), def("B", None)];
    m.usages = vec![
        part("b", "B", None, "A"),
        part("a", "A", None, "B"),
        part("me", "B", None, "B"),
    ];
    let t = resolve_attribute_tree(&m, "A", "mass");
    let shapes: Vec<String> = t.children.iter().map(shape).collect();
    assert_eq!(shapes, vec!["b:Bx1=-[a:Ax1=-[],me:Bx1=-[]]".to_string()]);
}

#[test]
fn supertype_cycle_without_value_is_detected() {
    let mut m = Model::new("cycle.sysml".to_string());
    m.definitions = vec![def("A", Some("B")), def("B", Some("A")), def("C", Some("C"))];
    assert!(!attribute_lookups_end(&m, "mass"));
    m.usages = vec![attr("mass", "3", "B")];
    assert!(attribute_lookups_end(&m, "mass"));
    assert_eq!(find_attribute_value(&m, "A", "mass").as_deref(), Some("3"));
    assert_eq!(find_attribute_value(&m, "C", "mass"), None);
}
