use sysml_core::model::{DefKind, Definition, Direction, Model, Span, Usage};
use sysml_core::sim::analysis::{
    extract_analysis_cases_from_model, format_analysis_list, ObjectiveKind, ParameterDirection,
};

fn def(kind: DefKind, name: &str) -> Definition {
    Definition {
        kind,
        name: name.into(),
        super_type: None,
        span: Span::default(),
        has_body: true,
        param_count: 0,
        has_constraint_expr: false,
        has_return: false,
        visibility: None,
        short_name: None,
        doc: None,
        is_abstract: false,
        enum_members: Vec::new(),
        parent_def: None,
        body_start_byte: None,
        body_end_byte: None,
        qualified_name: None,
    }
}

fn usage(kind: &str, name: &str, type_ref: Option<&str>, parent: &str) -> Usage {
    Usage {
        kind: kind.into(),
        name: name.into(),
        type_ref: type_ref.map(|t| t.to_string()),
        span: Span::default(),
        direction: None,
        is_conjugated: false,
        parent_def: Some(parent.to_string()),
        multiplicity: None,
        value_expr: None,
        short_name: None,
        redefinition: None,
        subsets: None,
        qualified_name: None,
    }
}

fn fuel_model() -> Model {
    let mut m = Model::new("a.sysml".to_string());
    m.definitions.push(def(DefKind::Analysis, "FuelAnalysis"));
    m.usages.push(usage("subject", "vehicle", Some("Vehicle"), "FuelAnalysis"));
    let mut scenario = usage("attribute", "scenario", Some("Scenario"), "FuelAnalysis");
    scenario.direction = Some(Direction::In);
    m.usages.push(scenario);
    let mut distance = usage("attribute", "distance", Some("Real"), "FuelAnalysis");
    distance.value_expr = Some("100".into());
    m.usages.push(distance);
    m.usages.push(usage("objective", "obj", Some("Objectives::MinimizeObjective"), "FuelAnalysis"));
    let mut ret = usage("return", "fuelEconomy", Some("Real"), "FuelAnalysis");
    ret.value_expr = Some("distance / 2".into());
    m.usages.push(ret);
    m
}

#[test]
fn analysis_case_parts_from_model() {
    let cases = extract_analysis_cases_from_model(&fuel_model());
    assert_eq!(cases.len(), 1);
    let c = &cases[0];
    assert_eq!(c.name, "FuelAnalysis");
    assert_eq!(c.subject.as_ref().unwrap().name, "vehicle");
    assert_eq!(c.subject.as_ref().unwrap().type_ref.as_deref(), Some("Vehicle"));
    assert_eq!(c.parameters.len(), 1);
    assert_eq!(c.parameters[0].name, "scenario");
    assert_eq!(c.parameters[0].direction, ParameterDirection::In);
    assert_eq!(c.local_bindings.len(), 1);
    assert_eq!(c.local_bindings[0].value_expr, "100");
    assert_eq!(c.objective.as_ref().unwrap().kind, ObjectiveKind::Minimize);
    assert_eq!(c.return_decl.as_ref().unwrap().name, "fuelEconomy");
}

#[test]
fn trade_study_alternatives_and_overrides() {
    let mut m = Model::new("a.sysml".to_string());
    m.definitions.push(def(DefKind::Analysis, "EngineTradeOff"));
    m.usages.push(usage("objective", "", Some("MaximizeObjective"), "EngineTradeOff"));
    m.usages.push(usage("part", "engine4cyl", Some("Engine"), "EngineTradeOff"));
    m.usages.push(usage("part", "engine6cyl", Some("Engine"), "EngineTradeOff"));
    let mut mass = usage("attribute", "mass", None, "engine6cyl");
    mass.value_expr = Some("180".into());
    m.usages.push(mass);
    let cases = extract_analysis_cases_from_model(&m);
    assert_eq!(cases.len(), 1);
    assert_eq!(cases[0].alternatives.len(), 2);
    assert_eq!(cases[0].alternatives[1].overrides, vec![("mass".to_string(), "180".to_string())]);
    assert!(cases[0].alternatives[0].overrides.is_empty());
    assert_eq!(cases[0].objective.as_ref().unwrap().kind, ObjectiveKind::Maximize);
}

#[test]
fn analysis_usages_follow_definitions() {
    let mut m = fuel_model();
    m.usages.push(usage("analysis", "myStudy", Some("FuelAnalysis"), "context"));
    let cases = extract_analysis_cases_from_model(&m);
    assert_eq!(cases.len(), 2);
    assert_eq!(cases[1].name, "myStudy");
    assert!(cases[1].subject.is_none());
    let none = extract_analysis_cases_from_model(&Model::new("e.sysml".to_string()));
    assert!(none.is_empty());
}

#[test]
fn analysis_list_text() {
    let cases = extract_analysis_cases_from_model(&fuel_model());
    let text = format_analysis_list(&cases);
    assert_eq!(
        text,
        "analysis FuelAnalysis (subject: vehicle : Vehicle)\n  objective: obj [minimize]\n  in scenario : Scenario\n  return fuelEconomy : Real = distance / 2\n  distance = 100\n"
    );
    assert_eq!(format_analysis_list(&[]), "No analysis cases found.");
}
