use sysml_core::model::{Model, Span, SyntaxError};
use sysml_core::codegen::template::{
    generate_connection_usage, generate_import, generate_relationship, generate_template,
    parse_member_spec, parse_template_kind, MemberSpec, TemplateOptions,
};
use sysml_core::model::DefKind;

#[test]
fn generate_simple_part_def() {
    let opts = TemplateOptions {
        kind: DefKind::Part,
        name: "Vehicle".to_string(),
        super_type: None,
        is_abstract: false,
        short_name: None,
        doc: None,
        members: Vec::new(),
        exposes: Vec::new(),
        filter: None,
        indent: 0,
    };
    let result = generate_template(&opts);
    assert_eq!(result.trim(), "part def Vehicle;");
}

#[test]
fn generate_with_supertype_and_doc() {
    let opts = TemplateOptions {
        kind: DefKind::Part,
        name: "Vehicle".to_string(),
        super_type: Some("Base".to_string()),
        is_abstract: false,
        short_name: None,
        doc: Some("A vehicle definition".to_string()),
        members: Vec::new(),
        exposes: Vec::new(),
        filter: None,
        indent: 0,
    };
    let result = generate_template(&opts);
    assert!(result.contains("part def Vehicle :> Base {"));
    assert!(result.contains("doc /* A vehicle definition */"));
}

#[test]
fn generate_abstract_with_members() {
    let opts = TemplateOptions {
        kind: DefKind::Part,
        name: "Vehicle".to_string(),
        super_type: None,
        is_abstract: true,
        short_name: Some("V".to_string()),
        doc: None,
        members: vec![
            MemberSpec {
                usage_kind: "part".to_string(),
                name: "engine".to_string(),
                type_ref: Some("Engine".to_string()),
                direction: None,
                multiplicity: None,
                raw_line: false,
            },
        ],
        exposes: Vec::new(),
        filter: None,
        indent: 0,
    };
    let result = generate_template(&opts);
    assert!(result.contains("abstract part def <V> Vehicle {"));
    assert!(result.contains("part engine : Engine;"));
}

#[test]
fn generate_port_def_with_direction() {
    let opts = TemplateOptions {
        kind: DefKind::Port,
        name: "FuelPort".to_string(),
        super_type: None,
        is_abstract: false,
        short_name: None,
        doc: None,
        members: vec![
            MemberSpec {
                usage_kind: "item".to_string(),
                name: "fuel".to_string(),
                type_ref: Some("FuelType".to_string()),
                direction: Some("in".to_string()),
                multiplicity: None,
                raw_line: false,
            },
        ],
        exposes: Vec::new(),
        filter: None,
        indent: 0,
    };
    let result = generate_template(&opts);
    assert!(result.contains("port def FuelPort {"));
    assert!(result.contains("in item fuel : FuelType;"));
}

#[test]
fn generate_indented() {
    let opts = TemplateOptions {
        kind: DefKind::Part,
        name: "Engine".to_string(),
        super_type: None,
        is_abstract: false,
        short_name: None,
        doc: None,
        members: Vec::new(),
        exposes: Vec::new(),
        filter: None,
        indent: 4,
    };
    let result = generate_template(&opts);
    assert!(result.starts_with("    part def Engine;"));
}

#[test]
fn parse_template_kind_variants() {
    assert_eq!(parse_template_kind("part-def"), Some(DefKind::Part));
    assert_eq!(parse_template_kind("port def"), Some(DefKind::Port));
    assert_eq!(parse_template_kind("action-def"), Some(DefKind::Action));
    assert_eq!(parse_template_kind("state"), Some(DefKind::State));
    assert_eq!(parse_template_kind("requirement"), Some(DefKind::Requirement));
    assert_eq!(parse_template_kind("package"), Some(DefKind::Package));
    assert_eq!(parse_template_kind("nonsense"), None);
}

#[test]
fn parse_member_spec_variants() {
    let m = parse_member_spec("part engine:Engine").unwrap();
    assert_eq!(m.usage_kind, "part");
    assert_eq!(m.name, "engine");
    assert_eq!(m.type_ref.as_deref(), Some("Engine"));
    assert!(m.direction.is_none());
    assert!(m.multiplicity.is_none());

    let m2 = parse_member_spec("in port fuelIn:FuelPort").unwrap();
    assert_eq!(m2.direction.as_deref(), Some("in"));
    assert_eq!(m2.usage_kind, "port");
    assert_eq!(m2.name, "fuelIn");
}

#[test]
fn parse_member_spec_with_multiplicity() {
    let m = parse_member_spec("part wheels:Wheel[4]").unwrap();
    assert_eq!(m.name, "wheels");
    assert_eq!(m.type_ref.as_deref(), Some("Wheel"));
    assert_eq!(m.multiplicity.as_deref(), Some("4"));

    let m2 = parse_member_spec("attribute sensors:Sensor[1..*]").unwrap();
    assert_eq!(m2.name, "sensors");
    assert_eq!(m2.type_ref.as_deref(), Some("Sensor"));
    assert_eq!(m2.multiplicity.as_deref(), Some("1..*"));

    let m3 = parse_member_spec("part items[0..1]").unwrap();
    assert_eq!(m3.name, "items");
    assert!(m3.type_ref.is_none());
    assert_eq!(m3.multiplicity.as_deref(), Some("0..1"));
}

#[test]
fn generate_member_with_multiplicity() {
    let opts = TemplateOptions {
        kind: DefKind::Part,
        name: "Vehicle".to_string(),
        super_type: None,
        is_abstract: false,
        short_name: None,
        doc: None,
        members: vec![MemberSpec {
            usage_kind: "part".to_string(),
            name: "wheels".to_string(),
            type_ref: Some("Wheel".to_string()),
            direction: None,
            multiplicity: Some("4".to_string()),
            raw_line: false,
        }],
        exposes: Vec::new(),
        filter: None,
        indent: 0,
    };
    let result = generate_template(&opts);
    assert!(result.contains("part wheels : Wheel [4];"));
}

#[test]
fn generate_enum_with_members() {
    let opts = TemplateOptions {
        kind: DefKind::Enum,
        name: "Color".to_string(),
        super_type: None,
        is_abstract: false,
        short_name: None,
        doc: None,
        members: vec![
            MemberSpec {
                usage_kind: "enum".to_string(),
                name: "red".to_string(),
                type_ref: None,
                direction: None,
                multiplicity: None,
                raw_line: false,
            },
            MemberSpec {
                usage_kind: "enum".to_string(),
                name: "green".to_string(),
                type_ref: None,
                direction: None,
                multiplicity: None,
                raw_line: false,
            },
            MemberSpec {
                usage_kind: "enum".to_string(),
                name: "blue".to_string(),
                type_ref: None,
                direction: None,
                multiplicity: None,
                raw_line: false,
            },
        ],
        exposes: Vec::new(),
        filter: None,
        indent: 0,
    };
    let result = generate_template(&opts);
    assert!(result.contains("enum def Color {"));
    assert!(result.contains("enum red;"));
    assert!(result.contains("enum green;"));
    assert!(result.contains("enum blue;"));
    // Should NOT contain usage-style formatting
    assert!(!result.contains("enum enum"));
}

#[test]
fn generate_connection_usage_with_type() {
    let result = generate_connection_usage(
        "tempConn",
        Some("SensorConnection"),
        "tempSensor.dataOut to controller.tempIn",
        0,
    );
    assert!(result.contains("connection tempConn : SensorConnection"));
    assert!(result.contains("connect tempSensor.dataOut to controller.tempIn;"));
}

#[test]
fn generate_connection_usage_without_type() {
    let result = generate_connection_usage(
        "displayConn",
        None,
        "controller.displayOut to display.dataIn",
        0,
    );
    assert!(result.contains("connection displayConn\n"));
    assert!(result.contains("connect controller.displayOut to display.dataIn;"));
    assert!(!result.contains(":"));
}

#[test]
fn generate_connection_usage_indented() {
    let result = generate_connection_usage(
        "conn1",
        Some("C"),
        "a.x to b.y",
        8,
    );
    assert!(result.starts_with("        connection conn1 : C\n"));
    assert!(result.contains("            connect a.x to b.y;"));
}

#[test]
fn generate_satisfy_relationship() {
    let result = generate_relationship("satisfy", "TempAccuracy", "WeatherStation", 0);
    assert_eq!(result, "satisfy requirement TempAccuracy by WeatherStation;\n");
}

#[test]
fn generate_verify_relationship() {
    let result = generate_relationship("verify", "TempAccuracy", "TestTempAccuracy", 4);
    assert_eq!(result, "    verify requirement TempAccuracy by TestTempAccuracy;\n");
}

#[test]
fn generate_import_statement() {
    let result = generate_import("WeatherStation::*", 0);
    assert_eq!(result, "import WeatherStation::*;\n");
}

#[test]
fn generate_import_statement_indented() {
    let result = generate_import("Vehicles::Engine", 4);
    assert_eq!(result, "    import Vehicles::Engine;\n");
}

#[test]
fn parse_member_spec_transition() {
    let m = parse_member_spec("transition first idle accept start then running").unwrap();
    assert!(m.raw_line);
    assert_eq!(m.name, "transition first idle accept start then running");
}

#[test]
fn parse_member_spec_entry() {
    let m = parse_member_spec("entry; then idle;").unwrap();
    assert!(m.raw_line);
    assert_eq!(m.name, "entry; then idle;");
}

#[test]
fn parse_member_spec_first_succession() {
    let m = parse_member_spec("first readTemp then processData").unwrap();
    assert!(m.raw_line);
    assert_eq!(m.name, "first readTemp then processData");
}

#[test]
fn parse_member_spec_constraint_expr() {
    let m = parse_member_spec("constraint temp >= -40 and temp <= 60").unwrap();
    assert!(m.raw_line);
    assert_eq!(m.name, "temp >= -40 and temp <= 60");
}

#[test]
fn parse_member_spec_constraint_usage_not_raw() {
    let m = parse_member_spec("constraint tempCheck:TempConstraint").unwrap();
    assert!(!m.raw_line);
    assert_eq!(m.usage_kind, "constraint");
    assert_eq!(m.name, "tempCheck");
    assert_eq!(m.type_ref.as_deref(), Some("TempConstraint"));
}

#[test]
fn parse_member_spec_return() {
    let m = parse_member_spec("return hours:Real").unwrap();
    assert!(!m.raw_line);
    assert_eq!(m.usage_kind, "return");
    assert_eq!(m.name, "hours");
    assert_eq!(m.type_ref.as_deref(), Some("Real"));
}

#[test]
fn generate_state_def_with_transitions() {
    let opts = TemplateOptions {
        kind: DefKind::State,
        name: "StationStates".to_string(),
        super_type: None,
        is_abstract: false,
        short_name: None,
        doc: Some("Operating states".to_string()),
        members: vec![
            parse_member_spec("entry; then off;").unwrap(),
            parse_member_spec("state off").unwrap(),
            parse_member_spec("state monitoring").unwrap(),
            parse_member_spec("transition first off accept powerOn then monitoring").unwrap(),
        ],
        exposes: Vec::new(),
        filter: None,
        indent: 0,
    };
    let result = generate_template(&opts);
    assert!(result.contains("state def StationStates {"));
    assert!(result.contains("entry; then off;"));
    assert!(result.contains("state off;"));
    assert!(result.contains("state monitoring;"));
    assert!(result.contains("transition first off accept powerOn then monitoring;"));
}

#[test]
fn generate_action_def_with_steps() {
    let opts = TemplateOptions {
        kind: DefKind::Action,
        name: "ReadSensors".to_string(),
        super_type: None,
        is_abstract: false,
        short_name: None,
        doc: None,
        members: vec![
            parse_member_spec("action readTemp").unwrap(),
            parse_member_spec("action processData").unwrap(),
            parse_member_spec("first readTemp then processData").unwrap(),
        ],
        exposes: Vec::new(),
        filter: None,
        indent: 0,
    };
    let result = generate_template(&opts);
    assert!(result.contains("action def ReadSensors {"));
    assert!(result.contains("action readTemp;"));
    assert!(result.contains("first readTemp then processData;"));
}

#[test]
fn generate_calc_def_with_return() {
    let opts = TemplateOptions {
        kind: DefKind::Calc,
        name: "BatteryRuntime".to_string(),
        super_type: None,
        is_abstract: false,
        short_name: None,
        doc: None,
        members: vec![
            parse_member_spec("in attribute capacity:Real").unwrap(),
            parse_member_spec("in attribute consumption:Real").unwrap(),
            parse_member_spec("return hours:Real").unwrap(),
        ],
        exposes: Vec::new(),
        filter: None,
        indent: 0,
    };
    let result = generate_template(&opts);
    assert!(result.contains("calc def BatteryRuntime {"));
    assert!(result.contains("in attribute capacity : Real;"));
    assert!(result.contains("return hours : Real;"));
}

#[test]
fn generate_constraint_def_with_expression() {
    let opts = TemplateOptions {
        kind: DefKind::Constraint,
        name: "TempLimit".to_string(),
        super_type: None,
        is_abstract: false,
        short_name: None,
        doc: None,
        members: vec![
            parse_member_spec("in attribute temp:Real").unwrap(),
            parse_member_spec("constraint temp >= -40 and temp <= 60").unwrap(),
        ],
        exposes: Vec::new(),
        filter: None,
        indent: 0,
    };
    let result = generate_template(&opts);
    assert!(result.contains("constraint def TempLimit {"));
    assert!(result.contains("in attribute temp : Real;"));
    assert!(result.contains("temp >= -40 and temp <= 60;"));
}

#[test]
fn generate_verification_def() {
    let opts = TemplateOptions {
        kind: DefKind::Verification,
        name: "TestTempAccuracy".to_string(),
        super_type: None,
        is_abstract: false,
        short_name: None,
        doc: Some("Verify temperature accuracy".to_string()),
        members: vec![
            parse_member_spec("subject testSubject").unwrap(),
            parse_member_spec("requirement tempReq:TemperatureAccuracy").unwrap(),
        ],
        exposes: Vec::new(),
        filter: None,
        indent: 0,
    };
    let result = generate_template(&opts);
    assert!(result.contains("verification def TestTempAccuracy {"));
    assert!(result.contains("objective {"));
    assert!(result.contains("doc /* Verify temperature accuracy */"));
    assert!(result.contains("subject testSubject;"));
    assert!(result.contains("requirement tempReq : TemperatureAccuracy;"));
    // Should NOT have a top-level doc comment
    let lines: Vec<&str> = result.lines().collect();
    assert!(!lines[1].trim().starts_with("doc"));
}

#[test]
fn parse_template_kind_verification() {
    assert_eq!(parse_template_kind("verification"), Some(DefKind::Verification));
    assert_eq!(parse_template_kind("verification-def"), Some(DefKind::Verification));
}

#[test]
fn generate_view_def_with_expose_and_filter() {
    let opts = TemplateOptions {
        kind: DefKind::View,
        name: "PartsView".to_string(),
        super_type: None,
        is_abstract: false,
        short_name: None,
        doc: None,
        members: Vec::new(),
        exposes: vec!["Vehicle::*".to_string()],
        filter: Some("PartDef".to_string()),
        indent: 0,
    };
    let result = generate_template(&opts);
    assert!(result.contains("view def PartsView {"));
    assert!(result.contains("expose Vehicle::*;"));
    assert!(result.contains("filter @type istype PartDef;"));
}


#[test]
fn validate_parsed_reports_syntax_errors() {
    let mut m = Model::new("<generated>".to_string());
    assert!(sysml_core::codegen::template::validate_parsed(&m).is_ok());
    m.syntax_errors.push(SyntaxError {
        message: "unexpected token".into(),
        context: "part def".into(),
        span: Span { start_row: 3, start_col: 1, end_row: 3, end_col: 5, start_byte: 0, end_byte: 0 },
    });
    assert_eq!(
        sysml_core::codegen::template::validate_parsed(&m),
        Err(vec!["line 3: unexpected token (part def)".to_string()])
    );
}
