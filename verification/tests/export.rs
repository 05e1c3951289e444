use sysml_core::export::fmi::{
    direction_to_causality, extract_interface, list_exportable, map_type, FmiAttribute,
    FmiInterface, FmiInterfaceItem,
};
use sysml_core::export::modelica::{
    generate_modelica, modelica_input_type, modelica_output_type, modelica_param_type,
};
use sysml_core::export::ssp::{
    extract_ssp_structure, generate_ssd_xml, SspComponent, SspConnection, SspStructure,
};
use sysml_core::model::{Connection, DefKind, Definition, Direction, Model, Span, Usage};

fn def(kind: DefKind, name: &str) -> Definition {
    Definition {
        kind,
        name: name.into(),
        super_type: None,
        span: Span::default(),
        has_body: true,
        param_count: 0,
        has_constraint_expr: false,
        has_return: false,
        visibility: None,
        short_name: None,
        doc: None,
        is_abstract: false,
        enum_members: Vec::new(),
        parent_def: None,
        body_start_byte: None,
        body_end_byte: None,
        qualified_name: None,
    }
}

fn usage(kind: &str, name: &str, type_ref: Option<&str>, parent: &str) -> Usage {
    Usage {
        kind: kind.into(),
        name: name.into(),
        type_ref: type_ref.map(|t| t.to_string()),
        span: Span::default(),
        direction: None,
        is_conjugated: false,
        parent_def: Some(parent.to_string()),
        multiplicity: None,
        value_expr: None,
        short_name: None,
        redefinition: None,
        subsets: None,
        qualified_name: None,
    }
}

fn item(name: &str, ty: &str, dir: Direction, parent: &str) -> Usage {
    let mut u = usage("item", name, Some(ty), parent);
    u.direction = Some(dir);
    u
}

/// The vehicle model: an engine and a transmission joined by a drive port.
fn vehicle() -> Model {
    let mut m = Model::new("fmi-vehicle.sysml".to_string());
    for (k, n) in [
        (DefKind::Port, "FuelPort"),
        (DefKind::Port, "DrivePort"),
        (DefKind::Port, "IgnitionPort"),
        (DefKind::Part, "Engine"),
        (DefKind::Part, "Transmission"),
        (DefKind::Part, "VehicleSystem"),
    ] {
        m.definitions.push(def(k, n));
    }
    m.usages.push(item("fuelFlow", "Real", Direction::In, "FuelPort"));
    m.usages.push(item("torque", "Real", Direction::Out, "DrivePort"));
    m.usages.push(item("speed", "Real", Direction::Out, "DrivePort"));
    m.usages.push(item("ignitionOn", "Boolean", Direction::In, "IgnitionPort"));
    m.usages.push(usage("port", "fuelIn", Some("FuelPort"), "Engine"));
    let mut drive_out = usage("port", "driveOut", Some("DrivePort"), "Engine");
    drive_out.is_conjugated = true;
    m.usages.push(drive_out);
    m.usages.push(usage("port", "ignition", Some("IgnitionPort"), "Engine"));
    m.usages.push(usage("attribute", "displacement", Some("Real"), "Engine"));
    m.usages.push(usage("attribute", "cylinders", Some("Integer"), "Engine"));
    m.usages.push(usage("port", "driveIn", Some("DrivePort"), "Transmission"));
    m.usages.push(usage("attribute", "gearCount", Some("Integer"), "Transmission"));
    m.usages.push(usage("part", "engine", Some("Engine"), "VehicleSystem"));
    m.usages.push(usage("part", "transmission", Some("Transmission"), "VehicleSystem"));
    m.connections.push(Connection {
        name: Some("engineToDrive".into()),
        source: "engine.driveOut".into(),
        target: "transmission.driveIn".into(),
        span: Span::default(),
    });
    m
}

#[test]
fn extract_engine_interface() {
    let model = vehicle();
    let interface = extract_interface(&model, "Engine").unwrap();
    assert_eq!(interface.part_name, "Engine");
    assert_eq!(interface.items.len(), 4, "Engine should have 4 interface items");

    let drive_items: Vec<_> =
        interface.items.iter().filter(|i| i.source_port == "driveOut").collect();
    assert_eq!(drive_items.len(), 2);
    for item in &drive_items {
        assert_eq!(item.direction, "in", "Conjugated DrivePort items should be 'in'");
        assert_eq!(item.causality, "input");
    }

    let fuel_items: Vec<_> = interface.items.iter().filter(|i| i.source_port == "fuelIn").collect();
    assert_eq!(fuel_items.len(), 1);
    assert_eq!(fuel_items[0].direction, "in");
    assert_eq!(fuel_items[0].name, "fuelFlow");
    assert_eq!(fuel_items[0].fmi_type, "Float64");
    assert_eq!(fuel_items[0].variability, "continuous");

    let ign_items: Vec<_> = interface.items.iter().filter(|i| i.source_port == "ignition").collect();
    assert_eq!(ign_items.len(), 1);
    assert_eq!(ign_items[0].name, "ignitionOn");
    assert_eq!(ign_items[0].fmi_type, "Boolean");

    assert_eq!(interface.attributes.len(), 2);
    let displacement = interface.attributes.iter().find(|a| a.name == "displacement");
    assert_eq!(displacement.unwrap().sysml_type, "Real");
    let cylinders = interface.attributes.iter().find(|a| a.name == "cylinders");
    assert_eq!(cylinders.unwrap().sysml_type, "Integer");
}

#[test]
fn extract_transmission_interface() {
    let model = vehicle();
    let interface = extract_interface(&model, "Transmission").unwrap();
    assert_eq!(interface.items.len(), 2, "Transmission has 2 items from DrivePort");
    for item in &interface.items {
        assert_eq!(item.direction, "out", "DrivePort items are 'out' (no conjugation)");
        assert_eq!(item.causality, "output");
    }
    assert_eq!(interface.attributes.len(), 1);
    assert_eq!(interface.attributes[0].name, "gearCount");
}

#[test]
fn interface_items_follow_usage_order() {
    let model = vehicle();
    let interface = extract_interface(&model, "Engine").unwrap();
    let names: Vec<&str> = interface.items.iter().map(|i| i.name.as_str()).collect();
    assert_eq!(names, vec!["fuelFlow", "torque", "speed", "ignitionOn"]);
}

#[test]
fn nonexistent_part_errors() {
    let model = vehicle();
    let result = extract_interface(&model, "NonExistent");
    assert_eq!(result.unwrap_err(), "part def `NonExistent` not found");
}

#[test]
fn port_definition_is_not_a_part() {
    let model = vehicle();
    assert_eq!(extract_interface(&model, "FuelPort").unwrap_err(), "part def `FuelPort` not found");
}

#[test]
fn untyped_item_defaults_to_real_input() {
    let mut m = Model::new("t.sysml".into());
    m.definitions.push(def(DefKind::Part, "P"));
    m.usages.push(usage("port", "p", Some("Q"), "P"));
    m.usages.push(usage("item", "x", None, "Q"));
    m.usages.push(usage("attribute", "a", None, "P"));
    let fi = extract_interface(&m, "P").unwrap();
    assert_eq!(fi.items.len(), 1);
    assert_eq!(fi.items[0].sysml_type, "Real");
    assert_eq!(fi.items[0].direction, "in");
    assert_eq!(fi.items[0].causality, "input");
    assert_eq!(fi.attributes[0].sysml_type, "Real");
}

#[test]
fn type_and_causality_mapping() {
    assert_eq!(map_type("Real"), "Float64");
    assert_eq!(map_type("ScalarValues::Integer"), "Int32");
    assert_eq!(map_type("Natural"), "Int32");
    assert_eq!(map_type("Boolean"), "Boolean");
    assert_eq!(map_type("ScalarValues::String"), "String");
    assert_eq!(map_type("Mass"), "Float64");
    assert_eq!(direction_to_causality(Direction::In), "input");
    assert_eq!(direction_to_causality(Direction::Out), "output");
    assert_eq!(direction_to_causality(Direction::InOut), "input");
}

#[test]
fn list_exportable_parts() {
    let model = vehicle();
    let parts = list_exportable(&model);
    let names: Vec<&str> = parts.iter().map(|p| p.name.as_str()).collect();
    assert_eq!(names, vec!["Engine", "Transmission"]);
    assert_eq!(parts[0].ports, 3);
    assert_eq!(parts[0].attributes, 2);
    assert_eq!(parts[1].ports, 1);
    assert_eq!(parts[1].attributes, 1);
}

#[test]
fn exportable_connection_count() {
    let mut m = Model::new("t.sysml".into());
    m.definitions.push(def(DefKind::Part, "Sys"));
    m.usages.push(usage("attribute", "mass", Some("Real"), "Sys"));
    m.usages.push(usage("part", "pump", Some("Pump"), "Sys"));
    for (s, t) in [("Sys.a", "x"), ("y", "Sys.b"), ("pump.out", "z"), ("other.out", "w")] {
        m.connections.push(Connection { name: None, source: s.into(), target: t.into(), span: Span::default() });
    }
    let parts = list_exportable(&m);
    assert_eq!(parts.len(), 1);
    assert_eq!(parts[0].connections, 3);
}

fn small_interface() -> FmiInterface {
    FmiInterface {
        part_name: "Pump".into(),
        items: vec![
            FmiInterfaceItem {
                name: "flowIn".into(),
                direction: "in".into(),
                sysml_type: "Real".into(),
                fmi_type: "Float64".into(),
                causality: "input".into(),
                variability: "continuous".into(),
                source_port: "inlet".into(),
            },
            FmiInterfaceItem {
                name: "running".into(),
                direction: "out".into(),
                sysml_type: "Boolean".into(),
                fmi_type: "Boolean".into(),
                causality: "output".into(),
                variability: "continuous".into(),
                source_port: "status".into(),
            },
        ],
        attributes: vec![FmiAttribute { name: "stages".into(), sysml_type: "Natural".into() }],
    }
}

#[test]
fn modelica_exact_text() {
    let mo = generate_modelica(&small_interface());
    let expected = "partial model Pump\n  \"Generated from SysML v2 part def Pump\"\n  Modelica.Blocks.Interfaces.RealInput flowIn \"From port inlet\";\n  Modelica.Blocks.Interfaces.BooleanOutput running \"From port status\";\n  parameter Integer stages \"From SysML attribute\";\nequation\n  // Equations to be filled by model developer\nend Pump;";
    assert_eq!(mo, expected);
}

#[test]
fn generate_engine_modelica() {
    let model = vehicle();
    let interface = extract_interface(&model, "Engine").unwrap();
    let mo = generate_modelica(&interface);
    assert!(mo.starts_with("partial model Engine"));
    assert!(mo.ends_with("end Engine;"));
    assert!(mo.contains("equation"));
    assert!(mo.contains("parameter Real displacement"));
    assert!(mo.contains("parameter Integer cylinders"));
    assert!(mo.contains("RealInput"));
}

#[test]
fn modelica_type_mapping() {
    assert_eq!(modelica_input_type("Int32"), "Modelica.Blocks.Interfaces.IntegerInput");
    assert_eq!(modelica_input_type("String"), "Modelica.Blocks.Interfaces.RealInput");
    assert_eq!(modelica_output_type("Float64"), "Modelica.Blocks.Interfaces.RealOutput");
    assert_eq!(modelica_param_type("ScalarValues::Boolean"), "Boolean");
    assert_eq!(modelica_param_type("Length"), "Real");
}

#[test]
fn extract_vehicle_ssp() {
    let model = vehicle();
    let ssp = extract_ssp_structure(&model);
    let names: Vec<&str> = ssp.components.iter().map(|c| c.name.as_str()).collect();
    assert_eq!(names, vec!["engine", "transmission"]);
    assert_eq!(ssp.components[0].component_type, "Engine");
    assert_eq!(ssp.connections.len(), 1);
    let conn = &ssp.connections[0];
    assert_eq!(conn.name.as_deref(), Some("engineToDrive"));
    assert_eq!(conn.start_element, "engine");
    assert_eq!(conn.start_connector, "driveOut");
    assert_eq!(conn.end_element, "transmission");
    assert_eq!(conn.end_connector, "driveIn");
}

#[test]
fn ssp_splits_at_first_dot() {
    let mut m = Model::new("t.sysml".into());
    m.connections.push(Connection {
        name: None,
        source: "a.b.c".into(),
        target: "plain".into(),
        span: Span::default(),
    });
    let ssp = extract_ssp_structure(&m);
    let c = &ssp.connections[0];
    assert_eq!(c.start_element, "a");
    assert_eq!(c.start_connector, "b");
    assert_eq!(c.end_element, "plain");
    assert_eq!(c.end_connector, "plain");
}

#[test]
fn generate_ssd_xml_valid() {
    let model = vehicle();
    let ssp = extract_ssp_structure(&model);
    let xml = generate_ssd_xml(&ssp);
    assert!(xml.contains("<?xml version="));
    assert!(xml.contains("ssd:SystemStructureDescription"));
    assert!(xml.contains("ssd:Component name=\"engine\""));
    assert!(xml.contains("source=\"resources/engine.fmu\""));
    assert!(xml.contains("ssd:Connection"));
    assert!(xml.contains("startElement=\"engine\""));
    assert!(xml.contains("endElement=\"transmission\""));
}

#[test]
fn ssd_exact_text_lists_each_connector_once() {
    let conn = |s: &str, sc: &str, e: &str, ec: &str| SspConnection {
        name: None,
        start_element: s.into(),
        start_connector: sc.into(),
        end_element: e.into(),
        end_connector: ec.into(),
    };
    let st = SspStructure {
        components: vec![SspComponent { name: "a".into(), component_type: "Alpha".into() }],
        connections: vec![conn("a", "p", "b", "q"), conn("a", "p", "a", "r")],
    };
    let xml = generate_ssd_xml(&st);
    let expected = [
        "<?xml version=\"1.0\" encoding=\"UTF-8\"?>",
        "<ssd:SystemStructureDescription version=\"1.0\" name=\"system\"",
        "    xmlns:ssd=\"http://ssp-standard.org/SSP1/SystemStructureDescription\">",
        "  <ssd:System name=\"root\">",
        "    <ssd:Elements>",
        "      <ssd:Component name=\"a\" source=\"resources/alpha.fmu\">",
        "        <ssd:Connectors>",
        "          <ssd:Connector name=\"p\" kind=\"output\"/>",
        "          <ssd:Connector name=\"r\" kind=\"input\"/>",
        "        </ssd:Connectors>",
        "      </ssd:Component>",
        "    </ssd:Elements>",
        "    <ssd:Connections>",
        "      <ssd:Connection startElement=\"a\" startConnector=\"p\" endElement=\"b\" endConnector=\"q\"/>",
        "      <ssd:Connection startElement=\"a\" startConnector=\"p\" endElement=\"a\" endConnector=\"r\"/>",
        "    </ssd:Connections>",
        "  </ssd:System>",
        "</ssd:SystemStructureDescription>",
    ]
    .join("\n");
    assert_eq!(xml, expected);
}
