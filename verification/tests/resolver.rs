use sysml_core::model::{DefKind, Definition, Import, Model, Span};
use sysml_core::resolver::Project;

fn def(kind: DefKind, name: &str) -> Definition {
    Definition {
        kind,
        name: name.into(),
        super_type: None,
        span: Span::default(),
        has_body: true,
        param_count: 0,
        has_constraint_expr: false,
        has_return: false,
        visibility: None,
        short_name: None,
        doc: None,
        is_abstract: false,
        enum_members: Vec::new(),
        parent_def: None,
        body_start_byte: None,
        body_end_byte: None,
        qualified_name: None,
    }
}

fn import(path: &str, wildcard: bool) -> Import {
    Import { path: path.into(), is_wildcard: wildcard, is_recursive: false, span: Span::default() }
}

fn project() -> Project {
    let mut a = Model::new("models/vehicles.sysml".to_string());
    a.definitions.push(def(DefKind::Package, "Vehicles"));
    a.definitions.push(def(DefKind::Part, "Car"));
    a.definitions.push(def(DefKind::Part, "Truck"));
    let mut b = Model::new("lib/engines.sysml".to_string());
    b.definitions.push(def(DefKind::Part, "Engine"));
    b.definitions.push(def(DefKind::Part, "Car"));
    Project::from_models(vec![a, b])
}

#[test]
fn wildcard_import_brings_package_definitions() {
    let p = project();
    let mut user = Model::new("user.sysml".to_string());
    user.imports.push(import("Vehicles", true));
    assert_eq!(p.resolve_imports(&user), vec!["Car".to_string(), "Truck".to_string()]);
}

#[test]
fn wildcard_import_matches_package_prefix() {
    let p = project();
    let mut user = Model::new("user.sysml".to_string());
    user.imports.push(import("Veh", true));
    assert_eq!(p.resolve_imports(&user), vec!["Car".to_string(), "Truck".to_string()]);
}

#[test]
fn file_stem_is_an_implicit_namespace() {
    let p = project();
    let mut user = Model::new("user.sysml".to_string());
    user.imports.push(import("engines", true));
    assert_eq!(p.resolve_imports(&user), vec!["Engine".to_string(), "Car".to_string()]);
    let mut recursive = Model::new("user.sysml".to_string());
    recursive.imports.push(Import { path: "vehicles".into(), is_wildcard: false, is_recursive: true, span: Span::default() });
    assert_eq!(
        p.resolve_imports(&recursive),
        vec!["Vehicles".to_string(), "Car".to_string(), "Truck".to_string()]
    );
}

#[test]
fn plain_import_gives_last_name_and_path() {
    let p = project();
    let mut user = Model::new("user.sysml".to_string());
    user.imports.push(import("Vehicles::Car", false));
    user.imports.push(import("Plain", false));
    user.imports.push(import("a:::b", false));
    assert_eq!(
        p.resolve_imports(&user),
        vec![
            "Car".to_string(),
            "Vehicles::Car".to_string(),
            "Plain".to_string(),
            "Plain".to_string(),
            ":b".to_string(),
            "a:::b".to_string(),
        ]
    );
}

#[test]
fn unknown_package_resolves_nothing() {
    let p = project();
    let mut user = Model::new("user.sysml".to_string());
    user.imports.push(import("Nowhere", true));
    assert!(p.resolve_imports(&user).is_empty());
}

#[test]
fn all_defined_names_are_distinct() {
    let p = project();
    let names = p.all_defined_names();
    assert_eq!(
        names,
        vec!["Vehicles".to_string(), "Car".to_string(), "Truck".to_string(), "Engine".to_string()]
    );
    assert_eq!(p.models.len(), 2);
}
