use sysml_core::codegen::edit::{
    apply_edits, diff, insert_member, insert_top_level, remove_element, rename_element, EditPlan,
    TextEdit,
};
use sysml_core::model::{DefKind, Definition, Model, Span, Usage};

fn def_at(name: &str, start: usize, end: usize, col: usize, body_end: Option<usize>) -> Definition {
    Definition {
        kind: DefKind::Part,
        name: name.into(),
        super_type: None,
        span: Span { start_row: 1, start_col: col, end_row: 1, end_col: 1, start_byte: start, end_byte: end },
        has_body: body_end.is_some(),
        param_count: 0,
        has_constraint_expr: false,
        has_return: false,
        visibility: None,
        short_name: None,
        doc: None,
        is_abstract: false,
        enum_members: Vec::new(),
        parent_def: None,
        body_start_byte: None,
        body_end_byte: body_end,
        qualified_name: None,
    }
}

#[test]
fn apply_simple_insertion() {
    let source = "hello world";
    let plan = EditPlan {
        edits: vec![TextEdit {
            start_byte: 5,
            end_byte: 5,
            new_text: " beautiful".to_string(),
        }],
    };
    let result = apply_edits(source, &plan).unwrap();
    assert_eq!(result, "hello beautiful world");
}

#[test]
fn apply_replacement() {
    let source = "part def Vehicle;";
    let plan = EditPlan {
        edits: vec![TextEdit {
            start_byte: 9,
            end_byte: 16,
            new_text: "Car".to_string(),
        }],
    };
    let result = apply_edits(source, &plan).unwrap();
    assert_eq!(result, "part def Car;");
}

#[test]
fn apply_multiple_edits() {
    let source = "part def A;\npart def B;";
    let plan = EditPlan {
        edits: vec![
            TextEdit {
                start_byte: 9,
                end_byte: 10,
                new_text: "Alpha".to_string(),
            },
            TextEdit {
                start_byte: 21,
                end_byte: 22,
                new_text: "Beta".to_string(),
            },
        ],
    };
    let result = apply_edits(source, &plan).unwrap();
    assert_eq!(result, "part def Alpha;\npart def Beta;");
}

#[test]
fn overlapping_edits_rejected() {
    let source = "part def Vehicle;";
    let plan = EditPlan {
        edits: vec![
            TextEdit { start_byte: 5, end_byte: 10, new_text: "x".to_string() },
            TextEdit { start_byte: 8, end_byte: 12, new_text: "y".to_string() },
        ],
    };
    assert!(apply_edits(source, &plan).is_err());
}

#[test]
fn overlap_and_bounds_messages() {
    let plan = EditPlan {
        edits: vec![
            TextEdit { start_byte: 5, end_byte: 10, new_text: "x".to_string() },
            TextEdit { start_byte: 8, end_byte: 12, new_text: "y".to_string() },
        ],
    };
    let err = apply_edits("part def Vehicle;", &plan).unwrap_err();
    assert_eq!(err.to_string(), "overlapping edits: [5, 10) and [8, 12)");
    let mut plan = EditPlan::new();
    plan.add(TextEdit { start_byte: 3, end_byte: 9, new_text: "z".to_string() });
    let err = apply_edits("abc", &plan).unwrap_err();
    assert_eq!(err.message, "edit out of bounds: [3, 9) in source of 3 bytes");
}

#[test]
fn apply_edits_multibyte_text() {
    let source = "é = 1";
    let mut plan = EditPlan::default();
    plan.add(TextEdit { start_byte: 0, end_byte: 2, new_text: "ß".to_string() });
    assert_eq!(apply_edits(source, &plan).unwrap(), "ß = 1");
}

#[test]
fn top_level_insertion() {
    let e = insert_top_level("part def A;\n", "part def B;");
    assert_eq!((e.start_byte, e.end_byte), (12, 12));
    assert_eq!(e.new_text, "\npart def B;\n");
    let e = insert_top_level("part def A;", "part def B;");
    assert_eq!(e.new_text, "\n\npart def B;\n");
}

#[test]
fn remove_element_takes_whole_lines() {
    let source = "part def Vehicle;\npart def Engine;\npart def Wheel;\n";
    let mut m = Model::new("t.sysml".to_string());
    m.definitions.push(def_at("Engine", 18 + 9, 18 + 15, 1, None));
    let e = remove_element(source, &m, "Engine").unwrap();
    assert_eq!((e.start_byte, e.end_byte), (18, 35));
    let plan = EditPlan { edits: vec![e] };
    assert_eq!(apply_edits(source, &plan).unwrap(), "part def Vehicle;\npart def Wheel;\n");
    let err = remove_element(source, &m, "Nope").unwrap_err();
    assert_eq!(err.message, "element `Nope` not found");
}

#[test]
fn remove_usage_when_no_definition() {
    let source = "part def V {\n    part engine : Engine;\n}\n";
    let mut m = Model::new("t.sysml".to_string());
    m.usages.push(Usage {
        kind: "part".into(),
        name: "engine".into(),
        type_ref: Some("Engine".into()),
        span: Span { start_row: 2, start_col: 5, end_row: 2, end_col: 26, start_byte: 17, end_byte: 38 },
        direction: None,
        is_conjugated: false,
        parent_def: Some("V".into()),
        multiplicity: None,
        value_expr: None,
        short_name: None,
        redefinition: None,
        subsets: None,
        qualified_name: None,
    });
    let e = remove_element(source, &m, "engine").unwrap();
    let out = apply_edits(source, &EditPlan { edits: vec![e] }).unwrap();
    assert_eq!(out, "part def V {\n}\n");
}

#[test]
fn rename_whole_words_only() {
    let source = "part def Vehicle {\n    part engine : Engine;\n}\npart def Engine;\npart def EngineX;\n";
    let m = Model::new("t.sysml".to_string());
    let plan = rename_element(source, &m, "Engine", "Motor").unwrap();
    assert_eq!(plan.edits.len(), 2);
    let result = apply_edits(source, &plan).unwrap();
    assert!(result.contains("part engine : Motor;"));
    assert!(result.contains("part def Motor;"));
    assert!(result.contains("part def EngineX;"));
    let err = rename_element(source, &m, "Nothing", "X").unwrap_err();
    assert_eq!(err.message, "no occurrences of `Nothing` found");
}

#[test]
fn insert_member_indents_inside_body() {
    let source = "part def Vehicle {\n    part engine : Engine;\n}\n";
    let mut m = Model::new("t.sysml".to_string());
    let close = source.rfind('}').unwrap();
    m.definitions.push(def_at("Vehicle", 0, source.len() - 1, 1, Some(close)));
    let edit = insert_member(source, &m, "Vehicle", "part wheels : Wheel;").unwrap();
    assert_eq!(edit.new_text, "    part wheels : Wheel;\n");
    let result = apply_edits(source, &EditPlan { edits: vec![edit] }).unwrap();
    assert_eq!(result, "part def Vehicle {\n    part engine : Engine;\n    part wheels : Wheel;\n}\n");
    let one_line = "part def V { }";
    let mut m2 = Model::new("t.sysml".to_string());
    m2.definitions.push(def_at("V", 0, 14, 5, Some(13)));
    let edit = insert_member(one_line, &m2, "V", "a;\n\nb;").unwrap();
    assert_eq!(edit.new_text, "\n        a;\n\n        b;\n");
    let err = insert_member(one_line, &m2, "W", "x;").unwrap_err();
    assert_eq!(err.message, "definition `W` not found");
    m2.definitions.push(def_at("W", 0, 1, 1, None));
    let err = insert_member(one_line, &m2, "W", "x;").unwrap_err();
    assert_eq!(err.message, "definition `W` has no body (no closing `}`)");
}

#[test]
fn insert_member_uses_tabs_when_source_does() {
    let source = "part def V {\n\tpart a : A;\n}\n";
    let mut m = Model::new("t.sysml".to_string());
    m.definitions.push(def_at("V", 0, 26, 1, Some(26)));
    let edit = insert_member(source, &m, "V", "part b : B;").unwrap();
    assert_eq!(edit.new_text, "\tpart b : B;\n");
}

#[test]
fn diff_reports_changed_lines() {
    let d = diff("a\nb\nc\n", "a\nB\nc\n", "f.sysml");
    assert_eq!(d, "--- a/f.sysml\n+++ b/f.sysml\n@@ -2,1 +2,1 @@\n-b\n+B\n");
    let d = diff("a\n", "a\nb\n", "x");
    assert_eq!(d, "--- a/x\n+++ b/x\n@@ -2,0 +2,1 @@\n+b\n");
    let same = diff("a\nb\n", "a\nb\n", "x");
    assert_eq!(same, "--- a/x\n+++ b/x\n");
}
