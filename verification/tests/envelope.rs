use sysml_core::envelope::{envelope_head, EnvelopeFault};
use sysml_core::record_toml::parse_toml_tables;

const META: &str = "[meta]\nid = \"r1\"\ntool = \"t\"\nrecord_type = \"trace\"\ncreated = \"2026-03-09T14:30:00Z\"\nauthor = \"me\"\n";

fn head(text: &str) -> Result<(sysml_core::record::RecordMeta, Vec<(String, Vec<String>)>), EnvelopeFault> {
    envelope_head(&parse_toml_tables(text).unwrap())
}

#[test]
fn reads_meta_and_sorted_refs() {
    let text = format!("{META}\n[refs]\nzeta = [\"A::B\"]\nalpha = [\"C\", \"D\"]\nempty = []\n");
    let (meta, refs) = head(&text).unwrap();
    assert_eq!(meta.id, "r1");
    assert_eq!(meta.tool, "t");
    assert_eq!(meta.record_type, "trace");
    assert_eq!(meta.created, "2026-03-09T14:30:00Z");
    assert_eq!(meta.author, "me");
    assert_eq!(
        refs,
        vec![
            ("alpha".to_string(), vec!["C".to_string(), "D".to_string()]),
            ("empty".to_string(), vec![]),
            ("zeta".to_string(), vec!["A::B".to_string()]),
        ]
    );
}

#[test]
fn missing_sections_and_fields() {
    assert!(matches!(head("[refs]\n"), Err(EnvelopeFault::Missing(k)) if k == "meta"));
    assert!(matches!(head(META), Err(EnvelopeFault::Missing(k)) if k == "refs"));
    let no_author = "[meta]\nid = \"r1\"\ntool = \"t\"\nrecord_type = \"trace\"\ncreated = \"c\"\n[refs]\n";
    assert!(matches!(head(no_author), Err(EnvelopeFault::Missing(k)) if k == "author"));
}

#[test]
fn meta_field_must_be_a_string() {
    let text = "[meta]\nid = 5\ntool = 7\n[refs]\n";
    assert!(matches!(head(text), Err(EnvelopeFault::NotString(k)) if k == "id"));
}

#[test]
fn least_faulty_refs_key_is_reported() {
    let text = format!("{META}\n[refs]\nzz = 3\nbb = [\"x\", 4]\nok = [\"y\"]\n");
    assert!(matches!(head(&text), Err(EnvelopeFault::NotStringItem(k, 1)) if k == "bb"));
    let text = format!("{META}\n[refs]\nzz = [1]\nbb = true\n");
    assert!(matches!(head(&text), Err(EnvelopeFault::NotArray(k)) if k == "bb"));
}
