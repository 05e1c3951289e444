use sysml_core::record::{push_kv_string, push_kv_string_array, RecordError};
use sysml_core::record_toml::{parse_toml_tables, parse_value, read_line, TomlLine, TomlValue};

const META: &str = "\
[meta]
id = \"x\"
tool = \"t\"
record_type = \"r\"
created = \"2026-01-01T00:00:00Z\"
author = \"a\"
";

fn entry<'a>(t: &'a [(String, TomlValue)], key: &str) -> Option<&'a TomlValue> {
    t.iter().find(|(k, _)| k == key).map(|(_, v)| v)
}

fn table<'a>(t: &'a [(String, TomlValue)], key: &str) -> &'a [(String, TomlValue)] {
    match entry(t, key) {
        Some(TomlValue::Table(inner)) => inner,
        other => panic!("expected table under {key}, got {other:?}"),
    }
}

fn text(v: Option<&TomlValue>) -> &str {
    match v {
        Some(TomlValue::Str(s)) => s,
        other => panic!("expected string, got {other:?}"),
    }
}

fn integer(v: Option<&TomlValue>) -> i64 {
    match v {
        Some(TomlValue::Int(n)) => *n,
        other => panic!("expected integer, got {other:?}"),
    }
}

fn parse_error(r: Result<Vec<(String, TomlValue)>, RecordError>) -> String {
    match r {
        Err(RecordError::ParseError(m)) => m,
        other => panic!("expected a parse error, got {other:?}"),
    }
}

fn chars(s: &str) -> Vec<char> {
    s.chars().collect()
}

#[test]
fn parse_inline_table_in_data() {
    let toml = format!("{META}\n[refs]\n\n[data]\ninfo = {{alpha = 1, beta = \"two\"}}\n");
    let root = parse_toml_tables(&toml).unwrap();
    let info = table(table(&root, "data"), "info");
    assert_eq!(integer(entry(info, "alpha")), 1);
    assert_eq!(text(entry(info, "beta")), "two");
}

#[test]
fn parse_sub_table_header_in_data() {
    let toml = format!("{META}\n[refs]\n\n[data]\ntop = 1\n\n[data.nested]\ninner = \"hello\"\n");
    let root = parse_toml_tables(&toml).unwrap();
    let data = table(&root, "data");
    assert_eq!(integer(entry(data, "top")), 1);
    assert_eq!(text(entry(table(data, "nested"), "inner")), "hello");
}

#[test]
fn parse_booleans_and_floats() {
    let toml = format!("{META}\n[refs]\n\n[data]\nflag = true\nneg_flag = false\nratio = 0.5\nbig = 100\n");
    let root = parse_toml_tables(&toml).unwrap();
    let data = table(&root, "data");
    assert!(matches!(entry(data, "flag"), Some(TomlValue::Bool(true))));
    assert!(matches!(entry(data, "neg_flag"), Some(TomlValue::Bool(false))));
    match entry(data, "ratio") {
        Some(TomlValue::Float(lit)) => {
            assert_eq!(lit, "0.5");
            assert_eq!(lit.parse::<f64>().unwrap(), 0.5);
        }
        other => panic!("expected float, got {other:?}"),
    }
    assert_eq!(integer(entry(data, "big")), 100);
}

#[test]
fn parse_nested_arrays() {
    let toml = format!("{META}\n[refs]\nsources = [\"A::B\", \"C::D\"]\n\n[data]\nnumbers = [1, 2, 3]\n");
    let root = parse_toml_tables(&toml).unwrap();
    match entry(table(&root, "refs"), "sources") {
        Some(TomlValue::Array(items)) => {
            assert_eq!(items.len(), 2);
            assert_eq!(text(items.get(0)), "A::B");
            assert_eq!(text(items.get(1)), "C::D");
        }
        other => panic!("expected array, got {other:?}"),
    }
    match entry(table(&root, "data"), "numbers") {
        Some(TomlValue::Array(items)) => {
            let ns: Vec<i64> = items.iter().map(|v| integer(Some(v))).collect();
            assert_eq!(ns, vec![1, 2, 3]);
        }
        other => panic!("expected array, got {other:?}"),
    }
}

#[test]
fn parse_with_comments() {
    let toml = "\
# This is a record file
[meta]
id = \"x\" # inline comment
tool = \"t\"
record_type = \"r\"
created = \"2026-01-01T00:00:00Z\"
author = \"a\"

[refs]
# no refs yet

[data]
value = 42 # the answer
";
    let root = parse_toml_tables(toml).unwrap();
    assert_eq!(text(entry(table(&root, "meta"), "id")), "x");
    assert_eq!(integer(entry(table(&root, "data"), "value")), 42);
}

#[test]
fn record_parse_empty_array() {
    let toml = format!("{META}\n[refs]\nempty = []\n\n[data]\nitems = []\n");
    let root = parse_toml_tables(&toml).unwrap();
    assert!(matches!(entry(table(&root, "refs"), "empty"), Some(TomlValue::Array(v)) if v.is_empty()));
    assert!(matches!(entry(table(&root, "data"), "items"), Some(TomlValue::Array(v)) if v.is_empty()));
}

#[test]
fn parse_negative_integer() {
    let toml = format!("{META}\n[refs]\n\n[data]\noffset = -10\n");
    let root = parse_toml_tables(&toml).unwrap();
    assert_eq!(integer(entry(table(&root, "data"), "offset")), -10);
}

#[test]
fn parse_error_bad_syntax() {
    let toml = "[meta]\nthis is not valid toml\n";
    let m = parse_error(parse_toml_tables(toml));
    assert_eq!(m, "unrecognized syntax at line 2: this is not valid toml");
}

#[test]
fn parse_error_unterminated_string() {
    let toml = "\
[meta]
id = \"unterminated
";
    assert!(matches!(parse_toml_tables(toml), Err(RecordError::ParseError(_))));
}

#[test]
fn headers_keep_first_appearance_order() {
    let root = parse_toml_tables("[b]\nx = 1\n[a]\n[b.c]\ny = 2\n").unwrap();
    let keys: Vec<&str> = root.iter().map(|(k, _)| k.as_str()).collect();
    assert_eq!(keys, vec!["b", "a"]);
    let b = table(&root, "b");
    assert_eq!(integer(entry(b, "x")), 1);
    assert_eq!(integer(entry(table(b, "c"), "y")), 2);
}

#[test]
fn assignment_replaces_earlier_value_in_place() {
    let root = parse_toml_tables("x = 1\ny = 2\nx = 3\n").unwrap();
    let keys: Vec<&str> = root.iter().map(|(k, _)| k.as_str()).collect();
    assert_eq!(keys, vec!["x", "y"]);
    assert_eq!(integer(entry(&root, "x")), 3);
}

#[test]
fn assignment_under_a_value_has_no_table() {
    let m = parse_error(parse_toml_tables("[a]\nx = 1\n[a.x]\ny = 2\n"));
    assert_eq!(m, "cannot find table for path [\"a\", \"x\"] at line 4");
}

#[test]
fn empty_table_header_is_an_error() {
    let m = parse_error(parse_toml_tables("\n[ ]\n"));
    assert_eq!(m, "empty table header at line 2");
}

#[test]
fn first_error_wins() {
    let m = parse_error(parse_toml_tables("[a]\nx = 1\n[a.x]\ny = 2\nbad line\n"));
    assert_eq!(m, "cannot find table for path [\"a\", \"x\"] at line 4");
    let m = parse_error(parse_toml_tables("bad line\n[a]\nx = 1\n[a.x]\ny = 2\n"));
    assert_eq!(m, "unrecognized syntax at line 1: bad line");
}

#[test]
fn read_line_kinds() {
    assert!(matches!(read_line(&chars("   # only a comment"), 0), Ok(None)));
    match read_line(&chars(" [ data . sub ] # c"), 0) {
        Ok(Some(TomlLine::Header(p))) => assert_eq!(p, vec!["data".to_string(), "sub".to_string()]),
        other => panic!("expected header, got {other:?}"),
    }
    match read_line(&chars("note = \"a # not a comment\""), 0) {
        Ok(Some(TomlLine::Assign(k, TomlValue::Str(s)))) => {
            assert_eq!(k, "note");
            assert_eq!(s, "a # not a comment");
        }
        other => panic!("expected assignment, got {other:?}"),
    }
}

#[test]
fn value_errors_name_their_line() {
    let cases = [
        ("", "empty value at line 8"),
        ("[1, 2", "malformed array at line 8"),
        ("{a = 1", "malformed inline table at line 8"),
        ("{a}", "missing '=' in inline table entry 'a' at line 8"),
        ("nope", "cannot parse value 'nope' at line 8"),
    ];
    for (input, message) in cases {
        match parse_value(&chars(input), 7) {
            Err(RecordError::ParseError(m)) => assert_eq!(m, message),
            other => panic!("expected an error for {input:?}, got {other:?}"),
        }
    }
}

#[test]
fn values_of_each_kind() {
    assert!(matches!(parse_value(&chars("-9223372036854775808"), 0), Ok(TomlValue::Int(i64::MIN))));
    assert!(matches!(parse_value(&chars("+7"), 0), Ok(TomlValue::Int(7))));
    match parse_value(&chars("1e3"), 0) {
        Ok(TomlValue::Float(lit)) => assert_eq!(lit, "1e3"),
        other => panic!("expected float, got {other:?}"),
    }
    match parse_value(&chars("{k = [1, {m = \"v\"}], k = 2}"), 0) {
        Ok(TomlValue::Table(es)) => {
            assert_eq!(es.len(), 1);
            assert_eq!(integer(entry(&es, "k")), 2);
        }
        other => panic!("expected table, got {other:?}"),
    }
}

#[test]
fn written_string_lines_read_back() {
    let value = "line1\nline2\ttab \"quoted\" \\back # not a comment = still text";
    let mut out = String::from("[meta]\n");
    push_kv_string(&mut out, "note", value);
    push_kv_string(&mut out, "author", "");
    let root = parse_toml_tables(&out).unwrap();
    let meta = table(&root, "meta");
    assert_eq!(text(entry(meta, "note")), value);
    assert_eq!(text(entry(meta, "author")), "");
    let line: Vec<char> = out.lines().nth(1).unwrap().chars().collect();
    match read_line(&line, 1) {
        Ok(Some(TomlLine::Assign(k, TomlValue::Str(v)))) => {
            assert_eq!(k, "note");
            assert_eq!(v, value);
        }
        other => panic!("expected assignment, got {other:?}"),
    }
}

#[test]
fn written_array_lines_read_back() {
    let items = vec!["A::B".to_string(), "say \"hi\", then # go".to_string(), String::new()];
    let mut out = String::from("[refs]\n");
    push_kv_string_array(&mut out, "sources", &items);
    push_kv_string_array(&mut out, "empty", &Vec::new());
    let root = parse_toml_tables(&out).unwrap();
    let refs = table(&root, "refs");
    match entry(refs, "sources") {
        Some(TomlValue::Array(vs)) => {
            let texts: Vec<&str> = vs.iter().map(|v| text(Some(v))).collect();
            assert_eq!(texts, vec!["A::B", "say \"hi\", then # go", ""]);
        }
        other => panic!("expected array, got {other:?}"),
    }
    assert!(matches!(entry(refs, "empty"), Some(TomlValue::Array(v)) if v.is_empty()));
}

#[test]
fn written_section_reads_back_exactly() {
    let mut out = String::from("[meta]\n");
    let pairs = [("id", "lint-check-20260309-alice-ab12"), ("tool", "lint"), ("record_type", "check"), ("created", "2026-03-09T14:30:00Z"), ("author", "alice \"al\" \\ smith")];
    for (k, v) in pairs {
        push_kv_string(&mut out, k, v);
    }
    let root = parse_toml_tables(&out).unwrap();
    assert_eq!(root.len(), 1);
    assert_eq!(root[0].0, "meta");
    let meta = table(&root, "meta");
    let keys: Vec<&str> = meta.iter().map(|(k, _)| k.as_str()).collect();
    assert_eq!(keys, vec!["id", "tool", "record_type", "created", "author"]);
    for (k, v) in pairs {
        assert_eq!(text(entry(meta, k)), v);
    }
}
