use std::path::PathBuf;
use sysml_core::config::{
    parse_string_array, strip_comment, ConfigError, DefaultsSection, ProjectConfig, ProjectSection,
};

#[test]
fn default_config_has_sensible_values() {
    let cfg = ProjectConfig::default();
    assert_eq!(cfg.project.name, "");
    assert_eq!(PathBuf::from(&cfg.project.model_root), PathBuf::from("."));
    assert!(cfg.project.library_paths.is_empty());
    assert_eq!(cfg.defaults.author, "");
    assert_eq!(PathBuf::from(&cfg.defaults.output_dir), PathBuf::from("records/"));
    assert_eq!(cfg.defaults.format, "text");
}

#[test]
fn parse_full_config() {
    let toml = r#"
[project]
name = "BrakeSystem"
model_root = "model/"
library_paths = ["libraries/"]

[defaults]
author = "Alice"
output_dir = "records/"
format = "text"
"#;
    let cfg = ProjectConfig::from_toml_str(toml).unwrap();
    assert_eq!(cfg.project.name, "BrakeSystem");
    assert_eq!(PathBuf::from(&cfg.project.model_root), PathBuf::from("model/"));
    assert_eq!(cfg.project.library_paths.iter().map(PathBuf::from).collect::<Vec<_>>(), vec![PathBuf::from("libraries/")]);
    assert_eq!(cfg.defaults.author, "Alice");
    assert_eq!(PathBuf::from(&cfg.defaults.output_dir), PathBuf::from("records/"));
    assert_eq!(cfg.defaults.format, "text");
}

#[test]
fn parse_minimal_config() {
    let toml = "[project]\nname = \"Foo\"\n";
    let cfg = ProjectConfig::from_toml_str(toml).unwrap();
    assert_eq!(cfg.project.name, "Foo");
    // Defaults should fill in
    assert_eq!(PathBuf::from(&cfg.project.model_root), PathBuf::from("."));
    assert_eq!(cfg.defaults.format, "text");
}

#[test]
fn parse_empty_config() {
    // Completely empty string is valid — all defaults apply
    let cfg = ProjectConfig::from_toml_str("").unwrap();
    assert_eq!(cfg, ProjectConfig::default());
}

#[test]
fn parse_comments_and_blank_lines() {
    let toml = r#"
# Project configuration
[project]
name = "Test"  # inline comment

# Another comment
[defaults]
format = "json"
"#;
    let cfg = ProjectConfig::from_toml_str(toml).unwrap();
    assert_eq!(cfg.project.name, "Test");
    assert_eq!(cfg.defaults.format, "json");
}

#[test]
fn parse_multiple_library_paths() {
    let toml = r#"
[project]
name = "Multi"
library_paths = ["libs/", "vendor/models/", "third_party/"]
"#;
    let cfg = ProjectConfig::from_toml_str(toml).unwrap();
    assert_eq!(
        cfg.project.library_paths.iter().map(PathBuf::from).collect::<Vec<_>>(),
        vec![
            PathBuf::from("libs/"),
            PathBuf::from("vendor/models/"),
            PathBuf::from("third_party/"),
        ]
    );
}

#[test]
fn config_parse_empty_array() {
    let toml = "[project]\nlibrary_paths = []\n";
    let cfg = ProjectConfig::from_toml_str(toml).unwrap();
    assert!(cfg.project.library_paths.is_empty());
}

#[test]
fn parse_escaped_strings() {
    let toml = r#"
[project]
name = "Brake\"System"
"#;
    let cfg = ProjectConfig::from_toml_str(toml).unwrap();
    assert_eq!(cfg.project.name, "Brake\"System");
}

#[test]
fn error_unknown_section() {
    let toml = "[unknown]\nfoo = \"bar\"\n";
    let err = ProjectConfig::from_toml_str(toml).unwrap_err();
    assert!(err.to_string().contains("unknown section"));
}

#[test]
fn error_unknown_key() {
    let toml = "[project]\nbogus = \"value\"\n";
    let err = ProjectConfig::from_toml_str(toml).unwrap_err();
    assert!(err.to_string().contains("unknown key"));
}

#[test]
fn error_key_before_section() {
    let toml = "name = \"oops\"\n";
    let err = ProjectConfig::from_toml_str(toml).unwrap_err();
    assert!(err.to_string().contains("before any section"));
}

#[test]
fn error_unclosed_section() {
    let toml = "[project\nname = \"x\"\n";
    let err = ProjectConfig::from_toml_str(toml).unwrap_err();
    assert!(err.to_string().contains("unclosed section"));
}

#[test]
fn error_unquoted_value() {
    let toml = "[project]\nname = bare\n";
    let err = ProjectConfig::from_toml_str(toml).unwrap_err();
    assert!(err.to_string().contains("expected quoted string"));
}

#[test]
fn roundtrip_to_toml_string() {
    let cfg = ProjectConfig {
        project: ProjectSection {
            name: "RoundTrip".to_string(),
            model_root: "src/model/".to_string(),
            library_paths: vec!["libs/".to_string(), "ext/".to_string()],
        },
        defaults: DefaultsSection {
            author: "Bob".to_string(),
            output_dir: "out/".to_string(),
            format: "json".to_string(),
        },
    };

    let toml_str = cfg.to_toml_string();
    let parsed = ProjectConfig::from_toml_str(&toml_str).unwrap();
    assert_eq!(cfg, parsed);
}

#[test]
fn to_toml_string_format() {
    let cfg = ProjectConfig::default();
    let s = cfg.to_toml_string();
    assert!(s.contains("[project]"));
    assert!(s.contains("[defaults]"));
    assert!(s.contains("model_root = \".\""));
    assert!(s.contains("format = \"text\""));
}

#[test]
fn config_error_display() {
    let io_err = ConfigError::Io(std::io::Error::new(
        std::io::ErrorKind::NotFound,
        "not found",
    ));
    assert!(io_err.to_string().contains("I/O error"));

    let parse_err = ConfigError::Parse("bad input".to_string());
    assert!(parse_err.to_string().contains("bad input"));
}

#[test]
fn config_error_source() {
    let io_err = ConfigError::Io(std::io::Error::new(
        std::io::ErrorKind::NotFound,
        "not found",
    ));
    assert!(io_err.source().is_some());

    let parse_err = ConfigError::Parse("oops".to_string());
    assert!(parse_err.source().is_none());
}

#[test]
fn strip_comment_preserves_hashes_in_strings() {
    assert_eq!(strip_comment(r#"name = "a#b" # real comment"#), r#"name = "a#b" "#);
}

#[test]
fn parse_string_array_with_spaces() {
    let items = parse_string_array(r#"[ "a" , "b" , "c" ]"#).unwrap();
    assert_eq!(items, vec!["a", "b", "c"]);
}

