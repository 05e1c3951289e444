use std::collections::HashSet;
use sysml_core::qualified_name::{QualifiedName, QualifiedNameError};

// ------------------------------------------------------------------ //
//  Construction
// ------------------------------------------------------------------ //

#[test]
fn new_single_segment() {
    let qn = QualifiedName::new(vec!["Element".into()]);
    assert_eq!(qn.segments(), &["Element"]);
}

#[test]
fn new_multiple_segments() {
    let qn = QualifiedName::new(vec!["A".into(), "B".into(), "C".into()]);
    assert_eq!(qn.segments(), &["A", "B", "C"]);
}

#[test]
fn from_segments_str_refs() {
    let qn = QualifiedName::from_segments(&["X", "Y"]);
    assert_eq!(qn.to_string(), "X::Y");
}

#[test]
fn from_segments_strings() {
    let qn = {
        let owned = vec!["A".to_string(), "B".to_string()];
        let refs: Vec<&str> = owned.iter().map(|s| s.as_str()).collect();
        QualifiedName::from_segments(&refs)
    };
    assert_eq!(qn.to_string(), "A::B");
}

#[test]
fn parse_simple() {
    let qn = QualifiedName::parse("Vehicle::Chassis::Wheel");
    assert_eq!(qn.segments(), &["Vehicle", "Chassis", "Wheel"]);
}

#[test]
fn parse_single() {
    let qn = QualifiedName::parse("Root");
    assert_eq!(qn.segments(), &["Root"]);
}

#[test]
fn parse_trims_whitespace() {
    let qn = QualifiedName::parse(" A :: B :: C ");
    assert_eq!(qn.segments(), &["A", "B", "C"]);
}

#[test]
fn parse_ignores_empty_segments() {
    let qn = QualifiedName::parse("A::::B");
    assert_eq!(qn.segments(), &["A", "B"]);
}

#[test]
fn parse_leading_separator() {
    let qn = QualifiedName::parse("::A::B");
    assert_eq!(qn.segments(), &["A", "B"]);
}

#[test]
fn from_str_ok() {
    let qn: QualifiedName = "Pkg::Elem".parse().unwrap();
    assert_eq!(qn.segments(), &["Pkg", "Elem"]);
}

#[test]
fn from_str_empty_err() {
    let result: Result<QualifiedName, _> = "".parse();
    assert_eq!(result.unwrap_err(), QualifiedNameError::Empty);
}

#[test]
fn from_str_only_separators_err() {
    let result: Result<QualifiedName, _> = "::::".parse();
    assert_eq!(result.unwrap_err(), QualifiedNameError::Empty);
}

// ------------------------------------------------------------------ //
//  Accessors
// ------------------------------------------------------------------ //

#[test]
fn depth() {
    assert_eq!(QualifiedName::parse("A").depth(), 1);
    assert_eq!(QualifiedName::parse("A::B::C").depth(), 3);
}

#[test]
fn leaf() {
    assert_eq!(QualifiedName::parse("A::B::C").leaf(), Some("C"));
    assert_eq!(QualifiedName::parse("Root").leaf(), Some("Root"));
}

#[test]
fn parent_exists() {
    let qn = QualifiedName::parse("A::B::C");
    let parent = qn.parent().unwrap();
    assert_eq!(parent.to_string(), "A::B");
}

#[test]
fn parent_of_single_is_none() {
    assert!(QualifiedName::parse("Root").parent().is_none());
}

#[test]
fn parent_chain() {
    let qn = QualifiedName::parse("A::B::C");
    let p1 = qn.parent().unwrap();
    assert_eq!(p1.to_string(), "A::B");
    let p2 = p1.parent().unwrap();
    assert_eq!(p2.to_string(), "A");
    assert!(p2.parent().is_none());
}

// ------------------------------------------------------------------ //
//  is_child_of
// ------------------------------------------------------------------ //

#[test]
fn is_child_of_direct_parent() {
    let child = QualifiedName::parse("A::B::C");
    let parent = QualifiedName::parse("A::B");
    assert!(child.is_child_of(&parent));
}

#[test]
fn is_child_of_transitive_ancestor() {
    let child = QualifiedName::parse("A::B::C::D");
    let ancestor = QualifiedName::parse("A");
    assert!(child.is_child_of(&ancestor));
}

#[test]
fn is_not_child_of_self() {
    let qn = QualifiedName::parse("A::B");
    assert!(!qn.is_child_of(&qn));
}

#[test]
fn is_not_child_of_unrelated() {
    let a = QualifiedName::parse("A::B");
    let b = QualifiedName::parse("X::Y");
    assert!(!a.is_child_of(&b));
}

#[test]
fn is_not_child_of_longer() {
    let short = QualifiedName::parse("A");
    let long = QualifiedName::parse("A::B");
    assert!(!short.is_child_of(&long));
}

// ------------------------------------------------------------------ //
//  push / join
// ------------------------------------------------------------------ //

#[test]
fn push_segment() {
    let qn = QualifiedName::parse("A::B");
    let extended = qn.push("C");
    assert_eq!(extended.to_string(), "A::B::C");
    // Original unchanged.
    assert_eq!(qn.to_string(), "A::B");
}

#[test]
fn join_two() {
    let a = QualifiedName::parse("A::B");
    let b = QualifiedName::parse("C::D");
    let joined = a.join(&b);
    assert_eq!(joined.to_string(), "A::B::C::D");
}

// ------------------------------------------------------------------ //
//  Display / to_path_safe
// ------------------------------------------------------------------ //

#[test]
fn display() {
    let qn = QualifiedName::parse("Vehicle::Chassis::Wheel");
    assert_eq!(qn.to_string(), "Vehicle::Chassis::Wheel");
}

#[test]
fn display_single() {
    let qn = QualifiedName::parse("Root");
    assert_eq!(qn.to_string(), "Root");
}

#[test]
fn to_path_safe() {
    let qn = QualifiedName::parse("A::B::C");
    assert_eq!(qn.to_path_safe(), "A__B__C");
}

#[test]
fn to_path_safe_single() {
    let qn = QualifiedName::parse("Root");
    assert_eq!(qn.to_path_safe(), "Root");
}

// ------------------------------------------------------------------ //
//  Trait impls: Hash, Eq, Ord
// ------------------------------------------------------------------ //

#[test]
fn equality() {
    let a = QualifiedName::parse("A::B");
    let b = QualifiedName::parse("A::B");
    assert_eq!(a, b);
}

#[test]
fn inequality() {
    let a = QualifiedName::parse("A::B");
    let b = QualifiedName::parse("A::C");
    assert_ne!(a, b);
}

#[test]
fn ordering() {
    let a = QualifiedName::parse("A::B");
    let b = QualifiedName::parse("A::C");
    let c = QualifiedName::parse("B::A");
    let mut v = vec![c.clone(), a.clone(), b.clone()];
    v.sort();
    assert_eq!(v, vec![a, b, c]);
}

#[test]
fn hash_consistency() {

    let a = QualifiedName::parse("X::Y");
    let b = QualifiedName::parse("X::Y");
    let mut set = HashSet::new();
    set.insert(a);
    set.insert(b);
    assert_eq!(set.len(), 1);
}

// ------------------------------------------------------------------ //
//  Serde round-trip
// ------------------------------------------------------------------ //

#[test]
fn wildcard_star_matches_direct_child() {
    let qn = QualifiedName::parse("Package::Element");
    assert!(qn.matches_wildcard("Package::*"));
}

#[test]
fn wildcard_star_does_not_match_deeper() {
    let qn = QualifiedName::parse("Package::Sub::Element");
    assert!(!qn.matches_wildcard("Package::*"));
}

#[test]
fn wildcard_star_does_not_match_prefix_itself() {
    let qn = QualifiedName::parse("Package");
    assert!(!qn.matches_wildcard("Package::*"));
}

#[test]
fn wildcard_globstar_matches_direct_child() {
    let qn = QualifiedName::parse("Package::Element");
    assert!(qn.matches_wildcard("Package::**"));
}

#[test]
fn wildcard_globstar_matches_deep_child() {
    let qn = QualifiedName::parse("Package::Sub::Deep::Element");
    assert!(qn.matches_wildcard("Package::**"));
}

#[test]
fn wildcard_globstar_does_not_match_prefix_itself() {
    let qn = QualifiedName::parse("Package");
    assert!(!qn.matches_wildcard("Package::**"));
}

#[test]
fn wildcard_exact_match() {
    let qn = QualifiedName::parse("A::B::C");
    assert!(qn.matches_wildcard("A::B::C"));
}

#[test]
fn wildcard_exact_no_match() {
    let qn = QualifiedName::parse("A::B::C");
    assert!(!qn.matches_wildcard("A::B::D"));
}

#[test]
fn wildcard_exact_different_depth() {
    let qn = QualifiedName::parse("A::B");
    assert!(!qn.matches_wildcard("A::B::C"));
}

#[test]
fn wildcard_empty_pattern() {
    let qn = QualifiedName::parse("A");
    assert!(!qn.matches_wildcard(""));
}

#[test]
fn wildcard_star_at_root() {
    let qn = QualifiedName::parse("TopLevel");
    assert!(qn.matches_wildcard("*"));
}

#[test]
fn wildcard_globstar_at_root() {
    let qn = QualifiedName::parse("Any::Depth::At::All");
    assert!(qn.matches_wildcard("**"));
}

#[test]
fn wildcard_globstar_at_root_single_segment() {
    let qn = QualifiedName::parse("Single");
    assert!(qn.matches_wildcard("**"));
}

#[test]
fn wildcard_star_wrong_prefix() {
    let qn = QualifiedName::parse("Other::Element");
    assert!(!qn.matches_wildcard("Package::*"));
}

#[test]
fn wildcard_pattern_with_whitespace() {
    let qn = QualifiedName::parse("A::B");
    assert!(qn.matches_wildcard(" A :: * "));
}

// ------------------------------------------------------------------ //
//  QualifiedNameError Display
// ------------------------------------------------------------------ //

#[test]
fn error_display() {
    let err = QualifiedNameError::Empty;
    assert_eq!(
        err.to_string(),
        "qualified name must have at least one segment"
    );
}


#[test]
fn printed_names_parse_back() {
    for text in ["Vehicle", "Pkg::Sub::Element", "a b::c"] {
        let q = QualifiedName::parse(text);
        assert_eq!(QualifiedName::parse(&q.to_string()), q);
    }
}
