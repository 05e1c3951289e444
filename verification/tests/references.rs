use sysml_core::checks::{all_checks, Check};
use sysml_core::checks::references::{find_closest_match, levenshtein};

#[test]
fn levenshtein_identical() {
    assert_eq!(levenshtein("abc", "abc"), 0);
}

#[test]
fn levenshtein_one_insert() {
    assert_eq!(levenshtein("abc", "abcd"), 1);
}

#[test]
fn levenshtein_one_delete() {
    assert_eq!(levenshtein("abcd", "abc"), 1);
}

#[test]
fn levenshtein_one_substitute() {
    assert_eq!(levenshtein("abc", "axc"), 1);
}

#[test]
fn levenshtein_empty() {
    assert_eq!(levenshtein("", "abc"), 3);
    assert_eq!(levenshtein("abc", ""), 3);
    assert_eq!(levenshtein("", ""), 0);
}

#[test]
fn levenshtein_completely_different() {
    assert_eq!(levenshtein("abc", "xyz"), 3);
}

#[test]
fn closest_match_finds_typo() {
    let candidates = vec!["Vehicle", "Engine", "Wheel", "Transmission"];
    let result = find_closest_match("Vehicl", &candidates);
    assert_eq!(result, Some("Vehicle"));
}

#[test]
fn closest_match_case_sensitive() {
    let candidates = vec!["Vehicle", "Engine"];
    // "vehicle" differs by 1 char from "Vehicle" (case)
    let result = find_closest_match("vehicle", &candidates);
    assert_eq!(result, Some("Vehicle"));
}

#[test]
fn closest_match_no_match_when_too_different() {
    let candidates = vec!["Vehicle", "Engine"];
    let result = find_closest_match("Completely", &candidates);
    assert_eq!(result, None);
}

#[test]
fn closest_match_exact_not_returned() {
    // Exact matches have distance 0 and should not be returned
    let candidates = vec!["Vehicle", "Engine"];
    let result = find_closest_match("Vehicle", &candidates);
    assert_eq!(result, None);
}

#[test]
fn closest_match_picks_closest() {
    let candidates = vec!["Engines", "Engine", "Engin"];
    let result = find_closest_match("Engne", &candidates);
    assert_eq!(result, Some("Engine"));
}


#[test]
fn all_checks_in_order() {
    let names: Vec<&str> = all_checks().iter().map(|c| c.name()).collect();
    assert_eq!(names, vec!["unused", "unresolved", "unsatisfied", "unverified", "constraints", "calculations"]);
}

#[test]
fn closest_match_limit_is_three_edits_and_half_the_name() {
    assert_eq!(find_closest_match("abcdefgh", &["abcdwxyz"]), None);
    assert_eq!(find_closest_match("abcdefgh", &["abcdexyz"]), Some("abcdexyz"));
    assert_eq!(find_closest_match("abcd", &["abxy"]), Some("abxy"));
    assert_eq!(find_closest_match("abcd", &["axyz"]), None);
    assert_eq!(find_closest_match("a", &["b"]), None);
}
