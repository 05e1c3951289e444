use sysml_core::model::{Multiplicity, Span, Usage};
use sysml_core::sim::rollup::{parse_u32_exec, quantity_from_multiplicity};
use sysml_core::sim::rollup::AggregationMethod;

#[test]
fn aggregation_method_names() {
    assert_eq!(AggregationMethod::from_str("SUM"), Some(AggregationMethod::Sum));
    assert_eq!(AggregationMethod::from_str("prod"), Some(AggregationMethod::Product));
    assert_eq!(AggregationMethod::from_str("Rss"), Some(AggregationMethod::Rss));
    assert_eq!(AggregationMethod::from_str("median"), None);
    for m in [
        AggregationMethod::Sum,
        AggregationMethod::Rss,
        AggregationMethod::Product,
        AggregationMethod::Min,
        AggregationMethod::Max,
    ] {
        assert_eq!(AggregationMethod::from_str(m.label()), Some(m));
    }
}

#[test]
fn quantities_from_multiplicity() {
    let usage = |lower: Option<&str>, upper: Option<&str>, has: bool| Usage {
        kind: "part".into(),
        name: "w".into(),
        type_ref: None,
        span: Span::default(),
        direction: None,
        is_conjugated: false,
        parent_def: None,
        multiplicity: if has {
            Some(Multiplicity {
                lower: lower.map(|s| s.to_string()),
                upper: upper.map(|s| s.to_string()),
                is_ordered: false,
                is_nonunique: false,
            })
        } else {
            None
        },
        value_expr: None,
        short_name: None,
        redefinition: None,
        subsets: None,
        qualified_name: None,
    };
    assert_eq!(quantity_from_multiplicity(&usage(None, None, false)), 1);
    assert_eq!(quantity_from_multiplicity(&usage(Some("4"), None, true)), 4);
    assert_eq!(quantity_from_multiplicity(&usage(None, Some("6"), true)), 6);
    assert_eq!(quantity_from_multiplicity(&usage(Some("2"), Some("*"), true)), 2);
    assert_eq!(quantity_from_multiplicity(&usage(Some("n"), Some("8"), true)), 1);
    assert_eq!(quantity_from_multiplicity(&usage(None, Some("*"), true)), 1);
    assert_eq!(parse_u32_exec("+12"), Some(12));
    assert_eq!(parse_u32_exec("4294967295"), Some(u32::MAX));
    assert_eq!(parse_u32_exec("4294967296"), None);
    assert_eq!(parse_u32_exec("+"), None);
    assert_eq!(parse_u32_exec("-1"), None);
    assert_eq!(parse_u32_exec(""), None);
    assert_eq!(parse_u32_exec("1 2"), None);
}
