use sysml_core::cache::{Cache, CacheEdge, CacheNode, CacheRecord, CacheRefEdge, CacheStats};

fn sample_cache() -> Cache {
    let mut cache = Cache::new();

    cache.add_node(CacheNode {
        qualified_name: "Vehicle".into(),
        kind: "part def".into(),
        file: "vehicle.sysml".into(),
        line: 1,
        parent: None,
    });
    cache.add_node(CacheNode {
        qualified_name: "Vehicle::engine".into(),
        kind: "part".into(),
        file: "vehicle.sysml".into(),
        line: 5,
        parent: Some("Vehicle".into()),
    });
    cache.add_node(CacheNode {
        qualified_name: "Engine".into(),
        kind: "part def".into(),
        file: "vehicle.sysml".into(),
        line: 10,
        parent: None,
    });
    cache.add_node(CacheNode {
        qualified_name: "MassReq".into(),
        kind: "requirement def".into(),
        file: "reqs.sysml".into(),
        line: 1,
        parent: None,
    });

    cache.add_edge(CacheEdge {
        source: "Engine".into(),
        target: "PowerSource".into(),
        kind: "specializes".into(),
    });
    cache.add_edge(CacheEdge {
        source: "Vehicle".into(),
        target: "MassReq".into(),
        kind: "satisfies".into(),
    });

    cache.add_record(CacheRecord {
        id: "rev-001".into(),
        tool: "review".into(),
        record_type: "design-review".into(),
        created: "2025-01-15".into(),
        author: "alice".into(),
        file: "records/rev-001.toml".into(),
    });
    cache.add_record(CacheRecord {
        id: "dec-001".into(),
        tool: "decision".into(),
        record_type: "architecture-decision".into(),
        created: "2025-01-20".into(),
        author: "bob".into(),
        file: "records/dec-001.toml".into(),
    });

    cache.add_ref_edge(CacheRefEdge {
        record_id: "rev-001".into(),
        qualified_name: "Vehicle".into(),
        ref_kind: "reviews".into(),
    });
    cache.add_ref_edge(CacheRefEdge {
        record_id: "rev-001".into(),
        qualified_name: "Engine".into(),
        ref_kind: "reviews".into(),
    });
    cache.add_ref_edge(CacheRefEdge {
        record_id: "dec-001".into(),
        qualified_name: "Vehicle".into(),
        ref_kind: "decides".into(),
    });

    cache
}

#[test]
fn new_cache_is_empty() {
    let cache = Cache::new();
    assert_eq!(
        cache.stats(),
        CacheStats {
            nodes: 0,
            edges: 0,
            records: 0,
            ref_edges: 0,
        }
    );
}

#[test]
fn stats_reflect_inserted_data() {
    let cache = sample_cache();
    assert_eq!(
        cache.stats(),
        CacheStats {
            nodes: 4,
            edges: 2,
            records: 2,
            ref_edges: 3,
        }
    );
}

#[test]
fn find_node_by_qualified_name() {
    let cache = sample_cache();
    let node = cache.find_node("Vehicle::engine");
    assert!(node.is_some());
    let node = node.unwrap();
    assert_eq!(node.kind, "part");
    assert_eq!(node.parent.as_deref(), Some("Vehicle"));
}

#[test]
fn find_node_returns_none_for_missing() {
    let cache = sample_cache();
    assert!(cache.find_node("DoesNotExist").is_none());
}

#[test]
fn find_nodes_by_kind() {
    let cache = sample_cache();
    let part_defs = cache.find_nodes_by_kind("part def");
    assert_eq!(part_defs.len(), 2);
    let names: Vec<&str> = part_defs.iter().map(|n| n.qualified_name.as_str()).collect();
    assert!(names.contains(&"Vehicle"));
    assert!(names.contains(&"Engine"));
}

#[test]
fn find_edges_from_source() {
    let cache = sample_cache();
    let edges = cache.find_edges_from("Engine");
    assert_eq!(edges.len(), 1);
    assert_eq!(edges[0].target, "PowerSource");
    assert_eq!(edges[0].kind, "specializes");
}

#[test]
fn find_edges_to_target() {
    let cache = sample_cache();
    let edges = cache.find_edges_to("MassReq");
    assert_eq!(edges.len(), 1);
    assert_eq!(edges[0].source, "Vehicle");
}

#[test]
fn find_edges_empty_when_no_match() {
    let cache = sample_cache();
    assert!(cache.find_edges_from("NoSuchNode").is_empty());
    assert!(cache.find_edges_to("NoSuchNode").is_empty());
}

#[test]
fn find_records_by_tool() {
    let cache = sample_cache();
    let reviews = cache.find_records_by_tool("review");
    assert_eq!(reviews.len(), 1);
    assert_eq!(reviews[0].id, "rev-001");

    let decisions = cache.find_records_by_tool("decision");
    assert_eq!(decisions.len(), 1);
    assert_eq!(decisions[0].id, "dec-001");

    assert!(cache.find_records_by_tool("nonexistent").is_empty());
}

#[test]
fn find_refs_for_record() {
    let cache = sample_cache();
    let refs = cache.find_refs_for_record("rev-001");
    assert_eq!(refs.len(), 2);
    let names: Vec<&str> = refs.iter().map(|r| r.qualified_name.as_str()).collect();
    assert!(names.contains(&"Vehicle"));
    assert!(names.contains(&"Engine"));
}

#[test]
fn find_records_referencing_element() {
    let cache = sample_cache();

    // Vehicle is referenced by both rev-001 and dec-001
    let records = cache.find_records_referencing("Vehicle");
    assert_eq!(records.len(), 2);
    let ids: Vec<&str> = records.iter().map(|r| r.id.as_str()).collect();
    assert!(ids.contains(&"rev-001"));
    assert!(ids.contains(&"dec-001"));

    // Engine is referenced only by rev-001
    let records = cache.find_records_referencing("Engine");
    assert_eq!(records.len(), 1);
    assert_eq!(records[0].id, "rev-001");

    // MassReq is not referenced by any record
    assert!(cache.find_records_referencing("MassReq").is_empty());
}

#[test]
fn git_head_lifecycle() {
    let mut cache = Cache::new();

    // Initially no HEAD stored
    assert!(cache.git_head().is_none());
    assert!(cache.is_stale("abc123"));

    // Store a HEAD
    cache.set_git_head("abc123");
    assert_eq!(cache.git_head(), Some("abc123"));
    assert!(!cache.is_stale("abc123"));

    // Different HEAD means stale
    assert!(cache.is_stale("def456"));

    // Update HEAD
    cache.set_git_head("def456");
    assert!(!cache.is_stale("def456"));
}

#[test]
fn clear_resets_everything() {
    let mut cache = sample_cache();
    cache.set_git_head("abc123");

    assert!(cache.stats().nodes > 0);
    assert!(cache.git_head().is_some());

    cache.clear();

    assert_eq!(
        cache.stats(),
        CacheStats {
            nodes: 0,
            edges: 0,
            records: 0,
            ref_edges: 0,
        }
    );
    assert!(cache.git_head().is_none());
}

#[test]
fn add_and_query_roundtrip() {
    let mut cache = Cache::new();

    cache.add_node(CacheNode {
        qualified_name: "Pkg::A".into(),
        kind: "part def".into(),
        file: "a.sysml".into(),
        line: 1,
        parent: Some("Pkg".into()),
    });
    cache.add_node(CacheNode {
        qualified_name: "Pkg::B".into(),
        kind: "port def".into(),
        file: "a.sysml".into(),
        line: 5,
        parent: Some("Pkg".into()),
    });
    cache.add_edge(CacheEdge {
        source: "Pkg::A".into(),
        target: "Pkg::B".into(),
        kind: "connects".into(),
    });

    assert_eq!(cache.find_nodes_by_kind("part def").len(), 1);
    assert_eq!(cache.find_nodes_by_kind("port def").len(), 1);
    assert_eq!(cache.find_edges_from("Pkg::A").len(), 1);
    assert_eq!(cache.find_edges_to("Pkg::B").len(), 1);
    assert!(cache.find_edges_from("Pkg::B").is_empty());
}

