use serde_json::Value;
use tree_sitter_context::chunk::estimate_tokens;
use tree_sitter_context::graph::postprocess::GodNode;
use tree_sitter_context::graph::snapshot::{
    GraphFile, GraphNode, GraphNodeHandle, GraphSnapshot, GraphSnapshotId, GraphSymbol,
    GRAPH_SCHEMA_VERSION,
};
use tree_sitter_context::identity::StableId;
use tree_sitter_context::orientation::{
    apply_budget_step, build_orientation, BudgetStage, OrientationBlock, OrientationField,
    ORIENTATION_SCHEMA_VERSION,
};
use tree_sitter_context::schema::{ByteRange, Confidence};

fn make_node(path: &str, stable_id: &str, name: &str) -> GraphNode {
    GraphNode {
        path: path.to_string(),
        stable_id: StableId(stable_id.to_string()),
        kind: "function_item".to_string(),
        name: Some(name.to_string()),
        anchor_byte: 0,
        byte_range: ByteRange { start: 0, end: 10 },
        signature_hash: None,
        content_hash: None,
        confidence: Confidence::Exact,
    }
}

fn make_symbol(name: &str, node: &GraphNode) -> GraphSymbol {
    GraphSymbol {
        name: name.to_string(),
        syntax_type: "function".to_string(),
        byte_range: ByteRange { start: 0, end: 10 },
        is_definition: true,
        node_handle: GraphNodeHandle::from(node),
        confidence: Confidence::Exact,
    }
}

fn make_test_snapshot() -> GraphSnapshot {
    let node_a = make_node("src/a.rs", "named:target", "target");
    let node_b = make_node("src/b.rs", "named:caller", "caller");
    let sym_a = make_symbol("target", &node_a);
    let sym_b = make_symbol("caller", &node_b);

    let file_a = GraphFile {
        path: "src/a.rs".to_string(),
        content_hash: None,
        nodes: vec![node_a],
        symbols: vec![sym_a],
        diagnostics: vec![],
    };
    let file_b = GraphFile {
        path: "src/b.rs".to_string(),
        content_hash: None,
        nodes: vec![node_b],
        symbols: vec![sym_b],
        diagnostics: vec![],
    };

    GraphSnapshot {
        schema_version: GRAPH_SCHEMA_VERSION.to_string(),
        snapshot_id: GraphSnapshotId("test123".to_string()),
        files: vec![file_a, file_b],
        edges: vec![],
        diagnostics: vec![],
        meta: None,
    }
}

fn god_node_value(n: &GodNode) -> Value {
    let mut m = serde_json::Map::new();
    m.insert("rank".to_string(), Value::from(n.rank));
    m.insert("stable_id".to_string(), Value::from(n.stable_id.clone()));
    m.insert("path".to_string(), Value::from(n.path.clone()));
    Value::Object(m)
}

fn field_value(f: &OrientationField) -> Value {
    match f {
        OrientationField::PostprocessUnavailable => Value::from("postprocess_unavailable"),
        OrientationField::Computed { status, nodes } => {
            let mut inner = serde_json::Map::new();
            inner.insert("computation_status".to_string(), Value::from(status.clone()));
            inner.insert("nodes".to_string(), Value::Array(nodes.iter().map(god_node_value).collect()));
            let mut outer = serde_json::Map::new();
            outer.insert("computed".to_string(), Value::Object(inner));
            Value::Object(outer)
        }
    }
}

/// The length of the block's JSON rendering, field for field as the
/// command line renders it.
fn block_json_len(block: &OrientationBlock) -> usize {
    let mut stats = serde_json::Map::new();
    stats.insert("file_count".to_string(), Value::from(block.stats.file_count));
    stats.insert("symbol_count".to_string(), Value::from(block.stats.symbol_count));
    stats.insert("language_count".to_string(), Value::from(block.stats.language_count));
    stats.insert("edge_count".to_string(), Value::from(block.stats.edge_count));

    let top: Vec<Value> = block
        .top_referenced
        .iter()
        .map(|t| {
            let mut m = serde_json::Map::new();
            m.insert("symbol_path".to_string(), Value::from(t.symbol_path.clone()));
            m.insert("path".to_string(), Value::from(t.path.clone()));
            m.insert("stable_id".to_string(), Value::from(t.stable_id.clone()));
            m.insert("inbound_refs".to_string(), Value::from(t.inbound_refs));
            Value::Object(m)
        })
        .collect();
    let entries: Vec<Value> = block
        .entry_points
        .iter()
        .map(|e| {
            let mut m = serde_json::Map::new();
            m.insert("symbol_path".to_string(), Value::from(e.symbol_path.clone()));
            m.insert("path".to_string(), Value::from(e.path.clone()));
            m.insert("stable_id".to_string(), Value::from(e.stable_id.clone()));
            Value::Object(m)
        })
        .collect();

    let mut m = serde_json::Map::new();
    m.insert("schema_version".to_string(), Value::from(block.schema_version.clone()));
    m.insert("graph_snapshot_id".to_string(), Value::from(block.graph_snapshot_id.0.clone()));
    m.insert("stats".to_string(), Value::Object(stats));
    m.insert("top_referenced".to_string(), Value::Array(top));
    m.insert("entry_points".to_string(), Value::Array(entries));
    m.insert("god_nodes".to_string(), field_value(&block.god_nodes));
    m.insert("communities".to_string(), field_value(&block.communities));
    m.insert("architecture_summary".to_string(), field_value(&block.architecture_summary));
    if let Some(t) = &block.budget_truncated {
        let mut tm = serde_json::Map::new();
        tm.insert("reason".to_string(), Value::from(t.reason.clone()));
        tm.insert(
            "omitted".to_string(),
            Value::Array(t.omitted.iter().map(|o| Value::from(o.clone())).collect()),
        );
        m.insert("budget_truncated".to_string(), Value::Object(tm));
    }
    serde_json::to_string(&Value::Object(m)).unwrap().len()
}

fn build_with_budget(snapshot: &GraphSnapshot, budget: usize) -> OrientationBlock {
    let mut block = build_orientation(snapshot, None);
    let mut stage = BudgetStage::Full;
    loop {
        let len = block_json_len(&block);
        match apply_budget_step(&mut block, budget, stage, len) {
            Some(next) => stage = next,
            None => return block,
        }
    }
}

#[test]
fn orientation_block_has_expected_fields() {
    let snapshot = make_test_snapshot();
    let block = build_orientation(&snapshot, None);

    assert_eq!(block.schema_version, ORIENTATION_SCHEMA_VERSION);
    assert_eq!(block.graph_snapshot_id.0, "test123");
    assert_eq!(block.stats.file_count, 2);
    assert_eq!(block.stats.symbol_count, 2);
    assert_eq!(block.god_nodes, OrientationField::PostprocessUnavailable);
    assert_eq!(block.communities, OrientationField::PostprocessUnavailable);
    assert_eq!(block.architecture_summary, OrientationField::PostprocessUnavailable);
}

#[test]
fn byte_stability_across_two_builds() {
    let snapshot = make_test_snapshot();
    let block1 = build_orientation(&snapshot, None);
    let block2 = build_orientation(&snapshot, None);
    assert_eq!(block1, block2, "orientation block must be byte-stable");
    assert_eq!(block_json_len(&block1), block_json_len(&block2));
}

#[test]
fn budget_truncation_drops_entry_points_first() {
    let snapshot = make_test_snapshot();
    let block = build_with_budget(&snapshot, 50);

    assert!(block.budget_truncated.is_some(), "budget_truncated must be set when budget is exhausted");
    let trunc = block.budget_truncated.unwrap();
    assert_eq!(trunc.reason, "budget_exhausted");
    assert!(trunc.omitted.contains(&"entry_points".to_string()));
}

#[test]
fn ample_budget_leaves_block_whole() {
    let snapshot = make_test_snapshot();
    let whole = build_orientation(&snapshot, None);
    let block = build_with_budget(&snapshot, 100_000);
    assert_eq!(block, whole);
    assert!(estimate_tokens(block_json_len(&block)) <= 100_000);
}

#[test]
fn tiny_budget_keeps_only_stats() {
    let snapshot = make_test_snapshot();
    let block = build_with_budget(&snapshot, 1);
    assert!(block.top_referenced.is_empty());
    assert!(block.entry_points.is_empty());
    let trunc = block.budget_truncated.unwrap();
    assert_eq!(trunc.omitted, vec!["top_referenced".to_string(), "entry_points".to_string()]);
    assert_eq!(block.stats.file_count, 2);
}

#[test]
fn entry_points_are_nodes_without_inbound_references() {
    let snapshot = make_test_snapshot();
    let block = build_orientation(&snapshot, None);
    assert_eq!(block.entry_points.len(), 2);
    assert_eq!(block.entry_points[0].path, "src/a.rs");
    assert_eq!(block.entry_points[1].path, "src/b.rs");
    assert!(block.top_referenced.is_empty());
    assert_eq!(block.stats.language_count, 1);
    assert_eq!(block.stats.edge_count, 0);
}

#[test]
fn god_nodes_become_computed_field() {
    let snapshot = make_test_snapshot();
    let nodes = vec![GodNode { rank: 1, stable_id: "named:target".to_string(), path: "src/a.rs".to_string() }];
    let block = build_orientation(&snapshot, Some(nodes.clone()));
    assert_eq!(block.god_nodes, OrientationField::Computed { status: "computed".to_string(), nodes });
}

use tree_sitter_context::graph::snapshot::{EdgeStatus, GraphEdge};
use tree_sitter_context::sexpr::orientation_to_sexpr;

fn make_test_snapshot_with_edges() -> GraphSnapshot {
    let node_a = make_node("src/a.rs", "named:target", "target");
    let node_b = make_node("src/b.rs", "named:caller", "caller");
    let sym_a = make_symbol("target", &node_a);
    let sym_b = make_symbol("caller", &node_b);
    let edge = GraphEdge {
        source: GraphNodeHandle::from(&node_b),
        target: GraphNodeHandle::from(&node_a),
        kind: "reference".to_string(),
        status: EdgeStatus::Confirmed,
        confidence: Confidence::High,
        candidates: vec![],
    };
    GraphSnapshot {
        schema_version: GRAPH_SCHEMA_VERSION.to_string(),
        snapshot_id: GraphSnapshotId("test123".to_string()),
        files: vec![
            GraphFile {
                path: "src/a.rs".to_string(),
                content_hash: None,
                nodes: vec![node_a],
                symbols: vec![sym_a],
                diagnostics: vec![],
            },
            GraphFile {
                path: "src/b.rs".to_string(),
                content_hash: None,
                nodes: vec![node_b],
                symbols: vec![sym_b],
                diagnostics: vec![],
            },
        ],
        edges: vec![edge],
        diagnostics: vec![],
        meta: None,
    }
}

#[test]
fn ae1_orientation_sexpr_contains_all_fields() {
    let snapshot = make_test_snapshot_with_edges();
    let block = build_orientation(&snapshot, None);
    let s = String::from_utf8(orientation_to_sexpr(&block).unwrap()).unwrap();

    assert!(s.contains("(orientation"));
    assert!(s.contains("(schema_version"));
    assert!(s.contains("(graph_snapshot_id \"test123\")"));
    assert!(s.contains("(stats"));
    assert!(s.contains("(top_referenced"));
    assert!(s.contains("(entry_points"));
    assert!(s.contains("(god_nodes postprocess_unavailable)"));
    assert!(s.contains("(communities postprocess_unavailable)"));
    assert!(s.contains("(architecture_summary postprocess_unavailable)"));
}

#[test]
fn ae2_byte_stability() {
    let snapshot = make_test_snapshot_with_edges();
    let bytes1 = orientation_to_sexpr(&build_orientation(&snapshot, None)).unwrap();
    let bytes2 = orientation_to_sexpr(&build_orientation(&snapshot, None)).unwrap();
    assert_eq!(bytes1, bytes2, "orientation sexpr must be byte-stable");
}

#[test]
fn ae3_budget_truncation() {
    let snapshot = make_test_snapshot_with_edges();
    let block = build_with_budget(&snapshot, 50);

    assert!(block.budget_truncated.is_some());
    let trunc = block.budget_truncated.unwrap();
    assert_eq!(trunc.reason, "budget_exhausted");
    assert!(trunc.omitted.contains(&"entry_points".to_string()));
}

#[test]
fn reserved_postprocess_fields_are_unavailable() {
    let snapshot = make_test_snapshot_with_edges();
    let block = build_orientation(&snapshot, None);

    assert_eq!(block.god_nodes, OrientationField::PostprocessUnavailable);
    assert_eq!(block.communities, OrientationField::PostprocessUnavailable);
    assert_eq!(block.architecture_summary, OrientationField::PostprocessUnavailable);
}

#[test]
fn top_referenced_counts_cross_file_refs() {
    let snapshot = make_test_snapshot_with_edges();
    let block = build_orientation(&snapshot, None);

    assert!(!block.top_referenced.is_empty(), "top_referenced must not be empty when cross-file refs exist");
    let first = &block.top_referenced[0];
    assert_eq!(first.inbound_refs, 1, "target should have 1 inbound ref");
    assert_eq!(first.stable_id, "named:target");
}

#[test]
fn entry_points_excludes_nodes_with_inbound_refs() {
    let snapshot = make_test_snapshot_with_edges();
    let block = build_orientation(&snapshot, None);

    let entry_stable_ids: Vec<String> = block.entry_points.iter().map(|e| e.stable_id.clone()).collect();
    assert!(entry_stable_ids.contains(&"named:caller".to_string()), "caller should be an entry point");
    assert!(!entry_stable_ids.contains(&"named:target".to_string()), "target should NOT be an entry point");
}

#[test]
fn ae14_r3_upgrade_path_simulation() {
    let snapshot = make_test_snapshot_with_edges();
    let mut block = build_orientation(&snapshot, None);
    block.god_nodes = OrientationField::PostprocessUnavailable;

    assert_eq!(block.schema_version, "r2-2026-04-26");
    assert_eq!(block.graph_snapshot_id.0, "test123");
    assert!(!block.top_referenced.is_empty());
}

#[test]
fn entry_points_and_top_referenced_come_sorted() {
    let z = make_node("src/z.rs", "named:zed", "zed");
    let a2 = make_node("src/a.rs", "named:two", "two");
    let a1 = make_node("src/a.rs", "named:one", "one");
    let t = make_node("src/t.rs", "named:hub", "hub");
    let u = make_node("src/u.rs", "named:leaf", "leaf");
    let edge = |src: &GraphNode, dst: &GraphNode| GraphEdge {
        source: GraphNodeHandle::from(src),
        target: GraphNodeHandle::from(dst),
        kind: "reference".to_string(),
        status: EdgeStatus::Confirmed,
        confidence: Confidence::High,
        candidates: vec![],
    };
    let edges = vec![edge(&z, &u), edge(&z, &t), edge(&a1, &t)];
    let file = |path: &str, nodes: Vec<GraphNode>| GraphFile {
        path: path.to_string(),
        content_hash: None,
        symbols: nodes.iter().map(|n| make_symbol(n.name.as_deref().unwrap(), n)).collect(),
        nodes,
        diagnostics: vec![],
    };
    let snapshot = GraphSnapshot {
        schema_version: GRAPH_SCHEMA_VERSION.to_string(),
        snapshot_id: GraphSnapshotId("sorted".to_string()),
        files: vec![
            file("src/z.rs", vec![z.clone()]),
            file("src/a.rs", vec![a2.clone(), a1.clone()]),
            file("src/t.rs", vec![t.clone()]),
            file("src/u.rs", vec![u.clone()]),
        ],
        edges,
        diagnostics: vec![],
        meta: None,
    };
    let block = build_orientation(&snapshot, None);
    let entries: Vec<(String, String)> =
        block.entry_points.iter().map(|e| (e.path.clone(), e.stable_id.clone())).collect();
    assert_eq!(
        entries,
        vec![
            ("src/a.rs".to_string(), "named:one".to_string()),
            ("src/a.rs".to_string(), "named:two".to_string()),
            ("src/z.rs".to_string(), "named:zed".to_string()),
        ]
    );
    let top: Vec<(String, usize)> =
        block.top_referenced.iter().map(|r| (r.stable_id.clone(), r.inbound_refs)).collect();
    assert_eq!(top, vec![("named:hub".to_string(), 2), ("named:leaf".to_string(), 1)]);
}
