use tree_sitter_context::graph::diff::{diff_snapshots, DiffReason, DiffStatus};
use tree_sitter_context::graph::snapshot::{
    canonical_order, GraphFile, GraphNode, GraphSnapshot, GraphSnapshotId, GRAPH_SCHEMA_VERSION,
};
use tree_sitter_context::identity::StableId;
use tree_sitter_context::schema::{ByteRange, Confidence};

fn make_snapshot_with_node(content_hash: &str, signature_hash: &str) -> GraphSnapshot {
    let file_hash = format!("file_{content_hash}");
    let node = GraphNode {
        path: "src/lib.rs".to_string(),
        stable_id: StableId("named:foo".to_string()),
        kind: "function_item".to_string(),
        name: Some("foo".to_string()),
        anchor_byte: 0,
        byte_range: ByteRange { start: 0, end: 10 },
        signature_hash: Some(signature_hash.to_string()),
        content_hash: Some(content_hash.to_string()),
        confidence: Confidence::Exact,
    };
    let file = GraphFile {
        path: "src/lib.rs".to_string(),
        content_hash: Some(file_hash),
        nodes: vec![node],
        symbols: vec![],
        diagnostics: vec![],
    };
    canonical_order(GraphSnapshot {
        schema_version: GRAPH_SCHEMA_VERSION.to_string(),
        snapshot_id: GraphSnapshotId(String::new()),
        files: vec![file],
        edges: vec![],
        diagnostics: vec![],
        meta: None,
    })
}

#[test]
fn ae3_body_only_change() {
    let old = make_snapshot_with_node("hash1", "sig1");
    let new = make_snapshot_with_node("hash2", "sig1");

    let diff = diff_snapshots(&old, &new).unwrap();

    assert_eq!(diff.changed_nodes.len(), 1);
    let node_diff = &diff.changed_nodes[0];
    assert_eq!(node_diff.status, DiffStatus::Modified);
    assert_eq!(node_diff.reason, DiffReason::BodyOnlyChanged);
    assert_eq!(node_diff.old_content_hash, Some("hash1".to_string()));
    assert_eq!(node_diff.new_content_hash, Some("hash2".to_string()));
    assert_eq!(node_diff.old_signature_hash, Some("sig1".to_string()));
    assert_eq!(node_diff.new_signature_hash, Some("sig1".to_string()));
    assert_eq!(node_diff.confidence, Confidence::High);
}

#[test]
fn ae4_signature_change_triggers_postprocess_unavailable() {
    let old = make_snapshot_with_node("hash1", "sig1");
    let new = make_snapshot_with_node("hash2", "sig2");

    let diff = diff_snapshots(&old, &new).unwrap();

    assert_eq!(diff.changed_nodes.len(), 1);
    let node_diff = &diff.changed_nodes[0];
    assert_eq!(node_diff.status, DiffStatus::Modified);
    assert_eq!(node_diff.reason, DiffReason::ContentChanged);
    assert!(!diff.postprocess_unavailable);
}

#[test]
fn ae4_rename_or_move_triggers_postprocess_unavailable() {
    let old = make_snapshot_with_node("hash1", "sig1");
    let mut new = make_snapshot_with_node("hash2", "sig2");
    new.files[0].nodes[0].name = Some("bar".to_string());
    new.files[0].nodes[0].stable_id = StableId("named:bar".to_string());
    new = canonical_order(new);

    let diff = diff_snapshots(&old, &new).unwrap();

    assert!(diff.changed_nodes.iter().any(|n| n.status == DiffStatus::Removed), "should have removed node");
    assert!(diff.changed_nodes.iter().any(|n| n.status == DiffStatus::Added), "should have added node");
    assert!(diff.postprocess_unavailable, "rename should trigger postprocess_unavailable");
}

#[test]
fn deleted_file_shows_removed() {
    let old = make_snapshot_with_node("hash1", "sig1");
    let new = canonical_order(GraphSnapshot {
        schema_version: GRAPH_SCHEMA_VERSION.to_string(),
        snapshot_id: GraphSnapshotId(String::new()),
        files: vec![],
        edges: vec![],
        diagnostics: vec![],
        meta: None,
    });

    let diff = diff_snapshots(&old, &new).unwrap();

    assert_eq!(diff.changed_files.len(), 1);
    assert_eq!(diff.changed_files[0].status, DiffStatus::Removed);
    assert_eq!(diff.changed_nodes.len(), 1);
    assert_eq!(diff.changed_nodes[0].status, DiffStatus::Removed);
}

#[test]
fn unchanged_snapshot_produces_empty_diff() {
    let snapshot = make_snapshot_with_node("hash1", "sig1");
    let diff = diff_snapshots(&snapshot, &snapshot).unwrap();

    assert!(diff.changed_files.is_empty());
    assert!(diff.changed_nodes.is_empty());
    assert!(diff.changed_symbols.is_empty());
    assert!(diff.changed_edges.is_empty());
    assert!(!diff.postprocess_unavailable);
}
