use tree_sitter_context::graph::snapshot::{GraphError, GraphSnapshotId, GRAPH_SCHEMA_VERSION};
use tree_sitter_context::graph::store::{head_id_from, is_snapshot_file_stem, GraphStore};

#[test]
fn ae5_verify_catches_schema_mismatch() {
    let store = GraphStore::at("/repo/.tree-sitter-context/graph".to_string());
    let id = GraphSnapshotId("0123456789abcdef0123456789abcdef".to_string());
    let err = store.verify(id.clone(), "old-version".to_string(), id).unwrap_err();
    match err {
        GraphError::SchemaMismatch { expected, found } => {
            assert_eq!(expected, GRAPH_SCHEMA_VERSION);
            assert_eq!(found, "old-version");
        }
        other => panic!("expected schema mismatch, got: {other:?}"),
    }
}

#[test]
fn verify_catches_hash_mismatch_and_accepts_match() {
    let store = GraphStore::at("root".to_string());
    let head = GraphSnapshotId("0123456789abcdef0123456789abcdef".to_string());
    let other = GraphSnapshotId("ffffffffffffffffffffffffffffffff".to_string());
    match store.verify(head.clone(), GRAPH_SCHEMA_VERSION.to_string(), other) {
        Err(GraphError::CorruptedSnapshot { snapshot_id, reason }) => {
            assert_eq!(snapshot_id, head);
            assert_eq!(reason, "canonical hash mismatch");
        }
        other => panic!("expected corrupted snapshot, got: {other:?}"),
    }
    assert!(store.verify(head.clone(), GRAPH_SCHEMA_VERSION.to_string(), head).is_ok());
    assert_eq!(store.path(), "root");
}

#[test]
fn head_contents_are_trimmed() {
    assert_eq!(head_id_from("  abc123\n").0, "abc123");
}

#[test]
fn snapshot_file_stems_are_32_hex_digits() {
    assert!(is_snapshot_file_stem("0123456789abcdef0123456789ABCDEF"));
    assert!(!is_snapshot_file_stem("0123456789abcdef0123456789abcde"));
    assert!(!is_snapshot_file_stem("0123456789abcdef0123456789abcdeg"));
    assert!(!is_snapshot_file_stem("snapshot"));
}
