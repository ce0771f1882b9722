use tree_sitter_context::graph::postprocess::{
    check_postprocess_artifact, GodNode, PostprocessArtifact, PostprocessStatus, POSTPROCESS_SCHEMA_VERSION,
};

fn sample_god_nodes() -> Vec<GodNode> {
    vec![
        GodNode { rank: 1, stable_id: "named:foo".to_string(), path: "src/lib.rs".to_string() },
        GodNode { rank: 2, stable_id: "named:bar".to_string(), path: "src/main.rs".to_string() },
    ]
}

fn artifact(snapshot_id: &str, schema_version: &str, god_nodes: Vec<GodNode>) -> PostprocessArtifact {
    PostprocessArtifact {
        snapshot_id: snapshot_id.to_string(),
        schema_version: schema_version.to_string(),
        computed_at: 0,
        god_nodes,
    }
}

#[test]
fn write_and_read_roundtrip() {
    let nodes = sample_god_nodes();
    match check_postprocess_artifact(artifact("snap-123", POSTPROCESS_SCHEMA_VERSION, nodes.clone()), "snap-123") {
        PostprocessStatus::Present(read_nodes) => assert_eq!(read_nodes, nodes),
        other => panic!("expected Present, got {other:?}"),
    }
}

#[test]
fn empty_god_nodes() {
    match check_postprocess_artifact(artifact("snap-empty", POSTPROCESS_SCHEMA_VERSION, vec![]), "snap-empty") {
        PostprocessStatus::Present(nodes) => assert!(nodes.is_empty()),
        other => panic!("expected Present, got {other:?}"),
    }
}

#[test]
fn schema_mismatch() {
    match check_postprocess_artifact(artifact("snap-old", "old-version", vec![]), "snap-old") {
        PostprocessStatus::SchemaMismatch(v) => assert_eq!(v, "old-version"),
        other => panic!("expected SchemaMismatch, got {other:?}"),
    }
}

#[test]
fn snapshot_mismatch() {
    match check_postprocess_artifact(artifact("different-id", POSTPROCESS_SCHEMA_VERSION, vec![]), "snap-wrong") {
        PostprocessStatus::SnapshotMismatch => {}
        other => panic!("expected SnapshotMismatch, got {other:?}"),
    }
}

#[test]
fn non_continuous_ranks() {
    let nodes = vec![
        GodNode { rank: 1, stable_id: "named:a".to_string(), path: "a.rs".to_string() },
        GodNode { rank: 3, stable_id: "named:b".to_string(), path: "b.rs".to_string() },
    ];
    match check_postprocess_artifact(artifact("snap-ranks", POSTPROCESS_SCHEMA_VERSION, nodes), "snap-ranks") {
        PostprocessStatus::Corrupt(message) => {
            assert_eq!(message, "non-continuous rank at index 1: expected 2, got 3")
        }
        other => panic!("expected Corrupt, got {other:?}"),
    }
}
