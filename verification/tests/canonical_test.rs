use tree_sitter_context::graph::paths::paths_strictly_weak;
use tree_sitter_context::graph::snapshot::snapshot_paths;
use tree_sitter_context::graph::diff::diff_snapshots;
use tree_sitter_context::graph::snapshot::{
    canonical_order, EdgeStatus, GraphEdge, GraphFile, GraphNode, GraphNodeHandle, GraphSnapshot, GraphSnapshotId,
    GRAPH_SCHEMA_VERSION,
};
use tree_sitter_context::identity::StableId;
use tree_sitter_context::schema::{ByteRange, Confidence, Diagnostic, DiagnosticLevel};

fn node(path: &str, id: &str, anchor: usize) -> GraphNode {
    GraphNode {
        path: path.to_string(),
        stable_id: StableId(id.to_string()),
        kind: "function_item".to_string(),
        name: Some(id.to_string()),
        anchor_byte: anchor,
        byte_range: ByteRange { start: anchor, end: anchor + 5 },
        signature_hash: Some(format!("sig_{id}")),
        content_hash: Some(format!("hash_{id}")),
        confidence: Confidence::Exact,
    }
}

fn handle(path: &str, id: &str, anchor: usize) -> GraphNodeHandle {
    GraphNodeHandle { path: path.to_string(), stable_id: StableId(id.to_string()), anchor_byte: anchor }
}

fn file(path: &str, nodes: Vec<GraphNode>) -> GraphFile {
    GraphFile {
        path: path.to_string(),
        content_hash: Some(format!("file_{path}")),
        nodes,
        symbols: vec![],
        diagnostics: vec![],
    }
}

fn edge(src: GraphNodeHandle, dst: GraphNodeHandle, kind: &str) -> GraphEdge {
    GraphEdge {
        source: src,
        target: dst,
        kind: kind.to_string(),
        status: EdgeStatus::Confirmed,
        confidence: Confidence::High,
        candidates: vec![],
    }
}

fn diag(message: &str) -> Diagnostic {
    Diagnostic { level: DiagnosticLevel::Warning, message: message.to_string(), context: None }
}

fn snapshot(files: Vec<GraphFile>, edges: Vec<GraphEdge>, diagnostics: Vec<Diagnostic>) -> GraphSnapshot {
    GraphSnapshot {
        schema_version: GRAPH_SCHEMA_VERSION.to_string(),
        snapshot_id: GraphSnapshotId(String::new()),
        files,
        edges,
        diagnostics,
        meta: None,
    }
}

#[test]
fn insertion_order_does_not_change_canonical_order() {
    let a = canonical_order(snapshot(
        vec![
            file("src/b.rs", vec![node("src/b.rs", "named:y", 20), node("src/b.rs", "named:x", 0)]),
            file("src/a.rs", vec![node("src/a.rs", "named:f", 0)]),
        ],
        vec![
            edge(handle("src/b.rs", "named:y", 20), handle("src/a.rs", "named:f", 0), "calls"),
            edge(handle("src/a.rs", "named:f", 0), handle("src/b.rs", "named:x", 0), "calls"),
        ],
        vec![diag("zeta"), diag("alpha")],
    ));
    let b = canonical_order(snapshot(
        vec![
            file("src/a.rs", vec![node("src/a.rs", "named:f", 0)]),
            file("src/b.rs", vec![node("src/b.rs", "named:x", 0), node("src/b.rs", "named:y", 20)]),
        ],
        vec![
            edge(handle("src/a.rs", "named:f", 0), handle("src/b.rs", "named:x", 0), "calls"),
            edge(handle("src/b.rs", "named:y", 20), handle("src/a.rs", "named:f", 0), "calls"),
        ],
        vec![diag("alpha"), diag("zeta")],
    ));
    assert_eq!(a.files, b.files);
    assert_eq!(a.edges, b.edges);
    assert_eq!(a.diagnostics, b.diagnostics);
    assert_eq!(a.files[0].path, "src/a.rs");
    assert_eq!(a.files[1].nodes[0].stable_id.0, "named:x");
    assert_eq!(a.edges[0].source.path, "src/a.rs");
    assert_eq!(a.diagnostics[0].message, "alpha");
}

#[test]
fn diff_against_itself_is_empty_for_many_files() {
    let s = canonical_order(snapshot(
        vec![
            file("src/a.rs", vec![node("src/a.rs", "named:f", 0)]),
            file("src/b.rs", vec![node("src/b.rs", "named:x", 0), node("src/b.rs", "named:y", 20)]),
        ],
        vec![edge(handle("src/a.rs", "named:f", 0), handle("src/b.rs", "named:x", 0), "calls")],
        vec![],
    ));
    let d = diff_snapshots(&s, &s).unwrap();
    assert!(d.changed_files.is_empty());
    assert!(d.changed_nodes.is_empty());
    assert!(d.changed_symbols.is_empty());
    assert!(d.changed_edges.is_empty());
    assert!(!d.postprocess_unavailable);
}

#[test]
fn the_paths_of_a_snapshot_are_strictly_weakly_ordered() {
    let s = snapshot(
        vec![
            file("src/b.rs", vec![node("src/b.rs", "named:y", 20)]),
            file("src/a.rs", vec![node("src/a.rs", "named:f", 0)]),
            file("src//c.rs", vec![]),
        ],
        vec![edge(handle("src/b.rs", "named:y", 20), handle("src/a.rs", "named:f", 0), "calls")],
        vec![],
    );
    let paths = snapshot_paths(&s);
    assert_eq!(paths, vec!["src/b.rs", "src/a.rs", "src//c.rs", "src/b.rs", "src/a.rs"]);
    assert!(paths_strictly_weak(&paths));
}
