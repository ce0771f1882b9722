use tree_sitter_context::graph::snapshot::{
    canonical_order, EdgeStatus, GraphFile, GraphNode, GraphNodeHandle, GraphSnapshot, GraphSnapshotId,
    GraphSymbol, GRAPH_SCHEMA_VERSION,
};
use tree_sitter_context::graph::xref::{node_exists, node_signature, resolve_xref};
use tree_sitter_context::identity::StableId;
use tree_sitter_context::schema::{ByteRange, Confidence};

fn node(path: &str, stable_id: &str, name: &str, end: usize, sig: &str, hash: &str) -> GraphNode {
    GraphNode {
        path: path.to_string(),
        stable_id: StableId(stable_id.to_string()),
        kind: "function_item".to_string(),
        name: Some(name.to_string()),
        anchor_byte: 0,
        byte_range: ByteRange { start: 0, end },
        signature_hash: Some(sig.to_string()),
        content_hash: Some(hash.to_string()),
        confidence: Confidence::Exact,
    }
}

fn symbol(name: &str, start: usize, end: usize, is_definition: bool, n: &GraphNode) -> GraphSymbol {
    GraphSymbol {
        name: name.to_string(),
        syntax_type: "function".to_string(),
        byte_range: ByteRange { start, end },
        is_definition,
        node_handle: GraphNodeHandle::from(n),
        confidence: Confidence::Exact,
    }
}

fn make_snapshot_with_refs() -> GraphSnapshot {
    let def_node = node("src/b.rs", "named:helper", "helper", 20, "sig_helper", "hash_helper");
    let ref_node = node("src/a.rs", "named:main", "main", 30, "sig_main", "hash_main");
    let file_b = GraphFile {
        path: "src/b.rs".to_string(),
        content_hash: None,
        nodes: vec![def_node.clone()],
        symbols: vec![symbol("helper", 0, 20, true, &def_node)],
        diagnostics: vec![],
    };
    let file_a = GraphFile {
        path: "src/a.rs".to_string(),
        content_hash: None,
        nodes: vec![ref_node.clone()],
        symbols: vec![symbol("helper", 10, 20, false, &ref_node)],
        diagnostics: vec![],
    };
    canonical_order(GraphSnapshot {
        schema_version: GRAPH_SCHEMA_VERSION.to_string(),
        snapshot_id: GraphSnapshotId(String::new()),
        files: vec![file_a, file_b],
        edges: vec![],
        diagnostics: vec![],
        meta: None,
    })
}

#[test]
fn ae6_confirmed_reference() {
    let snapshot = make_snapshot_with_refs();
    let edges = resolve_xref(&snapshot);

    assert_eq!(edges.len(), 1);
    assert_eq!(edges[0].status, EdgeStatus::Confirmed);
    assert_eq!(edges[0].kind, "reference");
    assert_eq!(edges[0].source.path, "src/a.rs");
    assert_eq!(edges[0].target.path, "src/b.rs");
    assert_eq!(edges[0].confidence, Confidence::High);
    assert!(edges[0].candidates.is_empty());
}

#[test]
fn ae6_ambiguous_reference() {
    let mut snapshot = make_snapshot_with_refs();
    let dup_node = node("src/c.rs", "named:helper", "helper", 20, "sig_helper2", "hash_helper2");
    let file_c = GraphFile {
        path: "src/c.rs".to_string(),
        content_hash: None,
        nodes: vec![dup_node.clone()],
        symbols: vec![symbol("helper", 0, 20, true, &dup_node)],
        diagnostics: vec![],
    };
    snapshot.files.push(file_c);
    snapshot = canonical_order(snapshot);

    let edges = resolve_xref(&snapshot);

    assert_eq!(edges.len(), 1);
    assert_eq!(edges[0].status, EdgeStatus::Ambiguous);
    assert_eq!(edges[0].confidence, Confidence::Low);
    assert_eq!(edges[0].candidates.len(), 2);
}

#[test]
fn ae9_node_exists_and_signature() {
    let snapshot = make_snapshot_with_refs();
    let handle = GraphNodeHandle {
        path: "src/b.rs".to_string(),
        stable_id: StableId("named:helper".to_string()),
        anchor_byte: 0,
    };

    assert!(node_exists(&snapshot, &handle));

    let sig = node_signature(&snapshot, &handle).unwrap();
    assert_eq!(sig.name, Some("helper".to_string()));
    assert_eq!(sig.signature_hash, Some("sig_helper".to_string()));
}

#[test]
fn ae9_missing_node_returns_none() {
    let snapshot = make_snapshot_with_refs();
    let handle = GraphNodeHandle {
        path: "src/missing.rs".to_string(),
        stable_id: StableId("named:missing".to_string()),
        anchor_byte: 0,
    };

    assert!(!node_exists(&snapshot, &handle));
    assert!(node_signature(&snapshot, &handle).is_none());
}

#[test]
fn unsupported_language_no_confirmed_edges() {
    let snapshot = canonical_order(GraphSnapshot {
        schema_version: GRAPH_SCHEMA_VERSION.to_string(),
        snapshot_id: GraphSnapshotId(String::new()),
        files: vec![GraphFile {
            path: "src/plain.txt".to_string(),
            content_hash: None,
            nodes: vec![GraphNode {
                path: "src/plain.txt".to_string(),
                stable_id: StableId("unnamed:0".to_string()),
                kind: "text".to_string(),
                name: None,
                anchor_byte: 0,
                byte_range: ByteRange { start: 0, end: 10 },
                signature_hash: None,
                content_hash: None,
                confidence: Confidence::Exact,
            }],
            symbols: vec![],
            diagnostics: vec![],
        }],
        edges: vec![],
        diagnostics: vec![],
        meta: None,
    });

    let edges = resolve_xref(&snapshot);
    assert!(edges.is_empty(), "no symbols means no edges");
}

#[test]
fn reference_without_definition_is_unresolved() {
    let ref_node = node("src/a.rs", "named:main", "main", 30, "sig_main", "hash_main");
    let snapshot = canonical_order(GraphSnapshot {
        schema_version: GRAPH_SCHEMA_VERSION.to_string(),
        snapshot_id: GraphSnapshotId(String::new()),
        files: vec![GraphFile {
            path: "src/a.rs".to_string(),
            content_hash: None,
            nodes: vec![ref_node.clone()],
            symbols: vec![symbol("nowhere", 10, 20, false, &ref_node)],
            diagnostics: vec![],
        }],
        edges: vec![],
        diagnostics: vec![],
        meta: None,
    });

    let edges = resolve_xref(&snapshot);
    assert_eq!(edges.len(), 1);
    assert_eq!(edges[0].status, EdgeStatus::Unresolved);
    assert_eq!(edges[0].target.stable_id.0, "unresolved");
    assert_eq!(edges[0].target.path, "src/a.rs");
    assert_eq!(edges[0].confidence, Confidence::Medium);
}
