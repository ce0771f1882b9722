use serde_json::Value;
use tree_sitter_context::graph::snapshot::{
    canonical_order, EdgeStatus, GraphEdge, GraphFile, GraphMeta, GraphNode, GraphNodeHandle, GraphSnapshot,
    GraphSnapshotId, GraphSymbol, GRAPH_SCHEMA_VERSION,
};
use tree_sitter_context::identity::StableId;
use tree_sitter_context::schema::{ByteRange, Confidence, Diagnostic, DiagnosticLevel};

fn obj(fields: Vec<(&str, Value)>) -> Value {
    let mut m = serde_json::Map::new();
    for (k, v) in fields {
        m.insert(k.to_string(), v);
    }
    Value::Object(m)
}

fn opt(s: &Option<String>) -> Value {
    s.as_ref().map(|v| Value::from(v.as_str())).unwrap_or(Value::Null)
}

fn confidence(c: Confidence) -> Value {
    Value::from(match c {
        Confidence::Exact => "exact",
        Confidence::High => "high",
        Confidence::Medium => "medium",
        Confidence::Low => "low",
    })
}

fn range(r: &ByteRange) -> Value {
    obj(vec![("start", Value::from(r.start)), ("end", Value::from(r.end))])
}

fn handle(h: &GraphNodeHandle) -> Value {
    obj(vec![
        ("path", Value::from(h.path.as_str())),
        ("stable_id", Value::from(h.stable_id.0.as_str())),
        ("anchor_byte", Value::from(h.anchor_byte)),
    ])
}

fn diagnostic(d: &Diagnostic) -> Value {
    let level = match d.level {
        DiagnosticLevel::Info => "info",
        DiagnosticLevel::Warning => "warning",
        DiagnosticLevel::Error => "error",
    };
    obj(vec![("level", Value::from(level)), ("message", Value::from(d.message.as_str())), ("context", opt(&d.context))])
}

fn node(n: &GraphNode) -> Value {
    obj(vec![
        ("path", Value::from(n.path.as_str())),
        ("stable_id", Value::from(n.stable_id.0.as_str())),
        ("kind", Value::from(n.kind.as_str())),
        ("name", opt(&n.name)),
        ("anchor_byte", Value::from(n.anchor_byte)),
        ("byte_range", range(&n.byte_range)),
        ("signature_hash", opt(&n.signature_hash)),
        ("content_hash", opt(&n.content_hash)),
        ("confidence", confidence(n.confidence)),
    ])
}

fn symbol(s: &GraphSymbol) -> Value {
    obj(vec![
        ("name", Value::from(s.name.as_str())),
        ("syntax_type", Value::from(s.syntax_type.as_str())),
        ("byte_range", range(&s.byte_range)),
        ("is_definition", Value::from(s.is_definition)),
        ("node_handle", handle(&s.node_handle)),
        ("confidence", confidence(s.confidence)),
    ])
}

fn edge(e: &GraphEdge) -> Value {
    let status = match e.status {
        EdgeStatus::Confirmed => "confirmed",
        EdgeStatus::Ambiguous => "ambiguous",
        EdgeStatus::Unresolved => "unresolved",
        EdgeStatus::Unsupported => "unsupported",
    };
    obj(vec![
        ("source", handle(&e.source)),
        ("target", handle(&e.target)),
        ("kind", Value::from(e.kind.as_str())),
        ("status", Value::from(status)),
        ("confidence", confidence(e.confidence)),
        ("candidates", Value::Array(e.candidates.iter().map(handle).collect())),
    ])
}

fn file(f: &GraphFile) -> Value {
    obj(vec![
        ("path", Value::from(f.path.as_str())),
        ("content_hash", opt(&f.content_hash)),
        ("nodes", Value::Array(f.nodes.iter().map(node).collect())),
        ("symbols", Value::Array(f.symbols.iter().map(symbol).collect())),
        ("diagnostics", Value::Array(f.diagnostics.iter().map(diagnostic).collect())),
    ])
}

/// The snapshot's JSON without its identifier and metadata.
fn identity_json(s: &GraphSnapshot) -> String {
    obj(vec![
        ("schema_version", Value::from(s.schema_version.as_str())),
        ("snapshot_id", Value::from("")),
        ("files", Value::Array(s.files.iter().map(file).collect())),
        ("edges", Value::Array(s.edges.iter().map(edge).collect())),
        ("diagnostics", Value::Array(s.diagnostics.iter().map(diagnostic).collect())),
        ("meta", Value::Null),
    ])
    .to_string()
}

/// Canonical order, named by the hash of the canonical JSON.
fn canonicalize_snapshot(snapshot: GraphSnapshot) -> GraphSnapshot {
    let mut ordered = canonical_order(snapshot);
    ordered.snapshot_id = GraphSnapshotId::from_canonical_bytes(identity_json(&ordered).as_bytes());
    ordered
}

fn graph_node(path: &str, id: &str, name: &str, anchor: usize, end: usize, sig: Option<&str>, hash: Option<&str>) -> GraphNode {
    GraphNode {
        path: path.to_string(),
        stable_id: StableId(id.to_string()),
        kind: "function_item".to_string(),
        name: Some(name.to_string()),
        anchor_byte: anchor,
        byte_range: ByteRange { start: anchor, end },
        signature_hash: sig.map(str::to_string),
        content_hash: hash.map(str::to_string),
        confidence: Confidence::Exact,
    }
}

fn graph_file(path: &str, hash: Option<&str>, nodes: Vec<GraphNode>) -> GraphFile {
    GraphFile {
        path: path.to_string(),
        content_hash: hash.map(str::to_string),
        nodes,
        symbols: vec![],
        diagnostics: vec![],
    }
}

fn snapshot(schema: &str, files: Vec<GraphFile>, meta: Option<GraphMeta>) -> GraphSnapshot {
    GraphSnapshot {
        schema_version: schema.to_string(),
        snapshot_id: GraphSnapshotId(String::new()),
        files,
        edges: vec![],
        diagnostics: vec![],
        meta,
    }
}

fn two_files() -> (GraphFile, GraphFile) {
    (
        graph_file("src/a.rs", None, vec![graph_node("src/a.rs", "named:a", "a", 0, 5, None, None)]),
        graph_file("src/b.rs", None, vec![graph_node("src/b.rs", "named:b", "b", 0, 5, None, None)]),
    )
}

fn foo_file() -> GraphFile {
    graph_file("src/lib.rs", None, vec![graph_node("src/lib.rs", "named:foo", "foo", 0, 10, None, None)])
}

fn duplicate_foo_file() -> GraphFile {
    graph_file(
        "src/lib.rs",
        None,
        vec![
            graph_node("src/lib.rs", "named:foo", "foo", 0, 10, None, None),
            graph_node("src/lib.rs", "named:foo", "foo", 12, 22, None, None),
        ],
    )
}

#[test]
fn ae2_same_logical_snapshot_same_id() {
    let file = graph_file(
        "src/lib.rs",
        Some("file_hash"),
        vec![graph_node("src/lib.rs", "named:foo", "foo", 0, 10, Some("sig1"), Some("hash1"))],
    );
    let a = canonicalize_snapshot(snapshot(GRAPH_SCHEMA_VERSION, vec![file.clone()], None));
    let b = canonicalize_snapshot(snapshot(GRAPH_SCHEMA_VERSION, vec![file], None));
    assert_eq!(a.snapshot_id, b.snapshot_id);
}

#[test]
fn ae2_different_insertion_order_same_id() {
    let (fa, fb) = two_files();
    let forward = canonicalize_snapshot(snapshot(GRAPH_SCHEMA_VERSION, vec![fa.clone(), fb.clone()], None));
    let reverse = canonicalize_snapshot(snapshot(GRAPH_SCHEMA_VERSION, vec![fb, fa], None));
    assert_eq!(forward.snapshot_id, reverse.snapshot_id);
}

#[test]
fn schema_version_change_changes_id() {
    let v1 = canonicalize_snapshot(snapshot(GRAPH_SCHEMA_VERSION, vec![foo_file()], None));
    let v2 = canonicalize_snapshot(snapshot("r1-2026-04-27", vec![foo_file()], None));
    assert_ne!(v1.snapshot_id, v2.snapshot_id);
}

#[test]
fn duplicate_stable_ids_remain_distinct() {
    let s = canonicalize_snapshot(snapshot(GRAPH_SCHEMA_VERSION, vec![duplicate_foo_file()], None));
    assert_eq!(s.files[0].nodes.len(), 2);
    assert_eq!(s.files[0].nodes[0].anchor_byte, 0);
    assert_eq!(s.files[0].nodes[1].anchor_byte, 12);
}

#[test]
fn snapshot_id_is_path_portable() {
    let meta = GraphMeta {
        created_at: Some("2026-04-26T00:00:00Z".to_string()),
        repo_root: Some("/home/user/project".to_string()),
        total_files: 1,
        total_nodes: 1,
        total_edges: 0,
    };
    let s = canonicalize_snapshot(snapshot(GRAPH_SCHEMA_VERSION, vec![foo_file()], Some(meta)));
    let mut hash_input = s.clone();
    hash_input.snapshot_id = GraphSnapshotId(String::new());
    hash_input.meta = None;
    assert!(!identity_json(&hash_input).contains("/home/user/project"));
}

#[test]
fn ae2_deterministic_snapshot_id() {
    let file = graph_file(
        "src/lib.rs",
        Some("file_hash"),
        vec![graph_node("src/lib.rs", "named:foo", "foo", 0, 10, Some("sig1"), Some("hash1"))],
    );
    let s1 = canonicalize_snapshot(snapshot(GRAPH_SCHEMA_VERSION, vec![file.clone()], None));
    let s2 = canonicalize_snapshot(snapshot(GRAPH_SCHEMA_VERSION, vec![file], None));
    assert_eq!(s1.snapshot_id, s2.snapshot_id, "same graph must produce same id");
}

#[test]
fn ae2_insertion_order_independence() {
    let (fa, fb) = two_files();
    let forward = canonicalize_snapshot(snapshot(GRAPH_SCHEMA_VERSION, vec![fa.clone(), fb.clone()], None));
    let reverse = canonicalize_snapshot(snapshot(GRAPH_SCHEMA_VERSION, vec![fb, fa], None));
    assert_eq!(forward.snapshot_id, reverse.snapshot_id);
}

#[test]
fn ae5_schema_mismatch_changes_id() {
    let s1 = canonicalize_snapshot(snapshot(GRAPH_SCHEMA_VERSION, vec![foo_file()], None));
    let s2 = canonicalize_snapshot(snapshot("r1-9999-01-01", vec![foo_file()], None));
    assert_ne!(s1.snapshot_id, s2.snapshot_id, "different schema must produce different id");
}

#[test]
fn duplicate_stable_ids_preserved() {
    let s = canonicalize_snapshot(snapshot(GRAPH_SCHEMA_VERSION, vec![duplicate_foo_file()], None));
    assert_eq!(s.files[0].nodes.len(), 2);
    assert_eq!(s.files[0].nodes[0].anchor_byte, 0);
    assert_eq!(s.files[0].nodes[1].anchor_byte, 12);
}

#[test]
fn meta_does_not_affect_identity() {
    let without_meta = canonicalize_snapshot(snapshot(GRAPH_SCHEMA_VERSION, vec![foo_file()], None));
    let with_meta = canonicalize_snapshot(snapshot(
        GRAPH_SCHEMA_VERSION,
        vec![foo_file()],
        Some(GraphMeta {
            created_at: Some("2026-04-26T12:00:00Z".to_string()),
            repo_root: Some("/different/path".to_string()),
            total_files: 1,
            total_nodes: 1,
            total_edges: 0,
        }),
    ));
    assert_eq!(without_meta.snapshot_id, with_meta.snapshot_id);
}

#[test]
fn snapshot_id_is_the_xxh3_hex_of_the_identity_json() {
    let s = canonicalize_snapshot(snapshot(GRAPH_SCHEMA_VERSION, vec![foo_file()], None));
    let json = identity_json(&s);
    assert_eq!(s.snapshot_id.0, format!("{:032x}", xxhash_rust::xxh3::xxh3_128(json.as_bytes())));
}
