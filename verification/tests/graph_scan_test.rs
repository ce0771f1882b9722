use tree_sitter_context::cli::graph_scan::{scan_report, scan_snapshot, GraphScan, ScanEvent};
use tree_sitter_context::graph::snapshot::{GraphFile, GraphNode, GraphSnapshotId, GRAPH_SCHEMA_VERSION};
use tree_sitter_context::identity::StableId;
use tree_sitter_context::schema::{ByteRange, Confidence, Diagnostic};

fn file(path: &str, nodes: usize, diagnostics: Vec<Diagnostic>) -> GraphFile {
    GraphFile {
        path: path.to_string(),
        content_hash: None,
        nodes: (0..nodes)
            .map(|i| GraphNode {
                path: path.to_string(),
                stable_id: StableId(format!("named:f{i}")),
                kind: "function_item".to_string(),
                name: None,
                anchor_byte: i,
                byte_range: ByteRange { start: i, end: i + 1 },
                signature_hash: None,
                content_hash: None,
                confidence: Confidence::Exact,
            })
            .collect(),
        symbols: vec![],
        diagnostics,
    }
}

#[test]
fn scan_counts_files_and_reports_skips() {
    let mut scan = GraphScan::new();
    scan.record(ScanEvent::OutsideRoot { shown: "/elsewhere/x.rs".to_string() });
    scan.record(ScanEvent::Unreadable {
        relative: "src/locked.rs".to_string(),
        shown: "/repo/src/locked.rs".to_string(),
        error: "denied".to_string(),
    });
    scan.record(ScanEvent::NoLanguage { relative: "README".to_string(), shown: "/repo/README".to_string() });
    scan.record(ScanEvent::ParseFailed { relative: "src/bad.rs".to_string(), shown: "/repo/src/bad.rs".to_string() });
    scan.record(ScanEvent::Unchanged { relative: "src/a.rs".to_string(), file: file("src/a.rs", 2, vec![]) });
    scan.record(ScanEvent::Extracted {
        relative: "src/b.rs".to_string(),
        file: file("src/b.rs", 3, vec![Diagnostic::warn("odd")]),
    });
    assert_eq!(scan.scanned, 6);
    assert_eq!(scan.included, 1);
    assert_eq!(scan.unchanged, 1);
    assert_eq!(scan.current_paths, vec!["src/locked.rs", "README", "src/bad.rs", "src/a.rs", "src/b.rs"]);
    let reports: Vec<(String, String)> =
        scan.diagnostics.iter().map(|d| (d.level.clone(), d.message.clone())).collect();
    assert_eq!(
        reports,
        vec![
            ("warning".to_string(), "skipping path outside repo root: /elsewhere/x.rs".to_string()),
            ("warning".to_string(), "skipping unreadable file /repo/src/locked.rs: denied".to_string()),
            ("info".to_string(), "no language for /repo/README, skipped".to_string()),
            ("warning".to_string(), "parse failed for /repo/src/bad.rs, skipped".to_string()),
            ("warning".to_string(), "odd".to_string()),
        ]
    );

    let snapshot = scan_snapshot(scan.files.clone(), scan.included + scan.unchanged, "/repo".to_string(), "7".to_string());
    assert_eq!(snapshot.schema_version, GRAPH_SCHEMA_VERSION);
    let meta = snapshot.meta.clone().unwrap();
    assert_eq!(meta.total_nodes, 5);
    assert_eq!(meta.total_files, 2);
    assert_eq!(meta.repo_root.as_deref(), Some("/repo"));

    let report = scan_report(scan, GraphSnapshotId("abc".to_string()), 5);
    assert_eq!(report.status, "ok");
    assert_eq!(report.files_scanned, 6);
    assert_eq!(report.files_included, 2);
    assert_eq!(report.total_nodes, 5);
    assert_eq!(report.diagnostics.len(), 5);
}
