use tree_sitter_context::protocol::{
    AmbiguousStableId, AstCell, Bundle, BundleResult, Candidate, Confidence, Exhausted, NotFound,
    OmittedChunk, Provenance, UnknownCrossFile,
};
use tree_sitter_context::sexpr::serialize;

#[test]
fn deterministic_bundle_serialization() {
    let bundle = Bundle {
        version: 1,
        path: "src/lib.rs".into(),
        cells: vec![
            AstCell {
                stable_id: "named:abc".to_string(),
                kind: "function_item".to_string(),
                name: Some("foo".to_string()),
                byte_range: (0, 23),
                estimated_tokens: 6,
                confidence: Confidence::Exact,
            },
            AstCell {
                stable_id: "named:def".to_string(),
                kind: "struct_item".to_string(),
                name: Some("Bar".to_string()),
                byte_range: (25, 50),
                estimated_tokens: 4,
                confidence: Confidence::Exact,
            },
        ],
        omitted: vec![],
        provenance: Provenance::new("sig_tier_bundle", Confidence::Exact),
    };

    let result = BundleResult::Bundle(bundle);
    let bytes1 = serialize(&result).unwrap();
    let bytes2 = serialize(&result).unwrap();
    assert_eq!(bytes1, bytes2);
}

#[test]
fn bundle_with_omitted_sorts_stable_ids() {
    let bundle = Bundle {
        version: 1,
        path: "test.rs".into(),
        cells: vec![
            AstCell {
                stable_id: "named:z".to_string(),
                kind: "function_item".to_string(),
                name: Some("z".to_string()),
                byte_range: (0, 10),
                estimated_tokens: 2,
                confidence: Confidence::Exact,
            },
            AstCell {
                stable_id: "named:a".to_string(),
                kind: "function_item".to_string(),
                name: Some("a".to_string()),
                byte_range: (10, 20),
                estimated_tokens: 2,
                confidence: Confidence::Exact,
            },
        ],
        omitted: vec![OmittedChunk {
            stable_id: "named:m".to_string(),
            reason: "over_budget".to_string(),
        }],
        provenance: Provenance::new("sig_tier_bundle", Confidence::Exact),
    };

    let bytes = serialize(&BundleResult::Bundle(bundle)).unwrap();
    let s = String::from_utf8(bytes).unwrap();
    let a_pos = s.find("(stable_id \"named:a\")").unwrap();
    let z_pos = s.find("(stable_id \"named:z\")").unwrap();
    assert!(a_pos < z_pos);
}

#[test]
fn not_found_serializes_with_zero_confidence() {
    let not_found = NotFound {
        path: "src/lib.rs".into(),
        stable_id: "named:missing".to_string(),
        reason: "no chunk with this stable_id found in file".to_string(),
        provenance: Provenance::new("stable_id_lookup", Confidence::Low),
    };

    let bytes = serialize(&BundleResult::NotFound(not_found)).unwrap();
    let s = String::from_utf8(bytes).unwrap();
    assert!(s.contains("(not_found"));
    assert!(s.contains("(confidence low)"));
    assert!(s.contains("(graph_snapshot_id "));
    assert!(s.contains("(orientation_freshness "));
    assert!(
        s.contains("(orientation_freshness \"unknown\")")
            || s.contains("(orientation_freshness \"fresh\")")
            || s.contains("(orientation_freshness \"stale\")"),
        "orientation_freshness must be one of {{unknown,fresh,stale}}"
    );
}

#[test]
fn ambiguous_stable_id_serializes_candidates() {
    let ambiguous = AmbiguousStableId {
        path: "src/lib.rs".into(),
        stable_id: "named:dup".to_string(),
        candidates: vec![
            Candidate { anchor_byte: 0, kind: "function_item".to_string(), name: Some("foo".to_string()) },
            Candidate { anchor_byte: 45, kind: "function_item".to_string(), name: Some("foo".to_string()) },
        ],
        reason: "multiple chunks share this stable_id".to_string(),
        provenance: Provenance::new("stable_id_lookup", Confidence::Low),
    };

    let bytes = serialize(&BundleResult::AmbiguousStableId(ambiguous)).unwrap();
    let s = String::from_utf8(bytes).unwrap();
    assert!(s.contains("(ambiguous_stable_id"));
    assert!(s.contains("(candidate"));
    assert!(s.contains("(anchor_byte 0)"));
    assert!(s.contains("(anchor_byte 45)"));
}

#[test]
fn exhausted_serializes_omitted_in_order() {
    let exhausted = Exhausted {
        path: "src/lib.rs".into(),
        stable_id: "named:foo".to_string(),
        omitted: vec![OmittedChunk { stable_id: "named:foo".to_string(), reason: "over_budget".to_string() }],
        provenance: Provenance::new("sig_tier_bundle", Confidence::Exact),
    };

    let bytes = serialize(&BundleResult::Exhausted(exhausted)).unwrap();
    let s = String::from_utf8(bytes).unwrap();
    assert!(s.contains("(exhausted"));
    assert!(s.contains("(omitted_chunk"));
    assert!(s.contains("(reason \"over_budget\")"));
}

#[test]
fn string_escaping_covers_required_chars() {
    let bundle = Bundle {
        version: 1,
        path: "test.rs".into(),
        cells: vec![AstCell {
            stable_id: "named:test".to_string(),
            kind: "function_item".to_string(),
            name: Some("foo\\bar\"baz\nqux\t".to_string()),
            byte_range: (0, 10),
            estimated_tokens: 2,
            confidence: Confidence::Exact,
        }],
        omitted: vec![],
        provenance: Provenance::new("sig_tier_bundle", Confidence::Exact),
    };

    let bytes = serialize(&BundleResult::Bundle(bundle)).unwrap();
    let s = String::from_utf8(bytes).unwrap();
    assert!(s.contains("foo\\\\bar\\\"baz\\nqux\\t"));
}

#[test]
fn unknown_cross_file_serializes() {
    let unknown = UnknownCrossFile {
        path: "src/lib.rs".into(),
        stable_id: "named:foo".to_string(),
        reason: "v1-non-goal".to_string(),
    };

    let bytes = serialize(&BundleResult::UnknownCrossFile(unknown)).unwrap();
    let s = String::from_utf8(bytes).unwrap();
    assert!(s.contains("(unknown_cross_file"));
    assert!(s.contains("(reason \"v1-non-goal\")"));
}

#[test]
fn bundle_serialization_exact_bytes() {
    let bundle = Bundle {
        version: 1,
        path: "a.rs".into(),
        cells: vec![AstCell {
            stable_id: "named:x".to_string(),
            kind: "function_item".to_string(),
            name: None,
            byte_range: (3, 17),
            estimated_tokens: 4,
            confidence: Confidence::High,
        }],
        omitted: vec![],
        provenance: Provenance::new("sig_tier_bundle", Confidence::Exact).with_graph_state("abc", "fresh"),
    };
    let bytes = serialize(&BundleResult::Bundle(bundle)).unwrap();
    let expected = "(bundle\n  (version 1)\n  (path \"a.rs\")\n  (cells\n    (cell\n      (stable_id \"named:x\")\n      (kind \"function_item\")\n      (range 3 17)\n      (estimated_tokens 4)\n      (confidence high)\n    )\n  )\n  (omitted)\n  (provenance\n    (strategy \"sig_tier_bundle\")\n    (confidence exact)\n    (graph_snapshot_id \"abc\")\n    (orientation_freshness \"fresh\")\n  )\n)\n";
    assert_eq!(String::from_utf8(bytes).unwrap(), expected);
}

#[test]
fn control_characters_become_replacement_character() {
    let unknown = UnknownCrossFile {
        path: "p\u{1}\u{85}é".into(),
        stable_id: "id".to_string(),
        reason: "r".to_string(),
    };
    let bytes = serialize(&BundleResult::UnknownCrossFile(unknown)).unwrap();
    let s = String::from_utf8(bytes).unwrap();
    assert!(s.contains("(path \"p\u{fffd}\u{fffd}é\")"));
}

#[test]
fn escaped_values_hold_no_control_bytes() {
    let unknown = UnknownCrossFile {
        path: "a.rs".into(),
        stable_id: "x\ny\tz\u{7f}\u{2}\u{9f}\"".to_string(),
        reason: "r".to_string(),
    };
    let bytes = serialize(&BundleResult::UnknownCrossFile(unknown)).unwrap();
    let s = String::from_utf8(bytes).unwrap();
    assert!(s.contains("(stable_id \"x\\ny\\tz\u{fffd}\u{fffd}\u{fffd}\\\"\")"));
    let start = s.find("(stable_id ").unwrap();
    let line = &s[start..start + s[start..].find('\n').unwrap()];
    assert!(line.bytes().all(|b| b >= 0x20 && b != 0x7f));
}

#[test]
fn exhausted_with_no_omitted_still_opens_list_lines() {
    let exhausted = Exhausted {
        path: "x.rs".into(),
        stable_id: "named:foo".to_string(),
        omitted: vec![],
        provenance: Provenance::new("s", Confidence::Medium),
    };
    let s = String::from_utf8(serialize(&BundleResult::Exhausted(exhausted)).unwrap()).unwrap();
    assert!(s.contains("  (omitted\n  )\n"));
}

use tree_sitter_context::graph::postprocess::GodNode;
use tree_sitter_context::graph::snapshot::GraphSnapshotId;
use tree_sitter_context::identity::StableId;
use tree_sitter_context::orientation::{OrientationBlock, OrientationField, OrientationStats};
use tree_sitter_context::schema::{
    ByteRange, ChunkId, ChunkRecord, Confidence as ChunkConfidence, Diagnostic, InvalidationOutput, InvalidationReason,
    InvalidationRecord, InvalidationStatus, MatchStrategy, OutputMeta,
};
use tree_sitter_context::sexpr::{invalidation_to_sexpr, orientation_to_sexpr};

fn chunk_record(
    kind: &str,
    name: &str,
    stable_id: &str,
    start: usize,
    end: usize,
    tokens: usize,
    confidence: ChunkConfidence,
) -> ChunkRecord {
    ChunkRecord {
        id: ChunkId {
            path: "src/lib.rs".to_string(),
            kind: kind.to_string(),
            name: Some(name.to_string()),
            anchor_byte: start,
        },
        stable_id: StableId(stable_id.to_string()),
        kind: kind.to_string(),
        name: Some(name.to_string()),
        byte_range: ByteRange { start, end },
        estimated_tokens: tokens,
        confidence,
        depth: 0,
        parent: None,
        signature_hash: String::new(),
        body_hash: String::new(),
    }
}

#[test]
fn computed_god_nodes_serializes_correctly() {
    let block = OrientationBlock {
        schema_version: "r2-2026-04-26".to_string(),
        graph_snapshot_id: GraphSnapshotId("snap123".to_string()),
        stats: OrientationStats { file_count: 1, symbol_count: 2, language_count: 1, edge_count: 1 },
        top_referenced: vec![],
        entry_points: vec![],
        god_nodes: OrientationField::Computed {
            status: "computed".to_string(),
            nodes: vec![
                GodNode { rank: 1, stable_id: "named:foo".to_string(), path: "src/lib.rs".to_string() },
                GodNode { rank: 2, stable_id: "named:bar".to_string(), path: "src/main.rs".to_string() },
            ],
        },
        communities: OrientationField::PostprocessUnavailable,
        architecture_summary: OrientationField::PostprocessUnavailable,
        budget_truncated: None,
    };

    let bytes = orientation_to_sexpr(&block).unwrap();
    let s = String::from_utf8(bytes).unwrap();

    assert!(s.contains("(god_nodes (computation_status \"computed\")"));
    assert!(s.contains("((rank 1) (stable_id \"named:foo\") (path \"src/lib.rs\"))"));
    assert!(s.contains("((rank 2) (stable_id \"named:bar\") (path \"src/main.rs\"))"));
}

#[test]
fn empty_computed_god_nodes_serializes_without_children() {
    let block = OrientationBlock {
        schema_version: "r2-2026-04-26".to_string(),
        graph_snapshot_id: GraphSnapshotId("snap456".to_string()),
        stats: OrientationStats { file_count: 0, symbol_count: 0, language_count: 0, edge_count: 0 },
        top_referenced: vec![],
        entry_points: vec![],
        god_nodes: OrientationField::Computed { status: "computed".to_string(), nodes: vec![] },
        communities: OrientationField::PostprocessUnavailable,
        architecture_summary: OrientationField::PostprocessUnavailable,
        budget_truncated: None,
    };

    let bytes = orientation_to_sexpr(&block).unwrap();
    let s = String::from_utf8(bytes).unwrap();

    assert!(s.contains("(god_nodes (computation_status \"computed\"))"));
    let god_nodes_start = s.find("(god_nodes").unwrap();
    let god_nodes_end = s[god_nodes_start..].find(")").unwrap() + god_nodes_start;
    let god_nodes_section = &s[god_nodes_start..=god_nodes_end];
    assert!(
        !god_nodes_section.contains("(rank"),
        "empty god_nodes should not contain rank entries"
    );
}

#[test]
fn invalidation_output_deterministic_serialization() {
    let chunk1 = chunk_record("function_item", "foo", "named:foo", 0, 23, 6, ChunkConfidence::Exact);
    let chunk2 = chunk_record("struct_item", "Bar", "named:bar", 25, 50, 4, ChunkConfidence::High);

    let output = InvalidationOutput {
        records: vec![
            InvalidationRecord {
                status: InvalidationStatus::Affected,
                chunk: chunk1.clone(),
                old_chunk: Some(chunk1.clone()),
                reason: InvalidationReason::ContentChanged,
                match_strategy: MatchStrategy::StableId,
                confidence: ChunkConfidence::Exact,
                changed_ranges: vec![ByteRange { start: 10, end: 20 }],
            },
            InvalidationRecord {
                status: InvalidationStatus::Unchanged,
                chunk: chunk2.clone(),
                old_chunk: Some(chunk2.clone()),
                reason: InvalidationReason::NoChangeDetected,
                match_strategy: MatchStrategy::StableId,
                confidence: ChunkConfidence::High,
                changed_ranges: vec![],
            },
        ],
        affected: vec![chunk1.clone()],
        added: vec![],
        removed: vec![],
        unchanged: vec![chunk2.clone()],
        changed_ranges: vec![ByteRange { start: 10, end: 20 }],
        diagnostics: vec![Diagnostic::info("1 affected chunk(s)")],
        meta: OutputMeta {
            schema_version: "0.1.0".to_string(),
            source_path: Some("src/lib.rs".to_string()),
            total_chunks: 2,
            total_estimated_tokens: 10,
        },
    };

    let bytes1 = invalidation_to_sexpr(&output).unwrap();
    let bytes2 = invalidation_to_sexpr(&output).unwrap();
    assert_eq!(bytes1, bytes2, "serialization must be byte-stable");

    let s = String::from_utf8(bytes1).unwrap();
    assert!(s.contains("(invalidation"));
    assert!(s.contains("(schema_version \"0.1.0\")"));
    assert!(s.contains("(affected"));
    assert!(s.contains("(stable_id \"named:foo\")"));
    assert!(s.contains("(reason \"content_changed\")"));
    assert!(s.contains("(match_strategy \"stable_id\")"));
    assert!(s.contains("(confidence \"exact\")"));
    assert!(s.contains("(unchanged"));
    assert!(s.contains("(stable_id \"named:bar\")"));
    assert!(s.contains("(reason \"no_change_detected\")"));
    assert!(s.contains("(confidence \"high\")"));
    assert!(s.contains("(changed_ranges"));
    assert!(s.contains("(meta"));
    assert!(s.contains("(total_chunks 2)"));
}

#[test]
fn invalidation_empty_buckets_serializes() {
    let output = InvalidationOutput {
        records: vec![],
        affected: vec![],
        added: vec![],
        removed: vec![],
        unchanged: vec![],
        changed_ranges: vec![],
        diagnostics: vec![],
        meta: OutputMeta {
            schema_version: "0.1.0".to_string(),
            source_path: Some("src/lib.rs".to_string()),
            total_chunks: 0,
            total_estimated_tokens: 0,
        },
    };

    let bytes = invalidation_to_sexpr(&output).unwrap();
    let s = String::from_utf8(bytes).unwrap();
    assert!(s.contains("(affected)"));
    assert!(s.contains("(added)"));
    assert!(s.contains("(removed)"));
    assert!(s.contains("(unchanged)"));
    assert!(s.contains("(changed_ranges)"));
}

#[test]
fn invalidation_sorts_by_stable_id() {
    let chunk_z = chunk_record("function_item", "z", "named:z", 0, 10, 2, ChunkConfidence::Exact);
    let chunk_a = chunk_record("function_item", "a", "named:a", 10, 20, 2, ChunkConfidence::Exact);

    let output = InvalidationOutput {
        records: vec![
            InvalidationRecord {
                status: InvalidationStatus::Affected,
                chunk: chunk_z.clone(),
                old_chunk: Some(chunk_z.clone()),
                reason: InvalidationReason::ContentChanged,
                match_strategy: MatchStrategy::StableId,
                confidence: ChunkConfidence::Exact,
                changed_ranges: vec![],
            },
            InvalidationRecord {
                status: InvalidationStatus::Affected,
                chunk: chunk_a.clone(),
                old_chunk: Some(chunk_a.clone()),
                reason: InvalidationReason::ContentChanged,
                match_strategy: MatchStrategy::StableId,
                confidence: ChunkConfidence::Exact,
                changed_ranges: vec![],
            },
        ],
        affected: vec![chunk_z.clone(), chunk_a.clone()],
        added: vec![],
        removed: vec![],
        unchanged: vec![],
        changed_ranges: vec![],
        diagnostics: vec![],
        meta: OutputMeta {
            schema_version: "0.1.0".to_string(),
            source_path: Some("src/lib.rs".to_string()),
            total_chunks: 2,
            total_estimated_tokens: 4,
        },
    };

    let bytes = invalidation_to_sexpr(&output).unwrap();
    let s = String::from_utf8(bytes).unwrap();
    let a_pos = s.find("(stable_id \"named:a\")").unwrap();
    let z_pos = s.find("(stable_id \"named:z\")").unwrap();
    assert!(a_pos < z_pos, "records should be sorted by stable_id");
}
