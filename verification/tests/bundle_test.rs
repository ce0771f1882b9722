use tree_sitter_context::bundle::{bundle_chunks, BundleOptions, OmissionReason};
use tree_sitter_context::identity::StableId;
use tree_sitter_context::schema::{ByteRange, ChunkId, ChunkRecord, Confidence};

fn dummy_chunk(name: &str, tokens: usize) -> ChunkRecord {
    ChunkRecord {
        id: ChunkId {
            path: "test.rs".to_string(),
            kind: "function_item".to_string(),
            name: Some(name.to_string()),
            anchor_byte: 0,
        },
        stable_id: StableId(format!("named:{name}")),
        kind: "function_item".to_string(),
        name: Some(name.to_string()),
        byte_range: ByteRange {
            start: 0,
            end: tokens * 4,
        },
        estimated_tokens: tokens,
        confidence: Confidence::Exact,
        depth: 0,
        parent: None,
        signature_hash: "sig_hash".to_string(),
        body_hash: "body_hash".to_string(),
    }
}

#[test]
fn fits_all_chunks_within_budget() {
    let chunks = vec![dummy_chunk("foo", 100), dummy_chunk("bar", 200), dummy_chunk("baz", 300)];
    let opts = BundleOptions { max_tokens: 1_000, max_chunks: 100 };
    let bundle = bundle_chunks(chunks, &opts);

    assert_eq!(bundle.included.len(), 3);
    assert!(bundle.omitted.is_empty());
    assert_eq!(bundle.total_included_tokens, 600);
}

#[test]
fn omits_chunks_over_budget() {
    let chunks = vec![dummy_chunk("foo", 100), dummy_chunk("bar", 200), dummy_chunk("baz", 300)];
    let opts = BundleOptions { max_tokens: 400, max_chunks: 100 };
    let bundle = bundle_chunks(chunks, &opts);

    assert_eq!(bundle.included.len(), 2);
    assert_eq!(bundle.omitted.len(), 1);
    assert_eq!(bundle.total_included_tokens, 300);
    assert_eq!(bundle.omitted[0].reason, OmissionReason::OverBudget);
}

#[test]
fn omits_single_chunk_larger_than_budget() {
    let chunks = vec![dummy_chunk("huge", 5_000)];
    let opts = BundleOptions { max_tokens: 2_000, max_chunks: 100 };
    let bundle = bundle_chunks(chunks, &opts);

    assert!(bundle.included.is_empty());
    assert_eq!(bundle.omitted.len(), 1);
    assert_eq!(bundle.omitted[0].reason, OmissionReason::OverBudget);
}

#[test]
fn empty_input_returns_empty_bundle() {
    let bundle = bundle_chunks(Vec::new(), &BundleOptions::default());
    assert!(bundle.included.is_empty());
    assert!(bundle.omitted.is_empty());
    assert_eq!(bundle.total_included_tokens, 0);
}

#[test]
fn bundle_diagnostic_reports_omissions() {
    let chunks = vec![dummy_chunk("foo", 100), dummy_chunk("bar", 500)];
    let opts = BundleOptions { max_tokens: 250, max_chunks: 100 };
    let bundle = bundle_chunks(chunks, &opts);
    assert_eq!(bundle.included.len(), 1);
    assert_eq!(bundle.included[0].name.as_deref(), Some("foo"));
    assert_eq!(bundle.total_omitted_tokens, 500);
    assert_eq!(bundle.budget, 250);
    assert_eq!(bundle.diagnostics.len(), 1);
    assert_eq!(bundle.diagnostics[0].message, "1 chunk(s) omitted due to budget (100/250 tokens used)");
}

#[test]
fn chunk_limit_marks_low_priority() {
    let chunks = vec![dummy_chunk("a", 1), dummy_chunk("b", 2), dummy_chunk("c", 3)];
    let opts = BundleOptions { max_tokens: 1_000, max_chunks: 2 };
    let bundle = bundle_chunks(chunks, &opts);
    assert_eq!(bundle.included.len(), 2);
    assert_eq!(bundle.omitted.len(), 1);
    assert_eq!(bundle.omitted[0].reason, OmissionReason::LowPriority);
    assert_eq!(bundle.omitted[0].chunk.name.as_deref(), Some("c"));
}

#[test]
fn smaller_chunks_come_first_whatever_their_depth() {
    let mut small_deep = dummy_chunk("a", 10);
    small_deep.depth = 1;
    let big_top = dummy_chunk("b", 100);
    let bundle = bundle_chunks(vec![big_top, small_deep], &BundleOptions { max_tokens: 100, max_chunks: 100 });
    let names: Vec<_> = bundle.included.iter().map(|c| c.name.clone().unwrap()).collect();
    assert_eq!(names, vec!["a".to_string()]);
    assert_eq!(bundle.omitted.len(), 1);
    assert_eq!(bundle.omitted[0].chunk.name.as_deref(), Some("b"));
    assert_eq!(bundle.omitted[0].reason, OmissionReason::OverBudget);
    assert_eq!(bundle.total_included_tokens, 10);
}

#[test]
fn equal_sizes_keep_input_order() {
    let chunks = vec![dummy_chunk("x", 5), dummy_chunk("y", 3), dummy_chunk("z", 5)];
    let bundle = bundle_chunks(chunks, &BundleOptions { max_tokens: 100, max_chunks: 100 });
    let names: Vec<_> = bundle.included.iter().map(|c| c.name.clone().unwrap()).collect();
    assert_eq!(names, vec!["y".to_string(), "x".to_string(), "z".to_string()]);
}
