use tree_sitter_context::identity::{match_chunks, MatchResult, StableId};
use tree_sitter_context::schema::{ByteRange, ChunkId, ChunkRecord, Confidence};

fn dummy_chunk(name: Option<&str>, stable_id: StableId) -> ChunkRecord {
    dummy_chunk_at(name, stable_id, 0)
}

fn dummy_chunk_at(name: Option<&str>, stable_id: StableId, anchor_byte: usize) -> ChunkRecord {
    ChunkRecord {
        id: ChunkId {
            path: "test.rs".to_string(),
            kind: "function_item".to_string(),
            name: name.map(String::from),
            anchor_byte,
        },
        kind: "function_item".to_string(),
        name: name.map(String::from),
        byte_range: ByteRange {
            start: anchor_byte,
            end: anchor_byte + 10,
        },
        estimated_tokens: 2,
        confidence: Confidence::Exact,
        stable_id,
        depth: 0,
        parent: None,
        signature_hash: "sig_hash".to_string(),
        body_hash: "body_hash".to_string(),
    }
}

#[test]
fn named_chunk_survives_anchor_change() {
    let source = b"fn foo() {}";
    let range = ByteRange { start: 0, end: 11 };

    let id1 = StableId::compute("src/lib.rs", "function_item", Some("foo"), None, source, &range);
    let id2 = StableId::compute("src/lib.rs", "function_item", Some("foo"), None, source, &range);

    assert_eq!(id1, id2);
}

#[test]
fn named_chunk_changes_on_rename() {
    let source = b"fn foo() {}";
    let range = ByteRange { start: 0, end: 11 };

    let id1 = StableId::compute("src/lib.rs", "function_item", Some("foo"), None, source, &range);
    let id2 = StableId::compute("src/lib.rs", "function_item", Some("bar"), None, source, &range);

    assert_ne!(id1, id2);
}

#[test]
fn unnamed_chunk_changes_on_content_edit() {
    let source1 = b"{ let x = 1; }";
    let source2 = b"{ let x = 2; }";
    let range = ByteRange { start: 0, end: 14 };

    let id1 = StableId::compute("src/lib.rs", "block", None, None, source1, &range);
    let id2 = StableId::compute("src/lib.rs", "block", None, None, source2, &range);

    assert_ne!(id1, id2);
}

#[test]
fn unnamed_chunk_survives_position_change_with_same_content() {
    let source = b"fn foo() { let x = 1; }";
    let range1 = ByteRange { start: 11, end: 23 };
    let range2 = ByteRange { start: 11, end: 23 };

    let id1 = StableId::compute("src/lib.rs", "block", None, None, source, &range1);
    let id2 = StableId::compute("src/lib.rs", "block", None, None, source, &range2);

    assert_eq!(id1, id2);
}

#[test]
fn match_chunks_finds_unchanged() {
    let old = vec![dummy_chunk(Some("foo"), StableId("named:a".to_string()))];
    let new = vec![dummy_chunk(Some("foo"), StableId("named:a".to_string()))];

    let results = match_chunks(&old, &new);
    assert_eq!(results.len(), 1);
    assert!(matches!(results[0], MatchResult::Unchanged { .. }));
}

#[test]
fn match_chunks_finds_removed_and_added() {
    let old = vec![dummy_chunk(Some("foo"), StableId("named:a".to_string()))];
    let new = vec![dummy_chunk(Some("bar"), StableId("named:b".to_string()))];

    let results = match_chunks(&old, &new);
    assert_eq!(results.len(), 2);
    assert!(results.iter().any(|r| matches!(r, MatchResult::Removed { .. })));
    assert!(results.iter().any(|r| matches!(r, MatchResult::Added { .. })));
}

#[test]
fn match_chunks_preserves_duplicate_stable_ids() {
    let old = vec![
        dummy_chunk_at(Some("foo"), StableId("named:a".to_string()), 0),
        dummy_chunk_at(Some("foo"), StableId("named:a".to_string()), 20),
    ];
    let new = vec![
        dummy_chunk_at(Some("foo"), StableId("named:a".to_string()), 0),
        dummy_chunk_at(Some("foo"), StableId("named:a".to_string()), 20),
    ];

    let results = match_chunks(&old, &new);

    assert_eq!(results.len(), 2);
    assert!(results.iter().all(|r| matches!(r, MatchResult::Unchanged { .. })));
}

#[test]
fn match_chunks_reports_extra_duplicate_as_added() {
    let old = vec![dummy_chunk_at(Some("foo"), StableId("named:a".to_string()), 0)];
    let new = vec![
        dummy_chunk_at(Some("foo"), StableId("named:a".to_string()), 0),
        dummy_chunk_at(Some("foo"), StableId("named:a".to_string()), 20),
    ];

    let results = match_chunks(&old, &new);

    assert_eq!(results.len(), 2);
    assert!(matches!(results[0], MatchResult::Unchanged { .. }));
    assert!(matches!(results[1], MatchResult::Added { .. }));
}

#[test]
fn collision_resistance_for_different_paths() {
    let source = b"fn foo() {}";
    let range = ByteRange { start: 0, end: 11 };

    let id1 = StableId::compute("a.rs", "function_item", Some("foo"), None, source, &range);
    let id2 = StableId::compute("b.rs", "function_item", Some("foo"), None, source, &range);

    assert_ne!(id1, id2);
}

#[test]
fn stable_id_has_prefix_and_32_hex_digits() {
    let source = b"fn foo() {}";
    let range = ByteRange { start: 0, end: 11 };
    let named = StableId::compute("src/lib.rs", "function_item", Some("foo"), None, source, &range);
    let unnamed = StableId::compute("src/lib.rs", "block", None, None, source, &range);
    assert!(named.0.starts_with("named:"));
    assert_eq!(named.0.len(), "named:".len() + 32);
    assert!(unnamed.0.starts_with("unnamed:"));
    assert_eq!(unnamed.0.len(), "unnamed:".len() + 32);
    assert!(named.0["named:".len()..].chars().all(|c| c.is_ascii_hexdigit() && !c.is_ascii_uppercase()));
}

#[test]
fn stable_id_matches_fnv1a_reference_digest() {
    // FNV-1a 128 over: field("src/lib.rs") + field("block") + [0] + [0] + [0] + field(content)
    fn absorb(mut h: u128, bytes: &[u8]) -> u128 {
        for b in bytes {
            h ^= u128::from(*b);
            h = h.wrapping_mul(0x0000_0000_0100_0000_0000_0000_0000_013b);
        }
        h
    }
    fn field(h: u128, bytes: &[u8]) -> u128 {
        absorb(absorb(h, &(bytes.len() as u64).to_le_bytes()), bytes)
    }
    let source = b"{ let x = 1; }";
    let mut h: u128 = 0x6c62_272e_07bb_0142_62b8_2175_6295_c58d;
    h = field(h, b"src/lib.rs");
    h = field(h, b"block");
    h = absorb(h, &[0]);
    h = absorb(h, &[0]);
    h = absorb(h, &[0]);
    h = field(h, source);
    let expected = format!("unnamed:{:032x}", h);
    let id = StableId::compute("src\\lib.rs", "block", None, None, source, &ByteRange { start: 0, end: 14 });
    assert_eq!(id.0, expected);
}

#[test]
fn parent_changes_named_id() {
    let source = b"fn foo() {}";
    let range = ByteRange { start: 0, end: 11 };
    let parent = ChunkId {
        path: "src/lib.rs".to_string(),
        kind: "impl_item".to_string(),
        name: Some("Bar".to_string()),
        anchor_byte: 0,
    };
    let id1 = StableId::compute("src/lib.rs", "function_item", Some("foo"), None, source, &range);
    let id2 = StableId::compute("src/lib.rs", "function_item", Some("foo"), Some(&parent), source, &range);
    assert_ne!(id1, id2);
}

#[test]
fn unmatched_old_duplicate_is_removed_and_added_carry_next_unpaired() {
    let old = vec![
        dummy_chunk_at(Some("foo"), StableId("named:a".to_string()), 0),
        dummy_chunk_at(Some("foo"), StableId("named:a".to_string()), 20),
        dummy_chunk_at(Some("foo"), StableId("named:a".to_string()), 40),
    ];
    let new = vec![dummy_chunk_at(Some("foo"), StableId("named:a".to_string()), 5)];
    let results = match_chunks(&old, &new);
    assert_eq!(results.len(), 3);
    match &results[0] {
        MatchResult::Unchanged { old, new } => {
            assert_eq!(old.id.anchor_byte, 0);
            assert_eq!(new.id.anchor_byte, 5);
        }
        _ => panic!("first old chunk must pair"),
    }
    assert!(matches!(results[1], MatchResult::Removed { .. }));
    assert!(matches!(results[2], MatchResult::Removed { .. }));

    let old2 = vec![dummy_chunk_at(Some("foo"), StableId("named:a".to_string()), 0)];
    let new2 = vec![
        dummy_chunk_at(Some("foo"), StableId("named:a".to_string()), 1),
        dummy_chunk_at(Some("foo"), StableId("named:a".to_string()), 2),
        dummy_chunk_at(Some("foo"), StableId("named:a".to_string()), 3),
    ];
    let results = match_chunks(&old2, &new2);
    assert_eq!(results.len(), 3);
    match (&results[1], &results[2]) {
        (MatchResult::Added { new: a }, MatchResult::Added { new: b }) => {
            assert_eq!(a.id.anchor_byte, 2);
            assert_eq!(b.id.anchor_byte, 3);
        }
        _ => panic!("two added results expected"),
    }
}

#[test]
fn match_chunks_accounts_for_every_chunk_once() {
    let old = vec![
        dummy_chunk_at(None, StableId("a".to_string()), 0),
        dummy_chunk_at(None, StableId("b".to_string()), 10),
        dummy_chunk_at(None, StableId("a".to_string()), 20),
    ];
    let new = vec![
        dummy_chunk_at(None, StableId("c".to_string()), 1),
        dummy_chunk_at(None, StableId("a".to_string()), 2),
        dummy_chunk_at(None, StableId("c".to_string()), 3),
    ];
    let results = match_chunks(&old, &new);
    let mut olds = Vec::new();
    let mut news = Vec::new();
    for r in &results {
        match r {
            MatchResult::Unchanged { old, new } => {
                olds.push(old.id.anchor_byte);
                news.push(new.id.anchor_byte);
            }
            MatchResult::Removed { old } => olds.push(old.id.anchor_byte),
            MatchResult::Added { new } => news.push(new.id.anchor_byte),
        }
    }
    assert_eq!(olds, vec![0, 10, 20]);
    news.sort();
    assert_eq!(news, vec![1, 2, 3]);
    assert_eq!(results.len(), 5);
}
