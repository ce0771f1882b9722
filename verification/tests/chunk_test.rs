use tree_sitter_context::chunk::{
    chunks_for_tree, estimate_tokens, is_chunk_boundary_kind, ChunkOptions, SyntaxNode, SyntaxTree,
};
use tree_sitter_context::schema::{Confidence, DiagnosticLevel};

fn convert(node: tree_sitter::Node) -> SyntaxNode {
    let count = node.child_count();
    let mut children = Vec::with_capacity(count as usize);
    for i in 0..count {
        let child = node.child(i).unwrap();
        let mut converted = convert(child);
        converted.field_name = node.field_name_for_child(i).map(str::to_string);
        children.push(converted);
    }
    SyntaxNode {
        kind: node.kind().to_string(),
        start_byte: node.start_byte(),
        end_byte: node.end_byte(),
        is_named: node.is_named(),
        field_name: None,
        children,
    }
}

fn parse_rust(source: &[u8]) -> SyntaxTree {
    let mut parser = tree_sitter::Parser::new();
    let language = tree_sitter::Language::new(tree_sitter_rust::LANGUAGE);
    parser.set_language(&language).unwrap();
    let tree = parser.parse(source, None).unwrap();
    SyntaxTree { root: convert(tree.root_node()), has_error: tree.root_node().has_error() }
}

fn leaf(kind: &str, start: usize, end: usize, named: bool) -> SyntaxNode {
    SyntaxNode {
        kind: kind.to_string(),
        start_byte: start,
        end_byte: end,
        is_named: named,
        field_name: None,
        children: vec![],
    }
}

#[test]
fn recognizes_common_chunk_boundaries() {
    assert!(is_chunk_boundary_kind("function_item"));
    assert!(is_chunk_boundary_kind("method_definition"));
    assert!(is_chunk_boundary_kind("struct_item"));
    assert!(is_chunk_boundary_kind("class_declaration"));
    assert!(!is_chunk_boundary_kind("identifier"));
    assert!(!is_chunk_boundary_kind("statement_block"));
}

#[test]
fn estimates_tokens_conservatively_from_bytes() {
    assert_eq!(estimate_tokens(0), 1);
    assert_eq!(estimate_tokens(1), 1);
    assert_eq!(estimate_tokens(4), 1);
    assert_eq!(estimate_tokens(5), 2);
}

#[test]
fn records_true_estimated_tokens_even_when_max_tokens_is_smaller() {
    let source = b"fn huge() { let value = 1; let other = 2; let third = 3; }";
    let tree = parse_rust(source);

    let output = chunks_for_tree(&tree, "test.rs", source, &ChunkOptions { max_tokens: 1, max_chunks: 1_000 });

    assert_eq!(output.chunks.len(), 1);
    assert!(output.chunks[0].estimated_tokens > 1);
}

#[test]
fn parse_errors_emit_diagnostic_and_downgrade_confidence() {
    let source = b"fn broken(";
    let tree = parse_rust(source);

    let output = chunks_for_tree(&tree, "test.rs", source, &ChunkOptions::default());

    assert!(output.diagnostics.iter().any(|d| d.message.contains("syntax errors")));
    assert!(output.chunks.iter().all(|chunk| chunk.confidence == Confidence::Low));
}

#[test]
fn function_with_body_has_different_signature_and_body_hashes() {
    let source = b"fn foo() { let x = 1; }";
    let tree = parse_rust(source);

    let output = chunks_for_tree(&tree, "test.rs", source, &ChunkOptions::default());

    assert_eq!(output.chunks.len(), 1);
    let chunk = &output.chunks[0];
    assert_ne!(
        chunk.signature_hash, chunk.body_hash,
        "function with body should have different signature and body hashes"
    );
}

#[test]
fn type_alias_without_body_has_equal_hashes() {
    let source = b"type Foo = i32;";
    let tree = parse_rust(source);

    let output = chunks_for_tree(&tree, "test.rs", source, &ChunkOptions::default());

    assert_eq!(output.chunks.len(), 1);
    let chunk = &output.chunks[0];
    assert_eq!(
        chunk.signature_hash, chunk.body_hash,
        "type alias without body children should have signature_hash == body_hash"
    );
}

#[test]
fn nested_function_body_excluded_from_signature() {
    let source = b"fn outer() { fn inner() { let x = 1; } }";
    let tree = parse_rust(source);

    let output = chunks_for_tree(&tree, "test.rs", source, &ChunkOptions::default());

    assert_eq!(output.chunks.len(), 2);
    let outer = output.chunks.iter().find(|c| c.name.as_deref() == Some("outer")).unwrap();
    let inner = output.chunks.iter().find(|c| c.name.as_deref() == Some("inner")).unwrap();

    assert_ne!(
        outer.signature_hash, outer.body_hash,
        "outer function should have different signature and body hashes"
    );
    assert_ne!(
        inner.signature_hash, inner.body_hash,
        "inner function should have different signature and body hashes"
    );
}

#[test]
fn nested_chunk_records_parent_and_depth() {
    let source = b"impl Foo { fn bar() {} }";
    let tree = parse_rust(source);

    let output = chunks_for_tree(&tree, "src/lib.rs", source, &ChunkOptions::default());

    assert_eq!(output.chunks.len(), 2);
    assert_eq!(output.chunks[0].kind, "impl_item");
    assert_eq!(output.chunks[0].name.as_deref(), Some("Foo"));
    assert!(output.chunks[0].parent.is_none());
    assert_eq!(output.chunks[1].kind, "function_item");
    assert_eq!(output.chunks[1].name.as_deref(), Some("bar"));
    assert_eq!(output.chunks[1].parent.as_ref(), Some(&output.chunks[0].id));
    assert!(output.chunks[1].depth > output.chunks[0].depth);
    assert!(output.chunks[1].stable_id.0.starts_with("named:"));
    assert_eq!(output.chunks[1].id.path, "src/lib.rs");
}

#[test]
fn file_without_boundaries_falls_back_to_one_chunk() {
    let source = b"use std::io;";
    let tree = parse_rust(source);

    let output = chunks_for_tree(&tree, "a.rs", source, &ChunkOptions::default());

    assert_eq!(output.chunks.len(), 1);
    assert_eq!(output.chunks[0].kind, "source_file");
    assert_eq!(output.chunks[0].byte_range.start, 0);
    assert_eq!(output.chunks[0].byte_range.end, source.len());
    assert_eq!(output.chunks[0].estimated_tokens, 3);
    assert_eq!(output.diagnostics.len(), 1);
    assert_eq!(output.diagnostics[0].level, DiagnosticLevel::Info);
    assert_eq!(
        output.diagnostics[0].message,
        "no recognized chunk boundaries found; falling back to entire file as single chunk"
    );
}

#[test]
fn chunk_limit_stops_and_warns() {
    let source = b"fn a() {} fn b() {} fn c() {}";
    let tree = parse_rust(source);

    let output = chunks_for_tree(&tree, "a.rs", source, &ChunkOptions { max_tokens: 2_000, max_chunks: 2 });

    assert_eq!(output.chunks.len(), 2);
    assert_eq!(output.chunks[0].name.as_deref(), Some("a"));
    assert_eq!(output.chunks[1].name.as_deref(), Some("b"));
    assert_eq!(output.diagnostics.len(), 1);
    assert_eq!(output.diagnostics[0].level, DiagnosticLevel::Warning);
    assert_eq!(output.diagnostics[0].message, "chunk limit (2) reached; some boundaries were omitted");
}

#[test]
fn zero_chunk_limit_emits_nothing() {
    let source = b"fn a() {}";
    let tree = parse_rust(source);

    let output = chunks_for_tree(&tree, "a.rs", source, &ChunkOptions { max_tokens: 2_000, max_chunks: 0 });

    assert!(output.chunks.is_empty());
    assert_eq!(output.diagnostics.len(), 2);
    assert_eq!(output.diagnostics[0].level, DiagnosticLevel::Info);
    assert_eq!(output.diagnostics[1].message, "chunk limit (0) reached; some boundaries were omitted");
}

#[test]
fn hand_built_tree_uses_name_field_and_body_field() {
    // "fn f() {}" with the name under the `name` field and the block under `body`.
    let source = b"fn f() {}";
    let mut name = leaf("identifier", 3, 4, true);
    name.field_name = Some("name".to_string());
    let mut body = leaf("block", 7, 9, true);
    body.field_name = Some("body".to_string());
    let func = SyntaxNode {
        kind: "function_item".to_string(),
        start_byte: 0,
        end_byte: 9,
        is_named: true,
        field_name: None,
        children: vec![leaf("fn", 0, 2, false), name, leaf("parameters", 4, 6, true), body],
    };
    let tree = SyntaxTree {
        root: SyntaxNode {
            kind: "source_file".to_string(),
            start_byte: 0,
            end_byte: 9,
            is_named: true,
            field_name: None,
            children: vec![func],
        },
        has_error: false,
    };

    let output = chunks_for_tree(&tree, "x.rs", source, &ChunkOptions::default());

    assert_eq!(output.chunks.len(), 1);
    let chunk = &output.chunks[0];
    assert_eq!(chunk.name.as_deref(), Some("f"));
    assert_eq!(chunk.confidence, Confidence::Exact);
    assert_eq!(chunk.depth, 1);
    assert_eq!(chunk.estimated_tokens, 3);
    assert_eq!(chunk.signature_hash.len(), 32);
    assert_ne!(chunk.signature_hash, chunk.body_hash);
    assert!(output.diagnostics.is_empty());
}

#[test]
fn parsed_trees_fit_their_source_and_misplaced_children_do_not() {
    let source = b"fn foo() { let x = 1; }\nfn bar() {}\n";
    let tree = parse_rust(source);
    assert!(tree.fits(source.len()));
    assert!(!tree.fits(source.len() - 1));

    let mut root = leaf("source_file", 0, 10, true);
    root.children = vec![leaf("function_item", 0, 6, true), leaf("function_item", 4, 10, true)];
    let overlapping = SyntaxTree { root, has_error: false };
    assert!(!overlapping.fits(10));

    let mut root = leaf("source_file", 0, 10, true);
    root.children = vec![leaf("function_item", 0, 4, true), leaf("function_item", 4, 12, true)];
    let outside = SyntaxTree { root, has_error: false };
    assert!(!outside.fits(20));

    let mut root = leaf("source_file", 0, 10, true);
    root.children = vec![leaf("function_item", 0, 4, true), leaf("function_item", 4, 10, true)];
    let fine = SyntaxTree { root, has_error: false };
    assert!(fine.fits(10));
}
