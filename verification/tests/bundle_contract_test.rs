use tree_sitter_context::bundle::{bundle_chunks, BundleOptions};
use tree_sitter_context::chunk::{chunks_for_tree, ChunkOptions, SyntaxNode, SyntaxTree};

fn convert(node: tree_sitter::Node) -> SyntaxNode {
    let count = node.child_count();
    let mut children = Vec::with_capacity(count as usize);
    for i in 0..count {
        let mut converted = convert(node.child(i).unwrap());
        converted.field_name = node.field_name_for_child(i).map(str::to_string);
        children.push(converted);
    }
    SyntaxNode {
        kind: node.kind().to_string(),
        start_byte: node.start_byte(),
        end_byte: node.end_byte(),
        is_named: node.is_named(),
        field_name: None,
        children,
    }
}

fn parse_rust(source: &[u8]) -> SyntaxTree {
    let mut parser = tree_sitter::Parser::new();
    parser.set_language(&tree_sitter::Language::new(tree_sitter_rust::LANGUAGE)).unwrap();
    let tree = parser.parse(source, None).unwrap();
    SyntaxTree { root: convert(tree.root_node()), has_error: tree.root_node().has_error() }
}

#[test]
fn ae4_honest_token_estimates_with_budget() {
    let source = b"fn huge() { let value = 1; let other = 2; let third = 3; }";
    let tree = parse_rust(source);
    let chunk_output = chunks_for_tree(&tree, "test.rs", source, &ChunkOptions { max_tokens: 1, max_chunks: 1_000 });

    assert_eq!(chunk_output.chunks.len(), 1);
    let true_estimate = chunk_output.chunks[0].estimated_tokens;
    assert!(true_estimate > 1, "true estimate must not be capped");

    let bundle = bundle_chunks(chunk_output.chunks, &BundleOptions { max_tokens: 1, max_chunks: 100 });

    assert!(bundle.included.is_empty());
    assert_eq!(bundle.omitted.len(), 1);
    assert_eq!(bundle.omitted[0].chunk.estimated_tokens, true_estimate);
}

#[test]
fn ae10_duplicate_stable_ids_are_observable_in_chunks() {
    let source = b"
fn foo() {}
fn foo() {}
";
    let tree = parse_rust(source);
    let chunk_output = chunks_for_tree(&tree, "test.rs", source, &ChunkOptions::default());

    let foo_chunks: Vec<_> = chunk_output.chunks.iter().filter(|c| c.name.as_deref() == Some("foo")).collect();
    assert_eq!(foo_chunks.len(), 2, "duplicate names must not be silently collapsed");
    assert_eq!(
        foo_chunks[0].stable_id, foo_chunks[1].stable_id,
        "same-name chunks in the same file must share stable_id for matching purposes"
    );
}

#[test]
fn bundle_budget_interaction_with_max_tokens() {
    let source = b"
fn small() {}
fn medium() { let x = 1; }
fn large() { let x = 1; let y = 2; let z = 3; }
";
    let tree = parse_rust(source);
    let chunk_output = chunks_for_tree(&tree, "test.rs", source, &ChunkOptions::default());

    let bundle = bundle_chunks(chunk_output.chunks, &BundleOptions { max_tokens: 500, max_chunks: 100 });

    assert!(bundle.total_included_tokens <= 500, "included tokens must not exceed budget");
    for om in &bundle.omitted {
        assert!(om.chunk.estimated_tokens > 0, "omitted chunk estimates must remain honest");
    }
}
