use tree_sitter_context::chunk::{chunks_for_tree, ChunkOptions, SyntaxNode, SyntaxTree};
use tree_sitter_context::graph::extract::extract_graph_file;
use tree_sitter_context::schema::{ByteRange, Confidence, SymbolRecord};
use tree_sitter_context::symbols::SymbolsOutput;

fn convert(node: tree_sitter::Node) -> SyntaxNode {
    let count = node.child_count();
    let mut children = Vec::with_capacity(count as usize);
    for i in 0..count {
        let mut converted = convert(node.child(i).unwrap());
        converted.field_name = node.field_name_for_child(i).map(str::to_string);
        children.push(converted);
    }
    SyntaxNode {
        kind: node.kind().to_string(),
        start_byte: node.start_byte(),
        end_byte: node.end_byte(),
        is_named: node.is_named(),
        field_name: None,
        children,
    }
}

fn parse_rust(source: &[u8]) -> SyntaxTree {
    let mut parser = tree_sitter::Parser::new();
    parser.set_language(&tree_sitter::Language::new(tree_sitter_rust::LANGUAGE)).unwrap();
    let tree = parser.parse(source, None).unwrap();
    SyntaxTree { root: convert(tree.root_node()), has_error: tree.root_node().has_error() }
}

#[test]
fn happy_path_rust_function() {
    let source = b"fn foo() {}";
    let tree = parse_rust(source);
    let chunk_output = chunks_for_tree(&tree, "src/lib.rs", source, &ChunkOptions::default());

    let graph_file =
        extract_graph_file("src/lib.rs", source, &chunk_output, None, Some("file_hash".to_string()), false);

    assert_eq!(graph_file.path, "src/lib.rs");
    assert!(graph_file.content_hash.is_some());
    assert!(!graph_file.nodes.is_empty());

    let foo_node = graph_file.nodes.iter().find(|n| n.name.as_deref() == Some("foo"));
    assert!(foo_node.is_some(), "should have a node named foo");
    let foo_node = foo_node.unwrap();
    assert_eq!(foo_node.kind, "function_item");
    assert!(foo_node.signature_hash.is_some());
    assert!(foo_node.content_hash.is_some());
    assert_eq!(foo_node.confidence, Confidence::Exact);
}

#[test]
fn syntax_errors_downgrade_confidence() {
    let source = b"fn foo() { let x = ";
    let tree = parse_rust(source);
    let chunk_output = chunks_for_tree(&tree, "src/lib.rs", source, &ChunkOptions::default());

    let graph_file = extract_graph_file("src/lib.rs", source, &chunk_output, None, None, false);

    assert!(
        graph_file.diagnostics.iter().any(|d| d.message.contains("syntax errors")),
        "should have syntax error diagnostic"
    );
    assert!(graph_file.nodes.iter().any(|n| n.confidence == Confidence::Low), "should have low-confidence nodes");
}

#[test]
fn missing_tags_adds_diagnostic() {
    let source = b"fn foo() {}";
    let tree = parse_rust(source);
    let chunk_output = chunks_for_tree(&tree, "src/lib.rs", source, &ChunkOptions::default());

    let graph_file = extract_graph_file("src/lib.rs", source, &chunk_output, None, None, true);

    assert!(
        graph_file.diagnostics.iter().any(|d| d.message.contains("tags configuration unavailable")),
        "should have tags unavailable diagnostic"
    );
    assert!(!graph_file.nodes.is_empty(), "chunks should still be present");
}

#[test]
fn duplicate_stable_ids_get_low_confidence() {
    let source = b"
fn foo() {}
fn foo() {}
";
    let tree = parse_rust(source);
    let chunk_output = chunks_for_tree(&tree, "src/lib.rs", source, &ChunkOptions::default());

    let graph_file = extract_graph_file("src/lib.rs", source, &chunk_output, None, None, false);

    let foo_nodes: Vec<_> = graph_file.nodes.iter().filter(|n| n.name.as_deref() == Some("foo")).collect();
    assert_eq!(foo_nodes.len(), 2, "should have two foo nodes");
    assert_eq!(foo_nodes[0].stable_id, foo_nodes[1].stable_id);
    assert_eq!(foo_nodes[0].confidence, Confidence::Low);
    assert_eq!(foo_nodes[1].confidence, Confidence::Low);
}

#[test]
fn symbols_become_named_handles_and_hashes_are_hex() {
    let source = b"fn foo() {}";
    let tree = parse_rust(source);
    let chunk_output = chunks_for_tree(&tree, "src/lib.rs", source, &ChunkOptions::default());
    let symbols = SymbolsOutput {
        symbols: vec![SymbolRecord {
            name: "foo".to_string(),
            syntax_type: "function".to_string(),
            byte_range: ByteRange { start: 3, end: 6 },
            lines: ByteRange { start: 0, end: 1 },
            docs: None,
            is_definition: true,
            path: "src/lib.rs".to_string(),
            confidence: Confidence::Exact,
        }],
        diagnostics: vec![],
    };

    let graph_file = extract_graph_file("src/lib.rs", source, &chunk_output, Some(&symbols), None, false);

    assert_eq!(graph_file.symbols.len(), 1);
    let sym = &graph_file.symbols[0];
    assert_eq!(sym.node_handle.stable_id.0, "named:foo");
    assert_eq!(sym.node_handle.path, "src/lib.rs");
    assert_eq!(sym.node_handle.anchor_byte, 3);
    let node = &graph_file.nodes[0];
    let content = node.content_hash.as_ref().unwrap();
    assert_eq!(content.len(), 32);
    assert_eq!(content, &format!("{:032x}", xxhash_rust::xxh3::xxh3_128(source)));
}
