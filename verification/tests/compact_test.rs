use tree_sitter_context::chunk::{SyntaxNode, SyntaxTree};
use tree_sitter_context::compact::{
    compact_files, compact_single_file, CompactError, CompactInput, CompactOptions,
};
use tree_sitter_context::schema::{ByteRange, CompactChunkRecord, CompactOutput, DiagnosticLevel};
use tree_sitter_context::symbols::TagInfo;
use tree_sitter_tags::{TagsConfiguration, TagsContext};

fn convert(node: tree_sitter::Node) -> SyntaxNode {
    let count = node.child_count();
    let mut children = Vec::with_capacity(count as usize);
    for i in 0..count {
        let mut converted = convert(node.child(i).unwrap());
        converted.field_name = node.field_name_for_child(i).map(str::to_string);
        children.push(converted);
    }
    SyntaxNode {
        kind: node.kind().to_string(),
        start_byte: node.start_byte(),
        end_byte: node.end_byte(),
        is_named: node.is_named(),
        field_name: None,
        children,
    }
}

fn rust_language() -> tree_sitter::Language {
    tree_sitter::Language::new(tree_sitter_rust::LANGUAGE)
}

fn rust_tags(source: &[u8]) -> Result<Vec<Result<TagInfo, String>>, String> {
    let config =
        TagsConfiguration::new(rust_language(), "(function_item name: (identifier) @name) @definition.function", "")
            .unwrap();
    let mut context = TagsContext::new();
    let (tags, _) = context.generate_tags(&config, source, None).map_err(|e| e.to_string())?;
    Ok(tags
        .map(|tag| {
            tag.map(|t| TagInfo {
                range: ByteRange { start: t.range.start, end: t.range.end },
                name_range: ByteRange { start: t.name_range.start, end: t.name_range.end },
                line_range: ByteRange { start: t.line_range.start, end: t.line_range.end },
                docs: t.docs.clone(),
                is_definition: t.is_definition,
                syntax_type: config.syntax_type_name(t.syntax_type_id).to_string(),
            })
            .map_err(|e| e.to_string())
        })
        .collect())
}

fn compact_input(path: &str, old_source: &[u8], new_source: &[u8]) -> CompactInput {
    let mut parser = tree_sitter::Parser::new();
    parser.set_language(&rust_language()).unwrap();
    let old_tree = parser.parse(old_source, None).unwrap();
    let new_tree = parser.parse(new_source, None).unwrap();
    let ranges: Vec<ByteRange> =
        old_tree.changed_ranges(&new_tree).map(|r| ByteRange { start: r.start_byte, end: r.end_byte }).collect();
    let old = SyntaxTree { root: convert(old_tree.root_node()), has_error: old_tree.root_node().has_error() };
    let new = SyntaxTree { root: convert(new_tree.root_node()), has_error: new_tree.root_node().has_error() };
    let (file, diagnostics) =
        compact_single_file(path, &old, &new, old_source, new_source, &ranges, Some(rust_tags(new_source)));
    CompactInput::Compacted { file, diagnostics }
}

fn compact(old_source: &[u8], new_source: &[u8], budget: Option<usize>) -> Result<CompactOutput, CompactError> {
    compact_files(vec![compact_input("src/lib.rs", old_source, new_source)], &CompactOptions { budget })
}

#[test]
fn body_only_change_preserves_affected() {
    let result = compact(
        b"fn foo() { let x = 1; }\nfn bar() { let y = 2; }",
        b"fn foo() { let x = 1; let z = 3; }\nfn bar() { let y = 2; }",
        None,
    )
    .unwrap();

    assert_eq!(result.files.len(), 1);
    let file = &result.files[0];
    assert!(!file.preserved.is_empty(), "expected at least one preserved chunk for body change");
    assert!(!file.signatures_only.is_empty(), "expected at least one signature-only chunk for unchanged function");
}

#[test]
fn signature_change_adds_and_removes() {
    let result = compact(b"fn foo() {}", b"fn foo(x: i32) {}", None).unwrap();

    assert_eq!(result.files.len(), 1);
    let file = &result.files[0];
    assert!(!file.preserved.is_empty(), "expected preserved chunks for signature change");
}

#[test]
fn whitespace_only_all_signatures() {
    let result = compact(b"fn foo() { let x = 1; }", b"fn foo() {\n    let x = 1;\n}", None).unwrap();

    assert_eq!(result.files.len(), 1);
    let file = &result.files[0];
    assert!(!file.signatures_only.is_empty(), "expected signature-only chunks for whitespace-only change");
}

#[test]
fn budget_forces_omission() {
    let result = compact(
        b"fn foo() { let x = 1; }\nfn bar() { let y = 2; }",
        b"fn foo() { let x = 1; let z = 3; }\nfn bar() { let y = 2; }",
        Some(5),
    );

    match result {
        Ok(output) => {
            assert!(
                !output.omitted.is_empty() || !output.files[0].omitted.is_empty(),
                "expected some chunks to be omitted with tight budget"
            );
        }
        Err(e) => {
            let msg = e.message();
            assert!(msg.contains("budget_exceeded"), "expected budget_exceeded error, got: {}", msg);
        }
    }
}

#[test]
fn unchanged_function_keeps_its_signature_line() {
    let source = b"fn bar(y: u8) -> u8\n{\n    y\n}";
    let result = compact(source, source, None).unwrap();
    let file = &result.files[0];
    assert!(file.preserved.is_empty());
    assert_eq!(file.signatures_only.len(), 1);
    match &file.signatures_only[0] {
        CompactChunkRecord::SignatureOnly { signature, .. } => assert_eq!(signature, "fn bar(y: u8) -> u8"),
        CompactChunkRecord::Preserved { .. } => panic!("expected a signature"),
    }
    assert_eq!(result.original_tokens, file.original_tokens);
}

#[test]
fn inputs_that_were_not_compacted_become_errors() {
    let inputs = vec![
        CompactInput::MissingOldContent { path: "a.rs".to_string() },
        CompactInput::NoLanguage { path: "b.txt".to_string() },
        compact_input("src/lib.rs", b"fn foo() {}", b"fn foo() {}"),
    ];
    let output = compact_files(inputs, &CompactOptions { budget: None }).unwrap();
    assert_eq!(output.files.len(), 1);
    assert_eq!(output.diagnostics[0].level, DiagnosticLevel::Error);
    assert_eq!(output.diagnostics[0].message, "missing_old_content: no old content provided for a.rs");
    assert_eq!(output.diagnostics[1].message, "no_language: no language configuration for b.txt");
}
