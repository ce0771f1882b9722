use tree_sitter::{InputEdit, Point};
use tree_sitter_context::invalidation::{invalidate_edits, invalidate_sources};
use tree_sitter_context::parsing::SourceFailure;
use tree_sitter_context::schema::{Confidence, InvalidationOutput};

fn rust() -> tree_sitter::Language {
    tree_sitter::Language::new(tree_sitter_rust::LANGUAGE)
}

fn invalidate(old_source: &[u8], new_source: &[u8]) -> InvalidationOutput {
    invalidate_sources(&rust(), old_source, new_source, "test.rs").unwrap()
}

fn invalidate_edit_stream(old_source: &[u8], new_source: &[u8], edits: &[InputEdit]) -> InvalidationOutput {
    let mut parser = tree_sitter::Parser::new();
    parser.set_language(&rust()).unwrap();
    let old_tree = parser.parse(old_source, None).unwrap();
    invalidate_edits(&mut parser, &old_tree, old_source, new_source, edits, "test.rs").unwrap()
}

#[test]
fn body_only_change() {
    let output = invalidate(b"fn foo() { let x = 1; }", b"fn foo() { let x = 1; let y = 2; }");
    assert_eq!(output.affected.len(), 1, "expected 1 affected chunk, got {:?}", output.affected);
    assert!(output.added.is_empty());
    assert!(output.removed.is_empty());
}

#[test]
fn signature_change() {
    let output = invalidate(b"fn foo() {}", b"fn foo(x: i32) {}");
    assert_eq!(output.affected.len(), 1, "expected 1 affected chunk, got {:?}", output.affected);
    assert!(output.added.is_empty());
    assert!(output.removed.is_empty());
}

#[test]
fn comment_inside_body_change() {
    let output = invalidate(b"fn foo() { let x = 1; }", b"fn foo() { let x = 1; /* note */ }");
    assert_eq!(output.affected.len(), 1, "expected 1 affected chunk, got {:?}", output.affected);
}

#[test]
fn whitespace_only_change() {
    let output = invalidate(b"fn foo() { let x = 1; }", b"fn foo() {\n    let x = 1;\n}");
    assert!(output.affected.is_empty(), "expected 0 affected chunks, got {:?}", output.affected);
}

#[test]
fn edit_sequence_correctness() {
    let edits = vec![
        InputEdit {
            start_byte: 3,
            old_end_byte: 6,
            new_end_byte: 6,
            start_position: Point::new(0, 3),
            old_end_position: Point::new(0, 6),
            new_end_position: Point::new(0, 6),
        },
        InputEdit {
            start_byte: 19,
            old_end_byte: 20,
            new_end_byte: 20,
            start_position: Point::new(0, 19),
            old_end_position: Point::new(0, 20),
            new_end_position: Point::new(0, 20),
        },
    ];
    let output = invalidate_edit_stream(b"fn foo() { let x = 1; }", b"fn bar() { let x = 2; }", &edits);

    assert_eq!(output.added.len(), 1, "expected 1 added chunk, got {:?}", output.added);
    assert_eq!(output.removed.len(), 1, "expected 1 removed chunk");
    assert!(output.affected.is_empty(), "expected 0 affected chunks, got {:?}", output.affected);
    assert_eq!(output.added[0].confidence, Confidence::Medium);
}

#[test]
fn edit_length_change() {
    let edits = vec![InputEdit {
        start_byte: 19,
        old_end_byte: 20,
        new_end_byte: 21,
        start_position: Point::new(0, 19),
        old_end_position: Point::new(0, 20),
        new_end_position: Point::new(0, 21),
    }];
    let output = invalidate_edit_stream(b"fn foo() { let x = 1; }", b"fn foo() { let x = 10; }", &edits);

    assert_eq!(output.affected.len(), 1, "expected 1 affected chunk, got {:?}", output.affected);
    assert!(output.added.is_empty());
    assert!(output.removed.is_empty());
    assert_eq!(output.affected[0].confidence, Confidence::Medium);
    assert!(output.diagnostics.last().unwrap().message.starts_with("edit-stream invalidation"));
}

#[test]
fn literal_only_change() {
    let output = invalidate(b"fn foo() { let x = \"foo\"; }", b"fn foo() { let x = \"bar\"; }");
    assert!(!output.affected.is_empty(), "expected at least 1 affected chunk, got {:?}", output.affected);
}

#[test]
fn identical_sources_report_no_changed_ranges() {
    let output = invalidate(b"fn foo() {}", b"fn foo() {}");
    assert!(output.affected.is_empty());
    assert_eq!(output.unchanged.len(), 1);
    assert_eq!(output.meta.total_chunks, 1);
    assert_eq!(output.meta.schema_version, "0.1.0");
    assert_eq!(output.diagnostics[0].message, "no changed ranges detected between snapshots");
}

#[test]
fn edit_stream_without_a_language_is_not_reparsed() {
    let mut parser = tree_sitter::Parser::new();
    parser.set_language(&rust()).unwrap();
    let old_tree = parser.parse(b"fn foo() {}", None).unwrap();
    let mut bare = tree_sitter::Parser::new();
    let r = invalidate_edits(&mut bare, &old_tree, b"fn foo() {}", b"fn foo() {}", &[], "test.rs");
    assert!(matches!(r, Err(SourceFailure::NewUnparsed)));
}

#[test]
fn edit_stream_with_a_tree_of_another_source_is_refused() {
    let mut parser = tree_sitter::Parser::new();
    parser.set_language(&rust()).unwrap();
    let old_tree = parser.parse(b"fn foo() { let x = 1; }", None).unwrap();
    let r = invalidate_edits(&mut parser, &old_tree, b"fn f() {}", b"fn foo() { let x = 1; }", &[], "test.rs");
    assert!(matches!(r, Err(SourceFailure::OldUnparsed)));
}

#[test]
fn edit_stream_notes_the_downgrade() {
    let output = invalidate_edit_stream(b"fn foo() {}", b"fn foo() {}", &[]);
    assert!(output.affected.is_empty());
    let last = output.diagnostics.last().unwrap();
    assert_eq!(
        last.message,
        "edit-stream invalidation: confidence downgraded to Medium because incremental parse may miss some changes"
    );
}
