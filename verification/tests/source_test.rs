use tree_sitter_context::chunk::ChunkOptions;
use tree_sitter_context::cli::bundle_cmd::bundle_source;
use tree_sitter_context::cli::graph_scan::{scan_source, ScanEvent};
use tree_sitter_context::compact::compact_sources;
use tree_sitter_context::invalidation::invalidate_sources;
use tree_sitter_context::parsing::{chunk_source, parse_source};
use tree_sitter_context::protocol::BundleResult;
use tree_sitter_context::schema::InvalidationStatus;
use tree_sitter_context::symbols::{symbols_for_tree, SymbolOptions};
use tree_sitter_tags::TagsConfiguration;

fn rust() -> tree_sitter::Language {
    tree_sitter::Language::new(tree_sitter_rust::LANGUAGE)
}

fn tags() -> TagsConfiguration {
    TagsConfiguration::new(rust(), "(function_item name: (identifier) @name) @definition.function", "").unwrap()
}

const SOURCE: &[u8] = b"fn alpha() {\n    1\n}\n\nfn beta(x: u32) -> u32 {\n    x\n}\n";

#[test]
fn parse_source_gives_a_tree_that_fits_its_source() {
    let (_tree, t) = parse_source(&rust(), SOURCE).unwrap().unwrap();
    assert!(t.fits(SOURCE.len()));
    assert_eq!(t.root.kind, "source_file");
    assert_eq!(t.root.end_byte, SOURCE.len());
    assert!(!t.has_error);
}

#[test]
fn chunk_source_chunks_the_parsed_file() {
    let out = chunk_source(&rust(), "src/lib.rs", SOURCE, &ChunkOptions::default()).unwrap().unwrap();
    let names: Vec<_> = out.chunks.iter().map(|c| c.name.clone().unwrap_or_default()).collect();
    assert_eq!(names, vec!["alpha".to_string(), "beta".to_string()]);
    assert!(out.chunks.iter().all(|c| c.id.path == "src/lib.rs"));
}

#[test]
fn symbols_for_tree_runs_the_tags_query_on_the_source() {
    let out = symbols_for_tree("src/lib.rs", SOURCE, &tags(), &SymbolOptions::default());
    let names: Vec<_> = out.symbols.iter().map(|s| s.name.clone()).collect();
    assert_eq!(names, vec!["alpha".to_string(), "beta".to_string()]);
    assert!(out.diagnostics.is_empty());
}

#[test]
fn bundle_source_answers_from_the_parsed_chunks() {
    let chunks = chunk_source(&rust(), "src/lib.rs", SOURCE, &ChunkOptions::default()).unwrap().unwrap();
    let id = chunks.chunks[1].stable_id.0.clone();
    let r = bundle_source(&rust(), "src/lib.rs", SOURCE, &id, 2000, 2000, "snap", "fresh").unwrap().unwrap();
    match r {
        BundleResult::Bundle(b) => {
            assert_eq!(b.cells[0].stable_id, id);
        }
        other => panic!("expected a bundle, got {other:?}"),
    }
    let missing = bundle_source(&rust(), "src/lib.rs", SOURCE, "named:nothing", 2000, 2000, "snap", "fresh").unwrap();
    assert!(matches!(missing, Some(BundleResult::NotFound(_))));
}

#[test]
fn scan_source_extracts_the_graph_record() {
    let tc = tags();
    let e = scan_source(&rust(), Some(&tc), "src/lib.rs".to_string(), "/r/src/lib.rs".to_string(), SOURCE, Some("h".to_string()))
        .unwrap();
    match e {
        ScanEvent::Extracted { relative, file } => {
            assert_eq!(relative, "src/lib.rs");
            assert_eq!(file.path, "src/lib.rs");
            assert_eq!(file.content_hash.as_deref(), Some("h"));
            assert_eq!(file.nodes.len(), 2);
            assert_eq!(file.symbols.len(), 2);
        }
        _ => panic!("expected an extracted file"),
    }
    let e = scan_source(&rust(), None, "src/lib.rs".to_string(), "/r/src/lib.rs".to_string(), SOURCE, None).unwrap();
    match e {
        ScanEvent::Extracted { file, .. } => {
            assert_eq!(file.symbols.len(), 0);
            assert!(file.diagnostics.iter().any(|d| d.message.contains("tags configuration unavailable")));
        }
        _ => panic!("expected an extracted file"),
    }
}

#[test]
fn invalidate_sources_classifies_the_edit() {
    let new = b"fn alpha() {\n    2\n}\n\nfn beta(x: u32) -> u32 {\n    x\n}\n";
    let out = invalidate_sources(&rust(), SOURCE, new, "src/lib.rs").unwrap();
    let alpha = out.records.iter().find(|r| r.chunk.name.as_deref() == Some("alpha")).unwrap();
    let beta = out.records.iter().find(|r| r.chunk.name.as_deref() == Some("beta")).unwrap();
    assert_eq!(alpha.status, InvalidationStatus::Affected);
    assert_eq!(beta.status, InvalidationStatus::Unchanged);
}

#[test]
fn compact_sources_keeps_changed_chunks_and_signatures_of_the_rest() {
    let new = b"fn alpha() {\n    2\n}\n\nfn beta(x: u32) -> u32 {\n    x\n}\n";
    let (file, _diagnostics) = compact_sources(&rust(), Some(&tags()), "src/lib.rs", SOURCE, new).unwrap();
    assert_eq!(file.preserved.len(), 1);
    assert_eq!(file.preserved[0].name.as_deref(), Some("alpha"));
    assert_eq!(file.signatures_only.len(), 1);
}
