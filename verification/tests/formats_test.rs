use tree_sitter_context::cli::formats::{CompactFormat, InvalidateFormat, OutlineFormat};

#[test]
fn unknown_invalidate_format_is_an_invalid_format_error() {
    let e = InvalidateFormat::from_str("yaml").unwrap_err();
    assert!(e.starts_with("invalid_format:"), "{e}");
    assert_eq!(e, "invalid_format: unsupported format: yaml. Only 'sexpr' and 'json' are supported");
    assert_eq!(InvalidateFormat::from_str("json"), Ok(InvalidateFormat::Json));
    assert_eq!(InvalidateFormat::from_str("sexpr"), Ok(InvalidateFormat::Sexpr));
}

#[test]
fn unknown_outline_format_is_an_invalid_format_error() {
    let e = OutlineFormat::from_str("yaml").unwrap_err();
    assert!(e.contains("invalid_format:"), "{e}");
    assert_eq!(OutlineFormat::from_str("json"), Ok(OutlineFormat::Json));
}

#[test]
fn unknown_compact_format_is_refused_without_a_kind_prefix() {
    let e = CompactFormat::from_str("xml").unwrap_err();
    assert_eq!(e, "unsupported format: xml. Only 'sexpr' and 'json' are supported");
    assert_eq!(CompactFormat::from_str("sexpr"), Ok(CompactFormat::Sexpr));
}
