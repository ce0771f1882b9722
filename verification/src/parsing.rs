//! Parsing source bytes with tree-sitter and querying their tags. The
//! parser, trees, nodes, languages and tag configurations are
//! tree-sitter's own types; the library reads a tree as a `SyntaxTree`
//! and the tags as `TagInfo` values.

use vstd::prelude::*;

use crate::chunk::tree::{chunks_for_tree, is_chunking, node_well_formed, wf_node};
use crate::chunk::{ChunkOptions, ChunkOutput, SyntaxNode, SyntaxTree};
use crate::schema::ByteRange;
use crate::symbols::{name_ranges_within, TagInfo};

verus! {

/// A tree-sitter grammar.
#[verifier::external_type_specification]
#[verifier::external_body]
pub struct ExLanguage(tree_sitter::Language);

/// A tree-sitter parser.
#[verifier::external_type_specification]
#[verifier::external_body]
pub struct ExParser(tree_sitter::Parser);

/// A tree that tree-sitter parsed.
#[verifier::external_type_specification]
#[verifier::external_body]
pub struct ExTree(tree_sitter::Tree);

/// A node of a tree-sitter tree.
#[verifier::external_type_specification]
#[verifier::external_body]
pub struct ExNode<'a>(tree_sitter::Node<'a>);

/// An edit of a tree's source, in bytes and rows and columns.
#[verifier::external_type_specification]
#[verifier::external_body]
pub struct ExInputEdit(tree_sitter::InputEdit);

/// A tags query of a grammar.
#[verifier::external_type_specification]
#[verifier::external_body]
pub struct ExTagsConfiguration(tree_sitter_tags::TagsConfiguration);

/// A new parser, with no language set: `Parser::new`.
#[verifier::external_body]
fn parser_new() -> (p: tree_sitter::Parser) {
    tree_sitter::Parser::new()
}

/// `Parser::set_language`; its error is returned as its message.
#[verifier::external_body]
fn parser_set_language(parser: &mut tree_sitter::Parser, language: &tree_sitter::Language) -> (r: Result<(), String>) {
    parser.set_language(language).map_err(|e| e.to_string())
}

/// `Parser::parse` of the whole of `source`, reusing `old`, an earlier
/// tree already edited to match `source`, where one is given.
#[verifier::external_body]
pub(crate) fn parser_parse(
    parser: &mut tree_sitter::Parser,
    source: &[u8],
    old: Option<&tree_sitter::Tree>,
) -> (t: Option<tree_sitter::Tree>) {
    parser.parse(source, old)
}

/// A copy of a tree: `Tree::clone`.
#[verifier::external_body]
pub(crate) fn tree_clone(tree: &tree_sitter::Tree) -> (t: tree_sitter::Tree) {
    tree.clone()
}

/// `Tree::edit`: move the tree's spans to account for one edit of its
/// source.
#[verifier::external_body]
pub(crate) fn tree_edit(tree: &mut tree_sitter::Tree, edit: &tree_sitter::InputEdit) {
    tree.edit(edit)
}

/// `Tree::root_node`.
#[verifier::external_body]
fn tree_root<'a>(tree: &'a tree_sitter::Tree) -> (n: tree_sitter::Node<'a>) {
    tree.root_node()
}

/// `Node::has_error`: whether the node holds a syntax error or a missing
/// node.
#[verifier::external_body]
fn node_has_error(node: &tree_sitter::Node) -> (r: bool) {
    node.has_error()
}

/// A node and its descendants as the library reads them: `Node::kind`,
/// `start_byte`, `end_byte`, `is_named`, and each child with the field
/// name `field_name_for_child` gives it, in order.
#[verifier::external_body]
fn syntax_node_of(node: tree_sitter::Node) -> (s: SyntaxNode) {
    let mut children = Vec::new();
    for i in 0..node.child_count() {
        if let Some(child) = node.child(i) {
            let mut c = syntax_node_of(child);
            c.field_name = node.field_name_for_child(i).map(str::to_string);
            children.push(c);
        }
    }
    let kind = node.kind().to_string();
    SyntaxNode { kind, start_byte: node.start_byte(), end_byte: node.end_byte(), is_named: node.is_named(), field_name: None, children }
}

/// The ranges that differ between two parses: `Tree::changed_ranges`,
/// each as its byte range.
#[verifier::external_body]
pub(crate) fn changed_ranges(old: &tree_sitter::Tree, new: &tree_sitter::Tree) -> (r: Vec<ByteRange>) {
    old.changed_ranges(new).map(|c| ByteRange { start: c.start_byte, end: c.end_byte }).collect()
}

/// The tags that `TagsContext::generate_tags` finds in `source`, each
/// with its syntax type named by `TagsConfiguration::syntax_type_name`;
/// a failed query or tag gives its message.
#[verifier::external_body]
pub(crate) fn generate_tags(config: &tree_sitter_tags::TagsConfiguration, source: &[u8]) -> (r: Result<
    Vec<Result<TagInfo, String>>,
    String,
>) {
    let mut context = tree_sitter_tags::TagsContext::new();
    let (tags, _) = context.generate_tags(config, source, None).map_err(|e| e.to_string())?;
    Ok(tags.map(|t| t.map(|t| TagInfo {
        range: ByteRange { start: t.range.start, end: t.range.end },
        name_range: ByteRange { start: t.name_range.start, end: t.name_range.end },
        line_range: ByteRange { start: t.line_range.start, end: t.line_range.end },
        docs: t.docs.clone(),
        is_definition: t.is_definition,
        syntax_type: config.syntax_type_name(t.syntax_type_id).to_string(),
    }).map_err(|e| e.to_string())).collect())
}

/// A tree as the library reads it, where its spans fit `source`.
pub(crate) fn read_tree(tree: &tree_sitter::Tree, source: &[u8]) -> (r: Option<SyntaxTree>)
    ensures
        r matches Some(t) ==> wf_node(t.root, source@.len(), 0),
{
    let root = tree_root(tree);
    let t = SyntaxTree { root: syntax_node_of(root), has_error: node_has_error(&root) };
    if node_well_formed(&t.root, source.len(), 0) {
        Some(t)
    } else {
        None
    }
}

/// Parse `source` with `language`, keeping the parse. `Err` carries the
/// message of a language the parser refused; `Ok(None)` means the parser
/// gave no tree, or a tree whose spans do not fit the source, which the
/// library cannot read. A tree that comes back fits its source.
pub fn parse_source(language: &tree_sitter::Language, source: &[u8]) -> (r: Result<
    Option<(tree_sitter::Tree, SyntaxTree)>,
    String,
>)
    ensures
        r matches Ok(Some((_, t))) ==> wf_node(t.root, source@.len(), 0),
{
    let mut parser = parser_new();
    match parser_set_language(&mut parser, language) {
        Err(e) => Err(e),
        Ok(()) => match parser_parse(&mut parser, source, None) {
            None => Ok(None),
            Some(tree) => match read_tree(&tree, source) {
                None => Ok(None),
                Some(t) => Ok(Some((tree, t))),
            },
        },
    }
}

/// Whether every name range of the tags lies within `len` bytes, in
/// order.
pub fn tags_fit(tags: &Result<Vec<Result<TagInfo, String>>, String>, len: usize) -> (r: bool)
    ensures
        r == (tags matches Ok(ts) ==> name_ranges_within(ts@, len as nat)),
{
    match tags {
        Err(_) => true,
        Ok(ts) => {
            let mut i: usize = 0;
            while i < ts.len()
                invariant
                    i <= ts@.len(),
                    tags matches Ok(x) && x@ == ts@,
                    name_ranges_within(ts@.take(i as int), len as nat),
                decreases ts@.len() - i,
            {
                assert(ts@.take(i + 1).drop_last() =~= ts@.take(i as int));
                let fits = match &ts[i] {
                    Ok(t) => t.name_range.start <= t.name_range.end && t.name_range.end <= len,
                    Err(_) => true,
                };
                if !fits {
                    assert(!(ts@[i as int] matches Ok(t) ==> t.name_range.start <= t.name_range.end
                        && t.name_range.end <= len));
                    assert(!name_ranges_within(ts@, len as nat));
                    return false;
                }
                assert forall|k: int| 0 <= k < i + 1 implies (#[trigger] ts@.take(i + 1)[k] matches Ok(t)
                    ==> t.name_range.start <= t.name_range.end && t.name_range.end <= len) by {
                    if k < i {
                        assert(ts@.take(i + 1)[k] == ts@.take(i as int)[k]);
                    }
                }
                i = i + 1;
            }
            assert(ts@.take(ts@.len() as int) =~= ts@);
            true
        },
    }
}

/// `co` is the chunking of some tree that fits `source`.
pub open spec fn is_source_chunking(co: ChunkOutput, path: Seq<char>, source: Seq<u8>, options: ChunkOptions) -> bool {
    exists|t: SyntaxTree| wf_node(t.root, source.len(), 0) && #[trigger] is_chunking(co, t, path, source, options)
}

/// Parse `source` with `language` and chunk the tree for the file at
/// `path` with `options`. `Ok(None)` means the parser gave no tree that
/// fits the source; `Err` is a language the parser refused.
pub fn chunk_source(language: &tree_sitter::Language, path: &str, source: &[u8], options: &ChunkOptions) -> (r: Result<
    Option<ChunkOutput>,
    String,
>)
    ensures
        r matches Ok(Some(co)) ==> is_source_chunking(co, path@, source@, *options),
{
    let parsed = parse_source(language, source);
    match parsed {
        Err(e) => Err(e),
        Ok(None) => Ok(None),
        Ok(Some(pair)) => {
            let t = pair.1;
            let out = chunks_for_tree(&t, path, source, options);
            assert(wf_node(t.root, source@.len(), 0));
            assert(is_chunking(out, t, path@, source@, *options));
            Ok(Some(out))
        },
    }
}

/// Why a pair of sources could not be read as trees.
#[derive(Clone, Debug, PartialEq, Eq)]
pub enum SourceFailure {
    /// The parser refused the language; its message.
    Language(String),
    /// The parser gave no tree that fits the old source.
    OldUnparsed,
    /// The parser gave no tree that fits the new source.
    NewUnparsed,
}

/// Parse an old and a new source with `language`, the old one first when
/// `old_first` holds, and stop at the first that fails.
pub fn parse_pair(language: &tree_sitter::Language, old_source: &[u8], new_source: &[u8], old_first: bool) -> (r: Result<
    (tree_sitter::Tree, SyntaxTree, tree_sitter::Tree, SyntaxTree),
    SourceFailure,
>)
    ensures
        r matches Ok((_, ot, _, nt)) ==> wf_node(ot.root, old_source@.len(), 0) && wf_node(nt.root, new_source@.len(), 0),
{
    if old_first {
        let (old_tree, ot) = match parse_source(language, old_source) {
            Err(e) => return Err(SourceFailure::Language(e)),
            Ok(None) => return Err(SourceFailure::OldUnparsed),
            Ok(Some(p)) => p,
        };
        let (new_tree, nt) = match parse_source(language, new_source) {
            Err(e) => return Err(SourceFailure::Language(e)),
            Ok(None) => return Err(SourceFailure::NewUnparsed),
            Ok(Some(p)) => p,
        };
        Ok((old_tree, ot, new_tree, nt))
    } else {
        let (new_tree, nt) = match parse_source(language, new_source) {
            Err(e) => return Err(SourceFailure::Language(e)),
            Ok(None) => return Err(SourceFailure::NewUnparsed),
            Ok(Some(p)) => p,
        };
        let (old_tree, ot) = match parse_source(language, old_source) {
            Err(e) => return Err(SourceFailure::Language(e)),
            Ok(None) => return Err(SourceFailure::OldUnparsed),
            Ok(Some(p)) => p,
        };
        Ok((old_tree, ot, new_tree, nt))
    }
}

/// Every tag's range starts no later than it ends.
pub open spec fn tag_ranges_in_order(tags: Seq<Result<TagInfo, String>>) -> bool {
    forall|i: int| 0 <= i < tags.len() ==> (#[trigger] tags[i] matches Ok(t) ==> t.range.start <= t.range.end)
}

/// Whether every tag's range starts no later than it ends.
pub fn tags_in_order(tags: &Result<Vec<Result<TagInfo, String>>, String>) -> (r: bool)
    ensures
        r == (tags matches Ok(ts) ==> tag_ranges_in_order(ts@)),
{
    match tags {
        Err(_) => true,
        Ok(ts) => {
            let mut i: usize = 0;
            while i < ts.len()
                invariant
                    i <= ts@.len(),
                    tags matches Ok(x) && x@ == ts@,
                    tag_ranges_in_order(ts@.take(i as int)),
                decreases ts@.len() - i,
            {
                assert(ts@.take(i + 1).drop_last() =~= ts@.take(i as int));
                let ordered = match &ts[i] {
                    Ok(t) => t.range.start <= t.range.end,
                    Err(_) => true,
                };
                if !ordered {
                    assert(!(ts@[i as int] matches Ok(t) ==> t.range.start <= t.range.end));
                    assert(!tag_ranges_in_order(ts@));
                    return false;
                }
                assert forall|k: int| 0 <= k < i + 1 implies (#[trigger] ts@.take(i + 1)[k] matches Ok(t)
                    ==> t.range.start <= t.range.end) by {
                    if k < i {
                        assert(ts@.take(i + 1)[k] == ts@.take(i as int)[k]);
                    }
                }
                i = i + 1;
            }
            assert(ts@.take(ts@.len() as int) =~= ts@);
            true
        },
    }
}

} // verus!
