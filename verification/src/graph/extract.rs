//! Per-file graph extraction from chunk and symbol outputs.

use vstd::prelude::*;
use vstd::string::StringExecFns;

use crate::chunk::ChunkOutput;
use crate::dup::{dup_vec, Duplicate};
use crate::graph::snapshot::{xxh3_128_of, xxh3_hex, GraphFile, GraphNode, GraphNodeHandle, GraphSymbol};
use crate::identity::StableId;
use crate::schema::{ChunkRecord, Confidence, Diagnostic, DiagnosticLevel, SymbolRecord};
use crate::symbols::SymbolsOutput;
use crate::text::{copy_opt_string, copy_string, hex32, push_bytes, push_str, slice_range, utf8};

verus! {

/// The bytes whose digest is a chunk's signature hash: its stable
/// identifier, a NUL, its kind, a NUL and its name when it has one.
pub open spec fn signature_input(c: ChunkRecord) -> Seq<u8> {
    utf8(c.stable_id.0@) + seq![0u8] + utf8(c.kind@) + seq![0u8] + match c.name {
        Some(n) => utf8(n@),
        None => seq![],
    }
}

/// Whether another chunk of `chunks` shares the stable identifier of
/// chunk `i`.
pub open spec fn has_duplicate_id(chunks: Seq<ChunkRecord>, i: int) -> bool {
    exists|j: int| 0 <= j < chunks.len() && j != i && #[trigger] chunks[j].stable_id.0@ == chunks[i].stable_id.0@
}

/// Whether `n` is the graph node of chunk `c` of `source`: the chunk's
/// identity and range, a signature hash over `signature_input`, a content
/// hash over the chunk's bytes, and the chunk's confidence, lowered to
/// `Low` when its stable identifier is not unique in the file.
pub open spec fn is_node_of(n: GraphNode, c: ChunkRecord, source: Seq<u8>, duplicate: bool) -> bool {
    &&& n.path == c.id.path
    &&& n.stable_id == c.stable_id
    &&& n.kind == c.kind
    &&& n.name == c.name
    &&& n.anchor_byte == c.id.anchor_byte
    &&& n.byte_range == c.byte_range
    &&& n.signature_hash matches Some(h) && utf8(h@) == hex32(xxh3_128_of(signature_input(c)))
    &&& n.content_hash matches Some(h) && utf8(h@) == hex32(
        xxh3_128_of(source.subrange(c.byte_range.start as int, c.byte_range.end as int)),
    )
    &&& n.confidence == if duplicate {
        Confidence::Low
    } else {
        c.confidence
    }
}

/// Whether `g` is the graph symbol of `s` in the file at `path`: its
/// handle names the node `named:<name>` at the symbol's first byte.
pub open spec fn is_graph_symbol(g: GraphSymbol, s: SymbolRecord, path: Seq<char>) -> bool {
    &&& g.name == s.name
    &&& g.syntax_type == s.syntax_type
    &&& g.byte_range == s.byte_range
    &&& g.is_definition == s.is_definition
    &&& g.node_handle.path@ == path
    &&& g.node_handle.stable_id.0@ == "named:"@ + s.name@
    &&& g.node_handle.anchor_byte == s.byte_range.start
    &&& g.confidence == s.confidence
}

/// Every chunk range lies within the source.
pub open spec fn ranges_within(chunks: Seq<ChunkRecord>, len: nat) -> bool {
    forall|i: int|
        0 <= i < chunks.len() ==> #[trigger] chunks[i].byte_range.start <= chunks[i].byte_range.end
            && chunks[i].byte_range.end <= len
}

/// The signature hash of a chunk.
fn compute_signature_hash(chunk: &ChunkRecord) -> (h: String)
    ensures
        utf8(h@) == hex32(xxh3_128_of(signature_input(*chunk))),
{
    let mut input: Vec<u8> = Vec::new();
    push_str(&mut input, chunk.stable_id.0.as_str());
    input.push(0u8);
    push_str(&mut input, chunk.kind.as_str());
    input.push(0u8);
    if let Some(name) = &chunk.name {
        push_str(&mut input, name.as_str());
    }
    assert(input@ =~= signature_input(*chunk));
    xxh3_hex(input.as_slice())
}

/// The graph node of a chunk, with the chunk's own confidence.
fn chunk_to_node(chunk: &ChunkRecord, source: &[u8]) -> (n: GraphNode)
    requires
        chunk.byte_range.start <= chunk.byte_range.end <= source@.len(),
    ensures
        is_node_of(n, *chunk, source@, false),
{
    let text = slice_range(source, chunk.byte_range.start, chunk.byte_range.end);
    let content_hash = Some(xxh3_hex(text.as_slice()));
    let signature_hash = Some(compute_signature_hash(chunk));
    GraphNode {
        path: copy_string(&chunk.id.path),
        stable_id: StableId(copy_string(&chunk.stable_id.0)),
        kind: copy_string(&chunk.kind),
        name: copy_opt_string(&chunk.name),
        anchor_byte: chunk.id.anchor_byte,
        byte_range: chunk.byte_range,
        signature_hash,
        content_hash,
        confidence: chunk.confidence,
    }
}

/// Whether another chunk shares the stable identifier of chunk `i`.
fn duplicate_id(chunks: &Vec<ChunkRecord>, i: usize) -> (r: bool)
    requires
        i < chunks@.len(),
    ensures
        r == has_duplicate_id(chunks@, i as int),
{
    let mut j: usize = 0;
    while j < chunks.len()
        invariant
            j <= chunks@.len(),
            i < chunks@.len(),
            forall|k: int| 0 <= k < j && k != i ==> #[trigger] chunks@[k].stable_id.0@ != chunks@[i as int].stable_id.0@,
        decreases chunks@.len() - j,
    {
        if j != i && chunks[j].stable_id.0 == chunks[i].stable_id.0 {
            return true;
        }
        j = j + 1;
    }
    false
}

/// The graph symbol of a symbol record found in the file at `path`.
fn symbol_to_graph_symbol(sym: &SymbolRecord, path: &str) -> (g: GraphSymbol)
    ensures
        is_graph_symbol(g, *sym, path@),
{
    let id = "named:".to_owned().concat(sym.name.as_str());
    GraphSymbol {
        name: copy_string(&sym.name),
        syntax_type: copy_string(&sym.syntax_type),
        byte_range: sym.byte_range,
        is_definition: sym.is_definition,
        node_handle: GraphNodeHandle { path: path.to_owned(), stable_id: StableId(id), anchor_byte: sym.byte_range.start },
        confidence: sym.confidence,
    }
}

/// `f` is the graph record of the file at `path`: what
/// `extract_graph_file` gives.
pub open spec fn is_graph_file_of(
    f: GraphFile,
    path: Seq<char>,
    source: Seq<u8>,
    chunk_output: ChunkOutput,
    symbol_output: Option<SymbolsOutput>,
    content_hash: Option<String>,
    tags_unavailable: bool,
) -> bool {
    &&& f.path@ == path
    &&& f.content_hash == content_hash
    &&& f.nodes@.len() == chunk_output.chunks@.len()
    &&& forall|i: int|
        0 <= i < f.nodes@.len() ==> is_node_of(
            #[trigger] f.nodes@[i],
            chunk_output.chunks@[i],
            source,
            has_duplicate_id(chunk_output.chunks@, i),
        )
    &&& f.symbols@.len() == match symbol_output {
        Some(s) => s.symbols@.len(),
        None => 0,
    }
    &&& forall|i: int|
        0 <= i < f.symbols@.len() ==> is_graph_symbol(#[trigger] f.symbols@[i], symbol_output.unwrap().symbols@[i], path)
    &&& ({
        let k = chunk_output.diagnostics@.len();
        let t: int = if tags_unavailable {
            1
        } else {
            0
        };
        let extra = match symbol_output {
            Some(s) => s.diagnostics@,
            None => seq![],
        };
        &&& f.diagnostics@.len() == k + t + extra.len()
        &&& f.diagnostics@.subrange(0, k as int) == chunk_output.diagnostics@
        &&& tags_unavailable ==> f.diagnostics@[k as int].level == DiagnosticLevel::Warning
            && f.diagnostics@[k as int].message@ == "tags configuration unavailable; symbols omitted, chunks preserved"@
            && f.diagnostics@[k as int].context is None
        &&& f.diagnostics@.subrange(k + t, f.diagnostics@.len() as int) == extra
    })
}

/// Extract the graph record of one file from its chunking and symbol
/// outputs. `path` is repo-relative and `source` holds the file's bytes.
/// Nodes follow the chunks one for one; a node whose stable identifier
/// is shared by another node of the file has `Low` confidence. Symbols
/// follow the symbol records. The chunking diagnostics come first, then a
/// warning when tags are unavailable, then the symbol diagnostics.
pub fn extract_graph_file(
    path: &str,
    source: &[u8],
    chunk_output: &ChunkOutput,
    symbol_output: Option<&SymbolsOutput>,
    content_hash: Option<String>,
    tags_unavailable: bool,
) -> (f: GraphFile)
    requires
        ranges_within(chunk_output.chunks@, source@.len()),
    ensures
        f.path@ == path@,
        f.content_hash == content_hash,
        f.nodes@.len() == chunk_output.chunks@.len(),
        forall|i: int|
            0 <= i < f.nodes@.len() ==> is_node_of(
                #[trigger] f.nodes@[i],
                chunk_output.chunks@[i],
                source@,
                has_duplicate_id(chunk_output.chunks@, i),
            ),
        f.symbols@.len() == match symbol_output {
            Some(s) => s.symbols@.len(),
            None => 0,
        },
        forall|i: int|
            0 <= i < f.symbols@.len() ==> is_graph_symbol(
                #[trigger] f.symbols@[i],
                symbol_output.unwrap().symbols@[i],
                path@,
            ),
        ({
            let k = chunk_output.diagnostics@.len();
            let t: int = if tags_unavailable {
                1
            } else {
                0
            };
            let extra = match symbol_output {
                Some(s) => s.diagnostics@,
                None => seq![],
            };
            &&& f.diagnostics@.len() == k + t + extra.len()
            &&& f.diagnostics@.subrange(0, k as int) == chunk_output.diagnostics@
            &&& tags_unavailable ==> f.diagnostics@[k as int].level == DiagnosticLevel::Warning
                && f.diagnostics@[k as int].message@
                == "tags configuration unavailable; symbols omitted, chunks preserved"@
                && f.diagnostics@[k as int].context is None
            &&& f.diagnostics@.subrange(k + t, f.diagnostics@.len() as int) == extra
        }),
        is_graph_file_of(
            f,
            path@,
            source@,
            *chunk_output,
            match symbol_output {
                Some(s) => Some(*s),
                None => None,
            },
            content_hash,
            tags_unavailable,
        ),
{
    let chunks = &chunk_output.chunks;
    let mut diagnostics = dup_vec(&chunk_output.diagnostics);
    if tags_unavailable {
        diagnostics.push(Diagnostic::warn("tags configuration unavailable; symbols omitted, chunks preserved"));
    }
    let ghost before_symbols = diagnostics@;

    let mut nodes: Vec<GraphNode> = Vec::new();
    let mut i: usize = 0;
    while i < chunks.len()
        invariant
            i <= chunks@.len(),
            chunks == chunk_output.chunks,
            ranges_within(chunks@, source@.len()),
            nodes@.len() == i,
            forall|k: int|
                0 <= k < i ==> is_node_of(#[trigger] nodes@[k], chunks@[k], source@, has_duplicate_id(chunks@, k)),
        decreases chunks@.len() - i,
    {
        let c = &chunks[i];
        assert(c.byte_range.start <= c.byte_range.end <= source@.len());
        let mut n = chunk_to_node(c, source);
        if duplicate_id(chunks, i) {
            n.confidence = Confidence::Low;
        }
        nodes.push(n);
        i = i + 1;
    }

    let mut symbols: Vec<GraphSymbol> = Vec::new();
    if let Some(s) = symbol_output {
        let mut j: usize = 0;
        while j < s.symbols.len()
            invariant
                j <= s.symbols@.len(),
                symbol_output == Some(s),
                symbols@.len() == j,
                forall|k: int| 0 <= k < j ==> is_graph_symbol(#[trigger] symbols@[k], s.symbols@[k], path@),
            decreases s.symbols@.len() - j,
        {
            symbols.push(symbol_to_graph_symbol(&s.symbols[j], path));
            j = j + 1;
        }
        let mut d: usize = 0;
        while d < s.diagnostics.len()
            invariant
                d <= s.diagnostics@.len(),
                diagnostics@ == before_symbols + s.diagnostics@.take(d as int),
            decreases s.diagnostics@.len() - d,
        {
            diagnostics.push(s.diagnostics[d].dup());
            d = d + 1;
            assert(diagnostics@ =~= before_symbols + s.diagnostics@.take(d as int));
        }
        assert(s.diagnostics@.take(d as int) =~= s.diagnostics@);
    }
    proof {
        let k = chunk_output.diagnostics@.len();
        assert(diagnostics@.subrange(0, k as int) =~= chunk_output.diagnostics@);
        let t: int = if tags_unavailable {
            1
        } else {
            0
        };
        assert(diagnostics@.subrange(k + t, diagnostics@.len() as int) =~= match symbol_output {
            Some(s) => s.diagnostics@,
            None => seq![],
        });
    }
    GraphFile { path: path.to_owned(), content_hash, nodes, symbols, diagnostics }
}

} // verus!
