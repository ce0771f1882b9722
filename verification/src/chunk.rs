//! Chunking options and output, and the rules that decide where chunks
//! begin and how many tokens they cost.

use vstd::prelude::*;

pub mod tree;

pub use tree::{chunks_for_tree, SyntaxNode, SyntaxTree};

use crate::schema::{ChunkRecord, Diagnostic};
use crate::text::{bytes_eq, bytes_ends_with, ends_with, lit, utf8};

verus! {

/// Options for producing semantic chunks from a syntax tree.
#[derive(Clone, Debug)]
pub struct ChunkOptions {
    /// The maximum desired token count for a chunk; recorded, large
    /// syntax nodes are not split.
    pub max_tokens: usize,
    /// Maximum number of chunks to emit. Additional chunk boundaries are ignored.
    pub max_chunks: usize,
}

impl Default for ChunkOptions {
    fn default() -> (o: Self)
        ensures
            o.max_tokens == 2000,
            o.max_chunks == 1000,
    {
        ChunkOptions { max_tokens: 2_000, max_chunks: 1_000 }
    }
}

/// Output from a chunking pass.
#[derive(Clone, Debug)]
pub struct ChunkOutput {
    pub chunks: Vec<ChunkRecord>,
    pub diagnostics: Vec<Diagnostic>,
}

/// The token estimate for `n` bytes: a quarter of the bytes, rounded up,
/// and at least one.
pub open spec fn token_estimate(n: nat) -> nat {
    if n == 0 {
        1
    } else {
        ((n + 3) / 4) as nat
    }
}

/// A conservative token estimate for a chunk of `byte_len` bytes.
pub fn estimate_tokens(byte_len: usize) -> (t: usize)
    ensures
        t == token_estimate(byte_len as nat),
{
    let q = byte_len / 4 + if byte_len % 4 == 0 {
        0
    } else {
        1
    };
    if q == 0 {
        1
    } else {
        q
    }
}

/// Whether a node of kind `k` (its UTF-8 bytes) starts a chunk: one of
/// the declaration kinds that the supported grammars name, or any kind
/// ending in `_function` or `_method`.
pub open spec fn is_boundary_kind(k: Seq<u8>) -> bool {
    ||| k == lit("class_declaration")
    ||| k == lit("const_item")
    ||| k == lit("enum_declaration")
    ||| k == lit("enum_item")
    ||| k == lit("function_declaration")
    ||| k == lit("function_item")
    ||| k == lit("generator_function_declaration")
    ||| k == lit("impl_item")
    ||| k == lit("interface_declaration")
    ||| k == lit("macro_definition")
    ||| k == lit("method_definition")
    ||| k == lit("mod_item")
    ||| k == lit("module")
    ||| k == lit("static_item")
    ||| k == lit("struct_declaration")
    ||| k == lit("struct_item")
    ||| k == lit("trait_item")
    ||| k == lit("type_alias_declaration")
    ||| k == lit("type_item")
    ||| ends_with(k, lit("_function"))
    ||| ends_with(k, lit("_method"))
}

/// Whether a syntax node of this kind starts a chunk.
pub fn is_chunk_boundary_kind(kind: &str) -> (r: bool)
    ensures
        r == is_boundary_kind(utf8(kind@)),
{
    let k = kind.as_bytes();
    bytes_eq(k, "class_declaration".as_bytes()) || bytes_eq(k, "const_item".as_bytes()) || bytes_eq(
        k,
        "enum_declaration".as_bytes(),
    ) || bytes_eq(k, "enum_item".as_bytes()) || bytes_eq(k, "function_declaration".as_bytes()) || bytes_eq(
        k,
        "function_item".as_bytes(),
    ) || bytes_eq(k, "generator_function_declaration".as_bytes()) || bytes_eq(k, "impl_item".as_bytes())
        || bytes_eq(k, "interface_declaration".as_bytes()) || bytes_eq(k, "macro_definition".as_bytes())
        || bytes_eq(k, "method_definition".as_bytes()) || bytes_eq(k, "mod_item".as_bytes()) || bytes_eq(
        k,
        "module".as_bytes(),
    ) || bytes_eq(k, "static_item".as_bytes()) || bytes_eq(k, "struct_declaration".as_bytes()) || bytes_eq(
        k,
        "struct_item".as_bytes(),
    ) || bytes_eq(k, "trait_item".as_bytes()) || bytes_eq(k, "type_alias_declaration".as_bytes()) || bytes_eq(
        k,
        "type_item".as_bytes(),
    ) || bytes_ends_with(k, "_function".as_bytes()) || bytes_ends_with(k, "_method".as_bytes())
}

} // verus!
