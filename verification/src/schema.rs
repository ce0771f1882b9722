//! Records produced by the context engine: chunks, symbols, diagnostics,
//! invalidation and compaction outputs.

use vstd::prelude::*;

use crate::identity::StableId;
use crate::text::{copy_opt_string, copy_string};

verus! {

/// Confidence level for a chunk or invalidation result.
#[derive(Clone, Copy, Debug, PartialEq, Eq, Structural)]
pub enum Confidence {
    /// Exact match with no ambiguity.
    Exact,
    /// Strong heuristic match, but not guaranteed.
    High,
    /// Best-effort match with known limitations.
    Medium,
    /// Fallback or degraded result.
    Low,
}

impl Default for Confidence {
    fn default() -> (r: Self)
        ensures
            r == Confidence::Medium,
    {
        Confidence::Medium
    }
}

/// Severity level for a diagnostic.
#[derive(Clone, Copy, Debug, PartialEq, Eq, Structural)]
pub enum DiagnosticLevel {
    Info,
    Warning,
    Error,
}

/// A diagnostic message attached to engine output.
#[derive(Clone, Debug, PartialEq, Eq)]
pub struct Diagnostic {
    pub level: DiagnosticLevel,
    pub message: String,
    pub context: Option<String>,
}

impl Diagnostic {
    /// A diagnostic with the given level and message and no context.
    pub fn with_level(level: DiagnosticLevel, message: String) -> (d: Self)
        ensures
            d.level == level,
            d.message == message,
            d.context is None,
    {
        Diagnostic { level, message, context: None }
    }

    /// An informational diagnostic without context.
    pub fn info(message: &str) -> (d: Self)
        ensures
            d.level == DiagnosticLevel::Info,
            d.message@ == message@,
            d.context is None,
    {
        Diagnostic { level: DiagnosticLevel::Info, message: message.to_owned(), context: None }
    }

    /// A warning diagnostic without context.
    pub fn warn(message: &str) -> (d: Self)
        ensures
            d.level == DiagnosticLevel::Warning,
            d.message@ == message@,
            d.context is None,
    {
        Diagnostic { level: DiagnosticLevel::Warning, message: message.to_owned(), context: None }
    }

    /// An error diagnostic without context.
    pub fn error(message: &str) -> (d: Self)
        ensures
            d.level == DiagnosticLevel::Error,
            d.message@ == message@,
            d.context is None,
    {
        Diagnostic { level: DiagnosticLevel::Error, message: message.to_owned(), context: None }
    }

    /// A copy of this diagnostic.
    pub fn copy(&self) -> (d: Self)
        ensures
            d == *self,
    {
        Diagnostic { level: self.level, message: copy_string(&self.message), context: copy_opt_string(&self.context) }
    }

    /// The same diagnostic with `context` attached.
    pub fn with_context(self, context: &str) -> (d: Self)
        ensures
            d.level == self.level,
            d.message == self.message,
            d.context matches Some(c) && c@ == context@,
    {
        let mut d = self;
        d.context = Some(context.to_owned());
        d
    }
}

/// A byte range within a source file.
#[derive(Clone, Copy, Debug, PartialEq, Eq, Structural)]
pub struct ByteRange {
    pub start: usize,
    pub end: usize,
}

impl From<core::ops::Range<usize>> for ByteRange {
    fn from(r: core::ops::Range<usize>) -> (b: Self) {
        ByteRange { start: r.start, end: r.end }
    }
}

impl vstd::std_specs::convert::FromSpecImpl<core::ops::Range<usize>> for ByteRange {
    open spec fn obeys_from_spec() -> bool {
        true
    }

    open spec fn from_spec(r: core::ops::Range<usize>) -> ByteRange {
        ByteRange { start: r.start, end: r.end }
    }
}

impl ByteRange {
    /// The length in bytes, or zero when `end` precedes `start`.
    pub open spec fn spec_len(&self) -> nat {
        if self.end >= self.start {
            (self.end - self.start) as nat
        } else {
            0
        }
    }

    /// The length in bytes, or zero when `end` precedes `start`.
    pub fn len(&self) -> (n: usize)
        ensures
            n == self.spec_len(),
    {
        self.end.saturating_sub(self.start)
    }

    /// Whether the range holds no byte.
    pub fn is_empty(&self) -> (b: bool)
        ensures
            b == (self.spec_len() == 0),
    {
        self.len() == 0
    }
}

/// Stable identifier for a chunk's position within one parse run.
#[derive(Clone, Debug, PartialEq, Eq, Hash)]
pub struct ChunkId {
    pub path: String,
    pub kind: String,
    pub name: Option<String>,
    pub anchor_byte: usize,
}

/// A single chunk of code context, ready for serialization or bundling.
#[derive(Clone, Debug, PartialEq, Eq)]
pub struct ChunkRecord {
    pub id: ChunkId,
    pub stable_id: StableId,
    pub kind: String,
    pub name: Option<String>,
    pub byte_range: ByteRange,
    pub estimated_tokens: usize,
    pub confidence: Confidence,
    /// Nesting depth in the syntax tree (0 = top-level declaration).
    pub depth: usize,
    /// Parent chunk identifier, if this chunk is nested inside another chunk.
    pub parent: Option<ChunkId>,
    /// Hash of the chunk text without its body children.
    pub signature_hash: String,
    /// Hash of the chunk's body children (the signature hash when there is no body).
    pub body_hash: String,
}

impl ChunkId {
    /// A copy of this identifier.
    pub fn copy(&self) -> (r: Self)
        ensures
            r == *self,
    {
        ChunkId {
            path: copy_string(&self.path),
            kind: copy_string(&self.kind),
            name: copy_opt_string(&self.name),
            anchor_byte: self.anchor_byte,
        }
    }
}

/// A copy of an optional chunk identifier.
pub fn copy_opt_chunk_id(c: &Option<ChunkId>) -> (r: Option<ChunkId>)
    ensures
        r == *c,
{
    match c {
        Some(x) => Some(x.copy()),
        None => None,
    }
}

impl ChunkRecord {
    /// A copy of this record.
    pub fn copy(&self) -> (r: Self)
        ensures
            r == *self,
    {
        ChunkRecord {
            id: self.id.copy(),
            stable_id: StableId(copy_string(&self.stable_id.0)),
            kind: copy_string(&self.kind),
            name: copy_opt_string(&self.name),
            byte_range: self.byte_range,
            estimated_tokens: self.estimated_tokens,
            confidence: self.confidence,
            depth: self.depth,
            parent: copy_opt_chunk_id(&self.parent),
            signature_hash: copy_string(&self.signature_hash),
            body_hash: copy_string(&self.body_hash),
        }
    }
}

/// Metadata about the output payload.
#[derive(Clone, Debug, PartialEq, Eq)]
pub struct OutputMeta {
    pub schema_version: String,
    pub source_path: Option<String>,
    pub total_chunks: usize,
    pub total_estimated_tokens: usize,
}

/// A symbol (definition or reference) extracted from a source file.
#[derive(Clone, Debug, PartialEq, Eq)]
pub struct SymbolRecord {
    pub name: String,
    pub syntax_type: String,
    pub byte_range: ByteRange,
    /// Line range (`start_line..end_line`) of the symbol in the source file.
    pub lines: ByteRange,
    pub docs: Option<String>,
    pub is_definition: bool,
    pub path: String,
    pub confidence: Confidence,
}

/// Canonical output for the context engine.
#[derive(Clone, Debug)]
pub struct ContextOutput {
    pub chunks: Vec<ChunkRecord>,
    pub symbols: Vec<SymbolRecord>,
    pub diagnostics: Vec<Diagnostic>,
    pub meta: OutputMeta,
}

impl ContextOutput {
    /// An empty output with the given schema version.
    pub fn new(schema_version: &str) -> (o: Self)
        ensures
            o.chunks@.len() == 0,
            o.symbols@.len() == 0,
            o.diagnostics@.len() == 0,
            o.meta.schema_version@ == schema_version@,
            o.meta.source_path is None,
            o.meta.total_chunks == 0,
            o.meta.total_estimated_tokens == 0,
    {
        ContextOutput {
            chunks: Vec::new(),
            symbols: Vec::new(),
            diagnostics: Vec::new(),
            meta: OutputMeta {
                schema_version: schema_version.to_owned(),
                source_path: None,
                total_chunks: 0,
                total_estimated_tokens: 0,
            },
        }
    }

    /// Append a diagnostic.
    pub fn push_diagnostic(&mut self, diagnostic: Diagnostic)
        ensures
            final(self).diagnostics@ == old(self).diagnostics@.push(diagnostic),
            final(self).chunks == old(self).chunks,
            final(self).symbols == old(self).symbols,
            final(self).meta == old(self).meta,
    {
        self.diagnostics.push(diagnostic);
    }

    /// Append a chunk and count it in the totals.
    pub fn push_chunk(&mut self, chunk: ChunkRecord)
        requires
            old(self).meta.total_estimated_tokens + chunk.estimated_tokens <= usize::MAX,
            old(self).meta.total_chunks < usize::MAX,
        ensures
            final(self).chunks@ == old(self).chunks@.push(chunk),
            final(self).meta.total_estimated_tokens == old(self).meta.total_estimated_tokens
                + chunk.estimated_tokens,
            final(self).meta.total_chunks == old(self).meta.total_chunks + 1,
            final(self).meta.schema_version == old(self).meta.schema_version,
            final(self).meta.source_path == old(self).meta.source_path,
            final(self).symbols == old(self).symbols,
            final(self).diagnostics == old(self).diagnostics,
    {
        self.meta.total_estimated_tokens = self.meta.total_estimated_tokens + chunk.estimated_tokens;
        self.meta.total_chunks = self.meta.total_chunks + 1;
        self.chunks.push(chunk);
    }

    /// The same output with its source path set.
    pub fn with_source_path(self, path: &str) -> (o: Self)
        ensures
            o.meta.source_path matches Some(p) && p@ == path@,
            o.meta.schema_version == self.meta.schema_version,
            o.meta.total_chunks == self.meta.total_chunks,
            o.meta.total_estimated_tokens == self.meta.total_estimated_tokens,
            o.chunks == self.chunks,
            o.symbols == self.symbols,
            o.diagnostics == self.diagnostics,
    {
        let mut o = self;
        o.meta.source_path = Some(path.to_owned());
        o
    }
}

/// Classification of a chunk by an invalidation pass.
#[derive(Clone, Copy, Debug, PartialEq, Eq, Structural)]
pub enum InvalidationStatus {
    Affected,
    Added,
    Removed,
    Unchanged,
}

/// Why a chunk received its classification.
#[derive(Clone, Copy, Debug, PartialEq, Eq, Structural)]
pub enum InvalidationReason {
    ChangedRangeOverlap,
    ContentChanged,
    AddedChunk,
    RemovedChunk,
    NoChangeDetected,
    DegradedMatching,
}

/// How a chunk was matched between the two snapshots.
#[derive(Clone, Copy, Debug, PartialEq, Eq, Structural)]
pub enum MatchStrategy {
    StableId,
    ContentComparison,
    TextualRangeOverlap,
    EditRangeOverlap,
    Unmatched,
}

/// One classified chunk of an invalidation pass.
#[derive(Clone, Debug, PartialEq, Eq)]
pub struct InvalidationRecord {
    pub status: InvalidationStatus,
    pub chunk: ChunkRecord,
    pub old_chunk: Option<ChunkRecord>,
    pub reason: InvalidationReason,
    pub match_strategy: MatchStrategy,
    pub confidence: Confidence,
    pub changed_ranges: Vec<ByteRange>,
}

/// Output from an invalidation pass (snapshot diff or edit stream).
#[derive(Clone, Debug)]
pub struct InvalidationOutput {
    /// Every classified chunk with the reason for its classification.
    pub records: Vec<InvalidationRecord>,
    /// Chunks that overlap a changed range.
    pub affected: Vec<ChunkRecord>,
    /// Chunks present in the new snapshot but not the old.
    pub added: Vec<ChunkRecord>,
    /// Chunks present in the old snapshot but not the new.
    pub removed: Vec<ChunkRecord>,
    /// Chunks that exist in both snapshots and do not overlap any changed range.
    pub unchanged: Vec<ChunkRecord>,
    /// Raw changed ranges detected by tree-sitter.
    pub changed_ranges: Vec<ByteRange>,
    pub diagnostics: Vec<Diagnostic>,
    pub meta: OutputMeta,
}

/// A chunk of a compaction result.
#[derive(Clone, Debug, PartialEq, Eq)]
pub enum CompactChunkRecord {
    /// Only the signature of an unchanged named chunk is kept.
    SignatureOnly { chunk: ChunkRecord, signature: String },
    /// The whole chunk is kept.
    Preserved { chunk: ChunkRecord },
}

/// A chunk dropped from a compaction result.
#[derive(Clone, Debug, PartialEq, Eq)]
pub struct CompactOmittedRecord {
    pub stable_id: StableId,
    pub kind: String,
    pub name: Option<String>,
    pub reason: String,
    pub estimated_tokens: usize,
}

/// Compaction result for one file.
#[derive(Clone, Debug, PartialEq, Eq)]
pub struct CompactFileResult {
    pub path: String,
    pub preserved: Vec<ChunkRecord>,
    pub signatures_only: Vec<CompactChunkRecord>,
    pub omitted: Vec<CompactOmittedRecord>,
    pub original_tokens: usize,
    pub compacted_tokens: usize,
}

/// Compaction result for a set of files.
#[derive(Clone, Debug)]
pub struct CompactOutput {
    pub files: Vec<CompactFileResult>,
    pub original_tokens: usize,
    pub compacted_tokens: usize,
    pub omitted: Vec<CompactOmittedRecord>,
    pub diagnostics: Vec<Diagnostic>,
    pub meta: OutputMeta,
}

} // verus!
