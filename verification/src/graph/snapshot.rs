//! Graph records, snapshot identity and canonical ordering.

use vstd::prelude::*;

use crate::dup::{dup_opt, dup_vec, Duplicate};
use crate::graph::paths::{same_path, path_equal, path_less, path_lt, path_order_strict_weak_on};
use crate::identity::StableId;
use crate::schema::{ByteRange, Confidence, Diagnostic};
use crate::sort::{
    all_within, lemma_sort_ignores_order, lemma_sort_ignores_order_within, no_ties, sort_by_key, sort_stable,
    total_preorder, total_preorder_within, KeyOrder,
};
use crate::text::{
    copy_opt_string, copy_string, hex32, hex32_bytes, lemma_ascii_valid_utf8, lemma_hex_fixed_ascii,
    lemma_str_triple, str_less, str_lt, string_from_utf8, utf8,
};

verus! {

/// Current graph schema version. Bumps invalidate prior snapshot IDs.
pub const GRAPH_SCHEMA_VERSION: &'static str = "r1-2026-04-26";

/// The XXH3-128 digest of `bytes`.
pub uninterp spec fn xxh3_128_of(bytes: Seq<u8>) -> u128;

/// XXH3-128 of a byte string.
///
/// Wraps `xxhash_rust::xxh3::xxh3_128`; the digest is named by
/// `xxh3_128_of` and depends on the bytes alone.
#[verifier::external_body]
pub(crate) fn xxh3_128(bytes: &[u8]) -> (h: u128)
    ensures
        h == xxh3_128_of(bytes@),
{
    xxhash_rust::xxh3::xxh3_128(bytes)
}

/// The 32 lowercase hex digits of the XXH3-128 digest of `bytes`.
pub fn xxh3_hex(bytes: &[u8]) -> (s: String)
    ensures
        utf8(s@) == hex32(xxh3_128_of(bytes@)),
{
    let h = hex32_bytes(xxh3_128(bytes));
    proof {
        lemma_hex_fixed_ascii(xxh3_128_of(bytes@) as nat, 32);
        lemma_ascii_valid_utf8(h@);
    }
    string_from_utf8(h)
}

/// A deterministic snapshot identifier derived from canonical graph bytes.
#[derive(Clone, Debug, PartialEq, Eq, Hash, PartialOrd, Ord)]
pub struct GraphSnapshotId(pub String);

impl GraphSnapshotId {
    /// The XXH3-128 hex digest of canonical bytes.
    pub fn from_canonical_bytes(bytes: &[u8]) -> (id: Self)
        ensures
            utf8(id.0@) == hex32(xxh3_128_of(bytes@)),
    {
        GraphSnapshotId(xxh3_hex(bytes))
    }
}

/// Status of a cross-file graph edge.
#[derive(Clone, Copy, Debug, PartialEq, Eq, Structural, PartialOrd, Ord)]
pub enum EdgeStatus {
    /// Unambiguously resolved to a single target.
    Confirmed,
    /// Multiple candidate targets exist.
    Ambiguous,
    /// No candidate target found.
    Unresolved,
    /// Language or config lacks reference capability.
    Unsupported,
}

/// A single node in the repo graph.
#[derive(Clone, Debug, PartialEq, Eq)]
pub struct GraphNode {
    pub path: String,
    pub stable_id: StableId,
    pub kind: String,
    pub name: Option<String>,
    pub anchor_byte: usize,
    pub byte_range: ByteRange,
    /// Signature hash for detecting body-only changes.
    pub signature_hash: Option<String>,
    /// Content hash for detecting any change.
    pub content_hash: Option<String>,
    pub confidence: Confidence,
}

/// A typed edge between graph nodes.
#[derive(Clone, Debug, PartialEq, Eq)]
pub struct GraphEdge {
    pub source: GraphNodeHandle,
    pub target: GraphNodeHandle,
    pub kind: String,
    pub status: EdgeStatus,
    pub confidence: Confidence,
    /// When status is Ambiguous, ordered candidate handles.
    pub candidates: Vec<GraphNodeHandle>,
}

/// A collision-aware handle to a graph node: path, stable identifier and anchor byte.
#[derive(Clone, Debug, PartialEq, Eq, Hash, PartialOrd, Ord)]
pub struct GraphNodeHandle {
    pub path: String,
    pub stable_id: StableId,
    pub anchor_byte: usize,
}

impl<'a> From<&'a GraphNode> for GraphNodeHandle {
    fn from(node: &'a GraphNode) -> (h: Self) {
        GraphNodeHandle {
            path: copy_string(&node.path),
            stable_id: StableId(copy_string(&node.stable_id.0)),
            anchor_byte: node.anchor_byte,
        }
    }
}

impl<'a> vstd::std_specs::convert::FromSpecImpl<&'a GraphNode> for GraphNodeHandle {
    open spec fn obeys_from_spec() -> bool {
        true
    }

    open spec fn from_spec(node: &'a GraphNode) -> GraphNodeHandle {
        GraphNodeHandle { path: node.path, stable_id: node.stable_id, anchor_byte: node.anchor_byte }
    }
}

/// A symbol record embedded in the graph.
#[derive(Clone, Debug, PartialEq, Eq)]
pub struct GraphSymbol {
    pub name: String,
    pub syntax_type: String,
    pub byte_range: ByteRange,
    pub is_definition: bool,
    pub node_handle: GraphNodeHandle,
    pub confidence: Confidence,
}

/// Per-file graph record.
#[derive(Clone, Debug, PartialEq, Eq)]
pub struct GraphFile {
    pub path: String,
    pub content_hash: Option<String>,
    pub nodes: Vec<GraphNode>,
    pub symbols: Vec<GraphSymbol>,
    pub diagnostics: Vec<Diagnostic>,
}

/// A complete graph snapshot for a repo at a point in time.
#[derive(Clone, Debug, PartialEq, Eq)]
pub struct GraphSnapshot {
    pub schema_version: String,
    pub snapshot_id: GraphSnapshotId,
    pub files: Vec<GraphFile>,
    pub edges: Vec<GraphEdge>,
    pub diagnostics: Vec<Diagnostic>,
    /// Operational metadata outside the canonical identity hash.
    pub meta: Option<GraphMeta>,
}

/// Operational metadata for a snapshot. Not included in identity hash.
#[derive(Clone, Debug, PartialEq, Eq)]
pub struct GraphMeta {
    pub created_at: Option<String>,
    pub repo_root: Option<String>,
    pub total_files: usize,
    pub total_nodes: usize,
    pub total_edges: usize,
}

/// Typed errors for graph operations.
#[derive(Clone, Debug, PartialEq, Eq)]
pub enum GraphError {
    MissingSnapshot { snapshot_id: GraphSnapshotId },
    CorruptedSnapshot { snapshot_id: GraphSnapshotId, reason: String },
    SchemaMismatch { expected: String, found: String },
    LockFailure { path: String, reason: String },
    WriteFailure { path: String, reason: String },
    PostprocessUnavailable,
}

impl Duplicate for GraphNodeHandle {
    fn dup(&self) -> (r: Self) {
        GraphNodeHandle {
            path: copy_string(&self.path),
            stable_id: StableId(copy_string(&self.stable_id.0)),
            anchor_byte: self.anchor_byte,
        }
    }
}

impl Duplicate for GraphNode {
    fn dup(&self) -> (r: Self) {
        GraphNode {
            path: copy_string(&self.path),
            stable_id: StableId(copy_string(&self.stable_id.0)),
            kind: copy_string(&self.kind),
            name: copy_opt_string(&self.name),
            anchor_byte: self.anchor_byte,
            byte_range: self.byte_range,
            signature_hash: copy_opt_string(&self.signature_hash),
            content_hash: copy_opt_string(&self.content_hash),
            confidence: self.confidence,
        }
    }
}


impl Duplicate for GraphSymbol {
    fn dup(&self) -> (r: Self) {
        GraphSymbol {
            name: copy_string(&self.name),
            syntax_type: copy_string(&self.syntax_type),
            byte_range: self.byte_range,
            is_definition: self.is_definition,
            node_handle: self.node_handle.dup(),
            confidence: self.confidence,
        }
    }
}

impl Duplicate for Diagnostic {
    fn dup(&self) -> (r: Self) {
        Diagnostic {
            level: self.level,
            message: copy_string(&self.message),
            context: copy_opt_string(&self.context),
        }
    }
}


/// Order by path, as `Path` orders paths.
pub struct FilesByPath;

impl KeyOrder<GraphFile> for FilesByPath {
    open spec fn before(a: GraphFile, b: GraphFile) -> bool {
        !path_lt(b.path@, a.path@)
    }

    fn before_exec(a: &GraphFile, b: &GraphFile) -> (r: bool) {
        !path_less(b.path.as_str(), a.path.as_str())
    }
}

/// The three-way comparison on (path, stable identifier, anchor byte):
/// negative, zero or positive.
pub open spec fn handle_key_order(ap: Seq<char>, asid: Seq<char>, an: usize, bp: Seq<char>, bsid: Seq<char>, bn: usize) -> int {
    if path_lt(ap, bp) {
        -1
    } else if path_lt(bp, ap) {
        1
    } else if str_lt(asid, bsid) {
        -1
    } else if str_lt(bsid, asid) {
        1
    } else if an < bn {
        -1
    } else if bn < an {
        1
    } else {
        0
    }
}

fn handle_key_compare(ap: &str, asid: &str, an: usize, bp: &str, bsid: &str, bn: usize) -> (r: i8)
    ensures
        r as int == handle_key_order(ap@, asid@, an, bp@, bsid@, bn),
{
    if path_less(ap, bp) {
        -1
    } else if path_less(bp, ap) {
        1
    } else if str_less(asid, bsid) {
        -1
    } else if str_less(bsid, asid) {
        1
    } else if an < bn {
        -1
    } else if bn < an {
        1
    } else {
        0
    }
}

/// Order nodes by (path, stable identifier, anchor byte).
pub struct NodesCanonical;

impl KeyOrder<GraphNode> for NodesCanonical {
    open spec fn before(a: GraphNode, b: GraphNode) -> bool {
        handle_key_order(a.path@, a.stable_id.0@, a.anchor_byte, b.path@, b.stable_id.0@, b.anchor_byte) <= 0
    }

    fn before_exec(a: &GraphNode, b: &GraphNode) -> (r: bool) {
        handle_key_compare(
            a.path.as_str(),
            a.stable_id.0.as_str(),
            a.anchor_byte,
            b.path.as_str(),
            b.stable_id.0.as_str(),
            b.anchor_byte,
        ) <= 0
    }
}

/// The comparison of two handles by (path, stable identifier, anchor byte).
pub open spec fn handle_order(a: GraphNodeHandle, b: GraphNodeHandle) -> int {
    handle_key_order(a.path@, a.stable_id.0@, a.anchor_byte, b.path@, b.stable_id.0@, b.anchor_byte)
}

fn handle_compare(a: &GraphNodeHandle, b: &GraphNodeHandle) -> (r: i8)
    ensures
        r as int == handle_order(*a, *b),
{
    handle_key_compare(
        a.path.as_str(),
        a.stable_id.0.as_str(),
        a.anchor_byte,
        b.path.as_str(),
        b.stable_id.0.as_str(),
        b.anchor_byte,
    )
}

/// Order symbols by their node handle, then by name.
pub struct SymbolsCanonical;

impl KeyOrder<GraphSymbol> for SymbolsCanonical {
    open spec fn before(a: GraphSymbol, b: GraphSymbol) -> bool {
        let c = handle_order(a.node_handle, b.node_handle);
        c < 0 || (c == 0 && !str_lt(b.name@, a.name@))
    }

    fn before_exec(a: &GraphSymbol, b: &GraphSymbol) -> (r: bool) {
        let c = handle_compare(&a.node_handle, &b.node_handle);
        c < 0 || (c == 0 && !str_less(b.name.as_str(), a.name.as_str()))
    }
}

/// Order edges by source handle, target handle, then kind.
pub struct EdgesCanonical;

impl KeyOrder<GraphEdge> for EdgesCanonical {
    open spec fn before(a: GraphEdge, b: GraphEdge) -> bool {
        let c1 = handle_order(a.source, b.source);
        let c2 = handle_order(a.target, b.target);
        c1 < 0 || (c1 == 0 && (c2 < 0 || (c2 == 0 && !str_lt(b.kind@, a.kind@))))
    }

    fn before_exec(a: &GraphEdge, b: &GraphEdge) -> (r: bool) {
        let c1 = handle_compare(&a.source, &b.source);
        if c1 != 0 {
            return c1 < 0;
        }
        let c2 = handle_compare(&a.target, &b.target);
        c2 < 0 || (c2 == 0 && !str_less(b.kind.as_str(), a.kind.as_str()))
    }
}

/// Order diagnostics by message.
pub struct DiagnosticsByMessage;

impl KeyOrder<Diagnostic> for DiagnosticsByMessage {
    open spec fn before(a: Diagnostic, b: Diagnostic) -> bool {
        !str_lt(b.message@, a.message@)
    }

    fn before_exec(a: &Diagnostic, b: &Diagnostic) -> (r: bool) {
        !str_less(b.message.as_str(), a.message.as_str())
    }
}

/// A file in canonical order: its nodes and symbols sorted.
pub open spec fn is_canonical_file(r: GraphFile, f: GraphFile) -> bool {
    &&& r.path == f.path
    &&& r.content_hash == f.content_hash
    &&& r.nodes@ == sort_by_key::<GraphNode, NodesCanonical>(f.nodes@)
    &&& r.symbols@ == sort_by_key::<GraphSymbol, SymbolsCanonical>(f.symbols@)
    &&& r.diagnostics@ == f.diagnostics@
}

/// `r` is `s` in canonical order: files sorted by path with their nodes
/// and symbols sorted, edges and diagnostics sorted; everything else kept.
pub open spec fn is_canonical_order(r: GraphSnapshot, s: GraphSnapshot) -> bool {
    let files = sort_by_key::<GraphFile, FilesByPath>(s.files@);
    &&& r.schema_version == s.schema_version
    &&& r.snapshot_id == s.snapshot_id
    &&& r.meta == s.meta
    &&& r.files@.len() == files.len()
    &&& forall|i: int| 0 <= i < files.len() ==> is_canonical_file(#[trigger] r.files@[i], files[i])
    &&& r.edges@ == sort_by_key::<GraphEdge, EdgesCanonical>(s.edges@)
    &&& r.diagnostics@ == sort_by_key::<Diagnostic, DiagnosticsByMessage>(s.diagnostics@)
}

/// Put a snapshot in canonical order so that insertion order does not
/// affect its identity: files by path; nodes by (path, stable identifier,
/// anchor byte); symbols by node handle then name; edges by source,
/// target and kind; diagnostics by message. Every sort is stable.
pub fn canonical_order(snapshot: GraphSnapshot) -> (r: GraphSnapshot)
    ensures
        is_canonical_order(r, snapshot),
{
    let ghost orig = snapshot;
    let GraphSnapshot { schema_version, snapshot_id, files, edges, diagnostics, meta } = snapshot;
    let mut rest = sort_stable::<GraphFile, FilesByPath>(files);
    let ghost sorted = rest@;
    let n = rest.len();
    proof {
        crate::sort::lemma_sort_len::<GraphFile, FilesByPath>(orig.files@);
    }
    let mut out: Vec<GraphFile> = Vec::new();
    let mut k: usize = 0;
    while rest.len() > 0
        invariant
            k + rest@.len() == n,
            sorted.len() == n,
            rest@ == sorted.subrange(k as int, n as int),
            out@.len() == k,
            forall|i: int| 0 <= i < k ==> is_canonical_file(#[trigger] out@[i], sorted[i]),
        decreases rest@.len(),
    {
        let f = rest.remove(0);
        assert(f == sorted[k as int]);
        let GraphFile { path, content_hash, nodes, symbols, diagnostics } = f;
        let nodes = sort_stable::<GraphNode, NodesCanonical>(nodes);
        let symbols = sort_stable::<GraphSymbol, SymbolsCanonical>(symbols);
        out.push(GraphFile { path, content_hash, nodes, symbols, diagnostics });
        k = k + 1;
        assert(rest@ =~= sorted.subrange(k as int, n as int));
    }
    let edges = sort_stable::<GraphEdge, EdgesCanonical>(edges);
    let diagnostics = sort_stable::<Diagnostic, DiagnosticsByMessage>(diagnostics);
    GraphSnapshot { schema_version, snapshot_id, files: out, edges, diagnostics, meta }
}

// ---------------------------------------------------------------------
// Canonical order does not depend on insertion order
// ---------------------------------------------------------------------

/// Path order on three of the paths `ps`, under a strict weak order on
/// them.
proof fn lemma_path_triple(ps: Set<Seq<char>>, a: Seq<char>, b: Seq<char>, c: Seq<char>)
    requires
        path_order_strict_weak_on(ps),
        ps.contains(a),
        ps.contains(b),
        ps.contains(c),
    ensures
        path_lt(a, b) ==> !path_lt(b, a),
        path_lt(b, c) ==> !path_lt(c, b),
        path_lt(a, c) ==> !path_lt(c, a),
        path_lt(a, c) ==> path_lt(a, b) || path_lt(b, c),
        path_lt(c, a) ==> path_lt(c, b) || path_lt(b, a),
        path_lt(a, b) ==> path_lt(a, c) || path_lt(c, b),
        path_lt(b, a) ==> path_lt(b, c) || path_lt(c, a),
        path_lt(b, c) ==> path_lt(b, a) || path_lt(a, c),
        path_lt(c, b) ==> path_lt(c, a) || path_lt(a, b),
{
}

/// The comparison on (path, stable identifier, anchor byte) is a
/// comparator on keys whose paths are among `ps`: swapping its sides flips
/// the sign, and "not after" and "before" chain.
proof fn lemma_handle_key_triple(
    ps: Set<Seq<char>>,
    ap: Seq<char>,
    asid: Seq<char>,
    an: usize,
    bp: Seq<char>,
    bsid: Seq<char>,
    bn: usize,
    cp: Seq<char>,
    csid: Seq<char>,
    cn: usize,
)
    requires
        path_order_strict_weak_on(ps),
        ps.contains(ap),
        ps.contains(bp),
        ps.contains(cp),
    ensures
        handle_key_order(ap, asid, an, bp, bsid, bn) == -handle_key_order(bp, bsid, bn, ap, asid, an),
        handle_key_order(ap, asid, an, bp, bsid, bn) <= 0 && handle_key_order(bp, bsid, bn, cp, csid, cn) <= 0
            ==> handle_key_order(ap, asid, an, cp, csid, cn) <= 0,
        handle_key_order(ap, asid, an, bp, bsid, bn) < 0 && handle_key_order(bp, bsid, bn, cp, csid, cn) <= 0
            ==> handle_key_order(ap, asid, an, cp, csid, cn) < 0,
        handle_key_order(ap, asid, an, bp, bsid, bn) <= 0 && handle_key_order(bp, bsid, bn, cp, csid, cn) < 0
            ==> handle_key_order(ap, asid, an, cp, csid, cn) < 0,
{
    lemma_path_triple(ps, ap, bp, cp);
    lemma_str_triple(asid, bsid, csid);
}

/// The files whose paths are among `ps`.
pub open spec fn files_within(ps: Set<Seq<char>>) -> Set<GraphFile> {
    Set::new(|f: GraphFile| ps.contains(f.path@))
}

/// The nodes whose paths are among `ps`.
pub open spec fn nodes_within(ps: Set<Seq<char>>) -> Set<GraphNode> {
    Set::new(|n: GraphNode| ps.contains(n.path@))
}

/// The symbols whose node paths are among `ps`.
pub open spec fn symbols_within(ps: Set<Seq<char>>) -> Set<GraphSymbol> {
    Set::new(|s: GraphSymbol| ps.contains(s.node_handle.path@))
}

/// The edges whose source and target paths are among `ps`.
pub open spec fn edges_within(ps: Set<Seq<char>>) -> Set<GraphEdge> {
    Set::new(|e: GraphEdge| ps.contains(e.source.path@) && ps.contains(e.target.path@))
}

/// Files by path: a total preorder on the files whose paths are among
/// `ps`, when `ps` is strictly weakly ordered.
pub proof fn lemma_files_order_total(ps: Set<Seq<char>>)
    requires
        path_order_strict_weak_on(ps),
    ensures
        total_preorder_within::<GraphFile, FilesByPath>(files_within(ps)),
{
    let d = files_within(ps);
    assert forall|a: GraphFile, b: GraphFile| d.contains(a) && d.contains(b) implies #[trigger] FilesByPath::before(
        a,
        b,
    ) || FilesByPath::before(b, a) by {
        lemma_path_triple(ps, a.path@, b.path@, b.path@);
    }
    assert forall|a: GraphFile, b: GraphFile, c: GraphFile|
        d.contains(a) && d.contains(b) && d.contains(c) && #[trigger] FilesByPath::before(a, b)
            && #[trigger] FilesByPath::before(b, c) implies FilesByPath::before(a, c) by {
        lemma_path_triple(ps, a.path@, b.path@, c.path@);
    }
}

/// Nodes by (path, stable identifier, anchor byte): a total preorder on
/// the nodes whose paths are among `ps`.
pub proof fn lemma_nodes_order_total(ps: Set<Seq<char>>)
    requires
        path_order_strict_weak_on(ps),
    ensures
        total_preorder_within::<GraphNode, NodesCanonical>(nodes_within(ps)),
{
    let d = nodes_within(ps);
    assert forall|a: GraphNode, b: GraphNode| d.contains(a) && d.contains(b) implies #[trigger] NodesCanonical::before(
        a,
        b,
    ) || NodesCanonical::before(b, a) by {
        lemma_handle_key_triple(
            ps,
            a.path@,
            a.stable_id.0@,
            a.anchor_byte,
            b.path@,
            b.stable_id.0@,
            b.anchor_byte,
            b.path@,
            b.stable_id.0@,
            b.anchor_byte,
        );
    }
    assert forall|a: GraphNode, b: GraphNode, c: GraphNode|
        d.contains(a) && d.contains(b) && d.contains(c) && #[trigger] NodesCanonical::before(a, b)
            && #[trigger] NodesCanonical::before(b, c) implies NodesCanonical::before(a, c) by {
        lemma_handle_key_triple(
            ps,
            a.path@,
            a.stable_id.0@,
            a.anchor_byte,
            b.path@,
            b.stable_id.0@,
            b.anchor_byte,
            c.path@,
            c.stable_id.0@,
            c.anchor_byte,
        );
    }
}

/// The handle comparison on three handles whose paths are among `ps`.
proof fn lemma_handle_triple(ps: Set<Seq<char>>, a: GraphNodeHandle, b: GraphNodeHandle, c: GraphNodeHandle)
    requires
        path_order_strict_weak_on(ps),
        ps.contains(a.path@),
        ps.contains(b.path@),
        ps.contains(c.path@),
    ensures
        handle_order(a, b) == -handle_order(b, a),
        handle_order(a, b) <= 0 && handle_order(b, c) <= 0 ==> handle_order(a, c) <= 0,
        handle_order(a, b) < 0 && handle_order(b, c) <= 0 ==> handle_order(a, c) < 0,
        handle_order(a, b) <= 0 && handle_order(b, c) < 0 ==> handle_order(a, c) < 0,
{
    lemma_handle_key_triple(
        ps,
        a.path@,
        a.stable_id.0@,
        a.anchor_byte,
        b.path@,
        b.stable_id.0@,
        b.anchor_byte,
        c.path@,
        c.stable_id.0@,
        c.anchor_byte,
    );
}

/// Symbols by node handle, then name: a total preorder on the symbols
/// whose node paths are among `ps`.
pub proof fn lemma_symbols_order_total(ps: Set<Seq<char>>)
    requires
        path_order_strict_weak_on(ps),
    ensures
        total_preorder_within::<GraphSymbol, SymbolsCanonical>(symbols_within(ps)),
{
    let d = symbols_within(ps);
    assert forall|a: GraphSymbol, b: GraphSymbol|
        d.contains(a) && d.contains(b) implies #[trigger] SymbolsCanonical::before(a, b) || SymbolsCanonical::before(
        b,
        a,
    ) by {
        lemma_handle_triple(ps, a.node_handle, b.node_handle, b.node_handle);
        lemma_str_triple(a.name@, b.name@, b.name@);
    }
    assert forall|a: GraphSymbol, b: GraphSymbol, c: GraphSymbol|
        d.contains(a) && d.contains(b) && d.contains(c) && #[trigger] SymbolsCanonical::before(a, b)
            && #[trigger] SymbolsCanonical::before(b, c) implies SymbolsCanonical::before(a, c) by {
        lemma_handle_triple(ps, a.node_handle, b.node_handle, c.node_handle);
        lemma_str_triple(a.name@, b.name@, c.name@);
    }
}

/// Edges by source, target, then kind: a total preorder on the edges
/// whose paths are among `ps`.
pub proof fn lemma_edges_order_total(ps: Set<Seq<char>>)
    requires
        path_order_strict_weak_on(ps),
    ensures
        total_preorder_within::<GraphEdge, EdgesCanonical>(edges_within(ps)),
{
    let d = edges_within(ps);
    assert forall|a: GraphEdge, b: GraphEdge|
        d.contains(a) && d.contains(b) implies #[trigger] EdgesCanonical::before(a, b) || EdgesCanonical::before(
        b,
        a,
    ) by {
        lemma_handle_triple(ps, a.source, b.source, b.source);
        lemma_handle_triple(ps, a.target, b.target, b.target);
        lemma_str_triple(a.kind@, b.kind@, b.kind@);
    }
    assert forall|a: GraphEdge, b: GraphEdge, c: GraphEdge|
        d.contains(a) && d.contains(b) && d.contains(c) && #[trigger] EdgesCanonical::before(a, b)
            && #[trigger] EdgesCanonical::before(b, c) implies EdgesCanonical::before(a, c) by {
        lemma_handle_triple(ps, a.source, b.source, c.source);
        lemma_handle_triple(ps, a.target, b.target, c.target);
        lemma_str_triple(a.kind@, b.kind@, c.kind@);
    }
}

/// Diagnostics by message: a total preorder.
pub proof fn lemma_diagnostics_order_total()
    ensures
        total_preorder::<Diagnostic, DiagnosticsByMessage>(),
{
    assert forall|a: Diagnostic, b: Diagnostic|
        #[trigger] DiagnosticsByMessage::before(a, b) || DiagnosticsByMessage::before(b, a) by {
        lemma_str_triple(a.message@, b.message@, b.message@);
    }
    assert forall|a: Diagnostic, b: Diagnostic, c: Diagnostic|
        #[trigger] DiagnosticsByMessage::before(a, b) && #[trigger] DiagnosticsByMessage::before(
            b,
            c,
        ) implies DiagnosticsByMessage::before(a, c) by {
        lemma_str_triple(a.message@, b.message@, c.message@);
    }
}

/// Every path of the snapshot (its files' paths and its edges' source and
/// target paths) is among `ps`.
pub open spec fn snapshot_paths_within(s: GraphSnapshot, ps: Set<Seq<char>>) -> bool {
    &&& all_within(s.files@, files_within(ps))
    &&& all_within(s.edges@, edges_within(ps))
}

/// Insertion order does not affect a snapshot's canonical order: two
/// snapshots that hold the same files, edges and diagnostics, each list in
/// any order, come out the same, as long as no two different entries of a
/// list tie in that list's order. The paths involved must be strictly
/// weakly ordered, as `Ord` for `Path` promises; `paths_strictly_weak`
/// checks that of a list of paths.
pub proof fn lemma_canonical_order_ignores_insertion(
    a: GraphSnapshot,
    b: GraphSnapshot,
    ra: GraphSnapshot,
    rb: GraphSnapshot,
    ps: Set<Seq<char>>,
)
    requires
        path_order_strict_weak_on(ps),
        snapshot_paths_within(a, ps),
        is_canonical_order(ra, a),
        is_canonical_order(rb, b),
        a.schema_version == b.schema_version,
        a.snapshot_id == b.snapshot_id,
        a.meta == b.meta,
        a.files@.to_multiset() == b.files@.to_multiset(),
        a.edges@.to_multiset() == b.edges@.to_multiset(),
        a.diagnostics@.to_multiset() == b.diagnostics@.to_multiset(),
        no_ties::<GraphFile, FilesByPath>(a.files@),
        no_ties::<GraphEdge, EdgesCanonical>(a.edges@),
        no_ties::<Diagnostic, DiagnosticsByMessage>(a.diagnostics@),
    ensures
        ra.schema_version == rb.schema_version,
        ra.snapshot_id == rb.snapshot_id,
        ra.meta == rb.meta,
        ra.files@.len() == rb.files@.len(),
        forall|i: int|
            0 <= i < ra.files@.len() ==> {
                &&& (#[trigger] ra.files@[i]).path == rb.files@[i].path
                &&& ra.files@[i].content_hash == rb.files@[i].content_hash
                &&& ra.files@[i].nodes@ == rb.files@[i].nodes@
                &&& ra.files@[i].symbols@ == rb.files@[i].symbols@
                &&& ra.files@[i].diagnostics@ == rb.files@[i].diagnostics@
            },
        ra.edges@ == rb.edges@,
        ra.diagnostics@ == rb.diagnostics@,
{
    lemma_files_order_total(ps);
    lemma_edges_order_total(ps);
    lemma_diagnostics_order_total();
    lemma_sort_ignores_order_within::<GraphFile, FilesByPath>(a.files@, b.files@, files_within(ps));
    lemma_sort_ignores_order_within::<GraphEdge, EdgesCanonical>(a.edges@, b.edges@, edges_within(ps));
    lemma_sort_ignores_order::<Diagnostic, DiagnosticsByMessage>(a.diagnostics@, b.diagnostics@);
}

/// Within a file, insertion order does not affect the canonical order of
/// its nodes and symbols: the same nodes and symbols in any order come out
/// the same, as long as no two different ones tie and their paths are
/// strictly weakly ordered.
pub proof fn lemma_file_order_ignores_insertion(
    f: GraphFile,
    g: GraphFile,
    rf: GraphFile,
    rg: GraphFile,
    ps: Set<Seq<char>>,
)
    requires
        path_order_strict_weak_on(ps),
        all_within(f.nodes@, nodes_within(ps)),
        all_within(f.symbols@, symbols_within(ps)),
        is_canonical_file(rf, f),
        is_canonical_file(rg, g),
        f.nodes@.to_multiset() == g.nodes@.to_multiset(),
        f.symbols@.to_multiset() == g.symbols@.to_multiset(),
        no_ties::<GraphNode, NodesCanonical>(f.nodes@),
        no_ties::<GraphSymbol, SymbolsCanonical>(f.symbols@),
    ensures
        rf.nodes@ == rg.nodes@,
        rf.symbols@ == rg.symbols@,
{
    lemma_nodes_order_total(ps);
    lemma_symbols_order_total(ps);
    lemma_sort_ignores_order_within::<GraphNode, NodesCanonical>(f.nodes@, g.nodes@, nodes_within(ps));
    lemma_sort_ignores_order_within::<GraphSymbol, SymbolsCanonical>(f.symbols@, g.symbols@, symbols_within(ps));
}

/// The paths of a snapshot: its files' paths, then the source and target
/// paths of its edges.
pub fn snapshot_paths(s: &GraphSnapshot) -> (r: Vec<String>)
    ensures
        snapshot_paths_within(*s, crate::graph::paths::path_views(r@).to_set()),
{
    let mut r: Vec<String> = Vec::new();
    let mut i: usize = 0;
    while i < s.files.len()
        invariant
            i <= s.files@.len(),
            r@.len() == i,
            forall|k: int| 0 <= k < i ==> (#[trigger] r@[k])@ == s.files@[k].path@,
        decreases s.files@.len() - i,
    {
        r.push(copy_string(&s.files[i].path));
        i = i + 1;
    }
    let nf = r.len();
    let mut j: usize = 0;
    while j < s.edges.len()
        invariant
            j <= s.edges@.len(),
            nf == s.files@.len(),
            r@.len() == nf + 2 * j,
            forall|k: int| 0 <= k < nf ==> (#[trigger] r@[k])@ == s.files@[k].path@,
            forall|k: int|
                0 <= k < j ==> r@[nf + 2 * k]@ == (#[trigger] s.edges@[k]).source.path@ && r@[nf + 2 * k + 1]@
                    == s.edges@[k].target.path@,
        decreases s.edges@.len() - j,
    {
        let ghost before = r@;
        r.push(copy_string(&s.edges[j].source.path));
        r.push(copy_string(&s.edges[j].target.path));
        assert forall|k: int|
            0 <= k < j + 1 implies r@[nf + 2 * k]@ == (#[trigger] s.edges@[k]).source.path@ && r@[nf + 2 * k + 1]@
                == s.edges@[k].target.path@ by {
            if k < j {
                assert(r@[nf + 2 * k] == before[nf + 2 * k]);
                assert(r@[nf + 2 * k + 1] == before[nf + 2 * k + 1]);
            }
        }
        j = j + 1;
    }
    let ghost v = crate::graph::paths::path_views(r@);
    assert forall|k: int| 0 <= k < s.files@.len() implies files_within(v.to_set()).contains(#[trigger] s.files@[k]) by {
        assert(v[k] == s.files@[k].path@);
        assert(v.to_set().contains(v[k]));
    }
    assert forall|k: int| 0 <= k < s.edges@.len() implies edges_within(v.to_set()).contains(#[trigger] s.edges@[k]) by {
        assert(v[nf + 2 * k] == s.edges@[k].source.path@);
        assert(v[nf + 2 * k + 1] == s.edges@[k].target.path@);
        assert(v.to_set().contains(v[nf + 2 * k]));
        assert(v.to_set().contains(v[nf + 2 * k + 1]));
    }
    r
}

} // verus!
