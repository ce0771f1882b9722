//! Differences between two graph snapshots.
//!
//! Records are matched by key, as a map keyed by that key would match
//! them: files by path, nodes by handle, symbols by (name, path,
//! definition flag), edges by (source path, kind, target path). Where a
//! side holds several records with one key, the last of them stands for
//! the key. Entries come out removed first, then added, then modified,
//! each group in the order of the side it is read from.

use vstd::prelude::*;

use crate::graph::paths::{same_path, path_equal};
use crate::graph::snapshot::{
    EdgeStatus, GraphEdge, GraphError, GraphFile, GraphNode, GraphNodeHandle, GraphSnapshot, GraphSnapshotId,
    GraphSymbol,
};
use crate::dup::Duplicate;
use crate::identity::StableId;
use crate::schema::{Confidence, Diagnostic};
use crate::text::{copy_opt_string, copy_string, opt_string_eq, opt_view};

verus! {

/// Status of a diff entry.
#[derive(Clone, Copy, Debug, PartialEq, Eq, Structural)]
pub enum DiffStatus {
    Added,
    Removed,
    Modified,
}

/// Reason for a diff classification.
#[derive(Clone, Copy, Debug, PartialEq, Eq, Structural)]
pub enum DiffReason {
    ContentChanged,
    SignatureChanged,
    Added,
    Removed,
    BodyOnlyChanged,
    Unknown,
}

/// Diff for a single file.
#[derive(Clone, Debug)]
pub struct FileDiff {
    pub path: String,
    pub status: DiffStatus,
    pub reason: DiffReason,
    pub old_content_hash: Option<String>,
    pub new_content_hash: Option<String>,
    pub confidence: Confidence,
}

/// Diff for a single node.
#[derive(Clone, Debug)]
pub struct NodeDiff {
    pub path: String,
    pub stable_id: StableId,
    pub anchor_byte: usize,
    pub status: DiffStatus,
    pub reason: DiffReason,
    pub old_signature_hash: Option<String>,
    pub new_signature_hash: Option<String>,
    pub old_content_hash: Option<String>,
    pub new_content_hash: Option<String>,
    pub confidence: Confidence,
}

/// Diff for a single symbol.
#[derive(Clone, Debug)]
pub struct SymbolDiff {
    pub path: String,
    pub name: String,
    pub status: DiffStatus,
    pub reason: DiffReason,
    pub confidence: Confidence,
}

/// Diff for a single edge.
#[derive(Clone, Debug)]
pub struct EdgeDiff {
    pub source: GraphNodeHandle,
    pub target: GraphNodeHandle,
    pub kind: String,
    pub status: DiffStatus,
    pub reason: DiffReason,
    pub confidence: Confidence,
}

/// Result of comparing two graph snapshots.
#[derive(Clone, Debug)]
pub struct GraphDiff {
    pub from_snapshot_id: GraphSnapshotId,
    pub to_snapshot_id: GraphSnapshotId,
    pub changed_files: Vec<FileDiff>,
    pub changed_nodes: Vec<NodeDiff>,
    pub changed_symbols: Vec<SymbolDiff>,
    pub changed_edges: Vec<EdgeDiff>,
    pub postprocess_unavailable: bool,
    pub diagnostics: Vec<Diagnostic>,
}

// ---------------------------------------------------------------------
// Keys and lookups
// ---------------------------------------------------------------------

/// The key under which records are matched.
pub trait SameKey<T> {
    /// Whether `probe` looks up the entry stored under `stored`'s key.
    spec fn same(probe: T, stored: T) -> bool;

    fn same_exec(probe: &T, stored: &T) -> (r: bool)
        ensures
            r == Self::same(*probe, *stored),
    ;
}

/// Files are keyed by path.
pub struct FileKey;

impl SameKey<GraphFile> for FileKey {
    open spec fn same(probe: GraphFile, stored: GraphFile) -> bool {
        same_path(probe.path@, stored.path@)
    }

    fn same_exec(probe: &GraphFile, stored: &GraphFile) -> (r: bool) {
        path_equal(probe.path.as_str(), stored.path.as_str())
    }
}

/// Nodes are keyed by handle: path, stable identifier and anchor byte.
pub struct NodeKey;

impl SameKey<GraphNode> for NodeKey {
    open spec fn same(probe: GraphNode, stored: GraphNode) -> bool {
        &&& same_path(probe.path@, stored.path@)
        &&& probe.stable_id.0@ == stored.stable_id.0@
        &&& probe.anchor_byte == stored.anchor_byte
    }

    fn same_exec(probe: &GraphNode, stored: &GraphNode) -> (r: bool) {
        path_equal(probe.path.as_str(), stored.path.as_str()) && probe.stable_id.0 == stored.stable_id.0
            && probe.anchor_byte == stored.anchor_byte
    }
}

/// Symbols are keyed by name, path of their node and definition flag.
pub struct SymbolKey;

impl SameKey<GraphSymbol> for SymbolKey {
    open spec fn same(probe: GraphSymbol, stored: GraphSymbol) -> bool {
        &&& probe.name@ == stored.name@
        &&& same_path(probe.node_handle.path@, stored.node_handle.path@)
        &&& probe.is_definition == stored.is_definition
    }

    fn same_exec(probe: &GraphSymbol, stored: &GraphSymbol) -> (r: bool) {
        probe.name == stored.name && path_equal(probe.node_handle.path.as_str(), stored.node_handle.path.as_str())
            && probe.is_definition == stored.is_definition
    }
}

/// Edges are keyed by source path, kind and target path.
pub struct EdgeKey;

impl SameKey<GraphEdge> for EdgeKey {
    open spec fn same(probe: GraphEdge, stored: GraphEdge) -> bool {
        &&& same_path(probe.source.path@, stored.source.path@)
        &&& probe.kind@ == stored.kind@
        &&& same_path(probe.target.path@, stored.target.path@)
    }

    fn same_exec(probe: &GraphEdge, stored: &GraphEdge) -> (r: bool) {
        path_equal(probe.source.path.as_str(), stored.source.path.as_str()) && probe.kind == stored.kind
            && path_equal(probe.target.path.as_str(), stored.target.path.as_str())
    }
}

/// The index of the last record of `s` at or after `lo` whose key `x`
/// looks up; -1 when there is none.
pub open spec fn last_key<T, K: SameKey<T>>(s: Seq<T>, lo: int, x: T) -> int
    decreases s.len(),
{
    if s.len() == 0 || s.len() <= lo {
        -1
    } else if K::same(x, s.last()) {
        s.len() - 1
    } else {
        last_key::<T, K>(s.drop_last(), lo, x)
    }
}

/// Record `i` stands for its key: no later record has the same key.
pub open spec fn is_rep<T, K: SameKey<T>>(s: Seq<T>, i: int) -> bool {
    last_key::<T, K>(s, i + 1, s[i]) < 0
}

/// Record `i` of `a` stands for its key and the key is missing from `b`.
pub open spec fn only_in<T, K: SameKey<T>>(a: Seq<T>, b: Seq<T>, i: int) -> bool {
    is_rep::<T, K>(a, i) && last_key::<T, K>(b, 0, a[i]) < 0
}

/// Record `i` of `a` stands for its key and the key is present in `b`.
pub open spec fn in_both<T, K: SameKey<T>>(a: Seq<T>, b: Seq<T>, i: int) -> bool {
    is_rep::<T, K>(a, i) && last_key::<T, K>(b, 0, a[i]) >= 0
}

/// The last record of `s` at or after `lo` that `x` looks up.
fn find_last<T, K: SameKey<T>>(s: &Vec<T>, lo: usize, x: &T) -> (r: Option<usize>)
    requires
        lo <= s@.len(),
    ensures
        match r {
            None => last_key::<T, K>(s@, lo as int, *x) < 0,
            Some(j) => j < s@.len() && last_key::<T, K>(s@, lo as int, *x) == j as int,
        },
{
    let mut j: usize = s.len();
    assert(s@.take(j as int) =~= s@);
    while j > lo
        invariant
            lo <= j <= s@.len(),
            last_key::<T, K>(s@, lo as int, *x) == last_key::<T, K>(s@.take(j as int), lo as int, *x),
        decreases j,
    {
        assert(s@.take(j as int).drop_last() =~= s@.take(j - 1));
        if K::same_exec(x, &s[j - 1]) {
            return Some(j - 1);
        }
        j = j - 1;
    }
    None
}

// ---------------------------------------------------------------------
// Streams of entries
// ---------------------------------------------------------------------

/// The concatenation of `f(0)`, ..., `f(n - 1)`.
pub open spec fn gather<U>(n: int, f: spec_fn(int) -> Seq<U>) -> Seq<U>
    decreases n,
{
    if n <= 0 {
        seq![]
    } else {
        gather(n - 1, f) + f(n - 1)
    }
}

/// Two part functions that agree below `n` gather the same sequence.
pub proof fn lemma_gather_agree<U>(f: spec_fn(int) -> Seq<U>, g: spec_fn(int) -> Seq<U>, n: int)
    requires
        forall|m: int| 0 <= m < n ==> #[trigger] f(m) == g(m),
    ensures
        gather(n, f) == gather(n, g),
    decreases n,
{
    if n > 0 {
        lemma_gather_agree(f, g, n - 1);
    }
}

/// The diff entries that one record gives.
pub trait Entries<T, D> {
    spec fn entries(x: T) -> Seq<D>;

    fn push_entries(out: &mut Vec<D>, x: &T)
        ensures
            final(out)@ == old(out)@ + Self::entries(*x),
    ;
}

/// The diff entries that a matched pair of records gives.
pub trait PairEntries<T, D> {
    spec fn entries(a: T, b: T) -> Seq<D>;

    fn push_entries(out: &mut Vec<D>, a: &T, b: &T)
        ensures
            final(out)@ == old(out)@ + Self::entries(*a, *b),
    ;
}

/// The entries of every record of `s`, in order.
pub open spec fn each_entries<T, D, E: Entries<T, D>>(s: Seq<T>) -> Seq<D> {
    gather(s.len() as int, |i: int| E::entries(s[i]))
}

/// The entries of the records of `a` whose key is missing from `b`.
pub open spec fn only_in_entries<T, K: SameKey<T>, D, E: Entries<T, D>>(a: Seq<T>, b: Seq<T>) -> Seq<D> {
    gather(
        a.len() as int,
        |i: int|
            if only_in::<T, K>(a, b, i) {
                E::entries(a[i])
            } else {
                seq![]
            },
    )
}

/// The entries of the records of `a` whose key is present in `b`, each
/// paired with the record of `b` that stands for the key.
pub open spec fn matched_entries<T, K: SameKey<T>, D, P: PairEntries<T, D>>(a: Seq<T>, b: Seq<T>) -> Seq<D> {
    gather(
        a.len() as int,
        |i: int|
            if in_both::<T, K>(a, b, i) {
                P::entries(a[i], b[last_key::<T, K>(b, 0, a[i])])
            } else {
                seq![]
            },
    )
}

fn push_each<T, D, E: Entries<T, D>>(out: &mut Vec<D>, s: &Vec<T>)
    ensures
        final(out)@ == old(out)@ + each_entries::<T, D, E>(s@),
{
    let ghost base = out@;
    let mut i: usize = 0;
    while i < s.len()
        invariant
            i <= s@.len(),
            out@ == base + gather(i as int, |k: int| E::entries(s@[k])),
        decreases s@.len() - i,
    {
        E::push_entries(out, &s[i]);
        i = i + 1;
        assert(out@ =~= base + gather(i as int, |k: int| E::entries(s@[k])));
    }
}

fn push_only_in<T, K: SameKey<T>, D, E: Entries<T, D>>(out: &mut Vec<D>, a: &Vec<T>, b: &Vec<T>)
    ensures
        final(out)@ == old(out)@ + only_in_entries::<T, K, D, E>(a@, b@),
{
    let ghost base = out@;
    let mut i: usize = 0;
    while i < a.len()
        invariant
            i <= a@.len(),
            out@ == base + gather(
                i as int,
                |k: int|
                    if only_in::<T, K>(a@, b@, k) {
                        E::entries(a@[k])
                    } else {
                        seq![]
                    },
            ),
        decreases a@.len() - i,
    {
        let later = find_last::<T, K>(a, i + 1, &a[i]);
        let there = find_last::<T, K>(b, 0, &a[i]);
        if later.is_none() && there.is_none() {
            E::push_entries(out, &a[i]);
        }
        i = i + 1;
        assert(out@ =~= base + gather(
            i as int,
            |k: int|
                if only_in::<T, K>(a@, b@, k) {
                    E::entries(a@[k])
                } else {
                    seq![]
                },
        ));
    }
}

fn push_matched<T, K: SameKey<T>, D, P: PairEntries<T, D>>(out: &mut Vec<D>, a: &Vec<T>, b: &Vec<T>)
    ensures
        final(out)@ == old(out)@ + matched_entries::<T, K, D, P>(a@, b@),
{
    let ghost base = out@;
    let mut i: usize = 0;
    while i < a.len()
        invariant
            i <= a@.len(),
            out@ == base + gather(
                i as int,
                |k: int|
                    if in_both::<T, K>(a@, b@, k) {
                        P::entries(a@[k], b@[last_key::<T, K>(b@, 0, a@[k])])
                    } else {
                        seq![]
                    },
            ),
        decreases a@.len() - i,
    {
        let later = find_last::<T, K>(a, i + 1, &a[i]);
        let there = find_last::<T, K>(b, 0, &a[i]);
        if later.is_none() {
            if let Some(j) = there {
                P::push_entries(out, &a[i], &b[j]);
            }
        }
        i = i + 1;
        assert(out@ =~= base + gather(
            i as int,
            |k: int|
                if in_both::<T, K>(a@, b@, k) {
                    P::entries(a@[k], b@[last_key::<T, K>(b@, 0, a@[k])])
                } else {
                    seq![]
                },
        ));
    }
}

// ---------------------------------------------------------------------
// Entries for each kind of record
// ---------------------------------------------------------------------

/// The entry of a node that is gone.
pub open spec fn removed_node(n: GraphNode) -> NodeDiff {
    NodeDiff {
        path: n.path,
        stable_id: n.stable_id,
        anchor_byte: n.anchor_byte,
        status: DiffStatus::Removed,
        reason: DiffReason::Removed,
        old_signature_hash: n.signature_hash,
        new_signature_hash: None,
        old_content_hash: n.content_hash,
        new_content_hash: None,
        confidence: Confidence::Exact,
    }
}

/// The entry of a node that is new.
pub open spec fn added_node(n: GraphNode) -> NodeDiff {
    NodeDiff {
        path: n.path,
        stable_id: n.stable_id,
        anchor_byte: n.anchor_byte,
        status: DiffStatus::Added,
        reason: DiffReason::Added,
        old_signature_hash: None,
        new_signature_hash: n.signature_hash,
        old_content_hash: None,
        new_content_hash: n.content_hash,
        confidence: Confidence::Exact,
    }
}

/// The reason a node changed: the body alone when its signature hash
/// stayed the same.
pub open spec fn node_change_reason(a: GraphNode, b: GraphNode) -> DiffReason {
    if opt_view(a.signature_hash) == opt_view(b.signature_hash) {
        DiffReason::BodyOnlyChanged
    } else {
        DiffReason::ContentChanged
    }
}

/// The entry of a node whose content hash changed.
pub open spec fn modified_node(a: GraphNode, b: GraphNode) -> NodeDiff {
    let reason = node_change_reason(a, b);
    NodeDiff {
        path: a.path,
        stable_id: a.stable_id,
        anchor_byte: a.anchor_byte,
        status: DiffStatus::Modified,
        reason,
        old_signature_hash: a.signature_hash,
        new_signature_hash: b.signature_hash,
        old_content_hash: a.content_hash,
        new_content_hash: b.content_hash,
        confidence: if reason == DiffReason::BodyOnlyChanged {
            Confidence::High
        } else {
            Confidence::Medium
        },
    }
}

/// The entry of a symbol that is gone or new.
pub open spec fn symbol_entry(s: GraphSymbol, status: DiffStatus, reason: DiffReason) -> SymbolDiff {
    SymbolDiff { path: s.node_handle.path, name: s.name, status, reason, confidence: Confidence::Exact }
}

/// The entry of a file that is gone.
pub open spec fn removed_file(f: GraphFile) -> FileDiff {
    FileDiff {
        path: f.path,
        status: DiffStatus::Removed,
        reason: DiffReason::Removed,
        old_content_hash: f.content_hash,
        new_content_hash: None,
        confidence: Confidence::Exact,
    }
}

/// The entry of a file that is new.
pub open spec fn added_file(f: GraphFile) -> FileDiff {
    FileDiff {
        path: f.path,
        status: DiffStatus::Added,
        reason: DiffReason::Added,
        old_content_hash: None,
        new_content_hash: f.content_hash,
        confidence: Confidence::Exact,
    }
}

/// The entry of a file whose content hash changed: the reason is unknown
/// when either side has no hash.
pub open spec fn modified_file(a: GraphFile, b: GraphFile) -> FileDiff {
    FileDiff {
        path: a.path,
        status: DiffStatus::Modified,
        reason: if a.content_hash is Some && b.content_hash is Some {
            DiffReason::ContentChanged
        } else {
            DiffReason::Unknown
        },
        old_content_hash: a.content_hash,
        new_content_hash: b.content_hash,
        confidence: Confidence::High,
    }
}

/// The entry of an edge that is gone, new or changed.
pub open spec fn edge_entry(e: GraphEdge, status: DiffStatus, reason: DiffReason, confidence: Confidence) -> EdgeDiff {
    EdgeDiff { source: e.source, target: e.target, kind: e.kind, status, reason, confidence }
}

/// Whether the content hashes of two files differ.
pub open spec fn file_changed(a: GraphFile, b: GraphFile) -> bool {
    opt_view(a.content_hash) != opt_view(b.content_hash)
}

/// The node entries of one file pair: removed, added, then modified.
pub open spec fn node_diffs(a: Seq<GraphNode>, b: Seq<GraphNode>) -> Seq<NodeDiff> {
    only_in_entries::<GraphNode, NodeKey, NodeDiff, RemovedNode>(a, b)
        + only_in_entries::<GraphNode, NodeKey, NodeDiff, AddedNode>(b, a)
        + matched_entries::<GraphNode, NodeKey, NodeDiff, ModifiedNode>(a, b)
}

/// The symbol entries of one file pair: removed, then added.
pub open spec fn symbol_diffs(a: Seq<GraphSymbol>, b: Seq<GraphSymbol>) -> Seq<SymbolDiff> {
    only_in_entries::<GraphSymbol, SymbolKey, SymbolDiff, RemovedSymbol>(a, b)
        + only_in_entries::<GraphSymbol, SymbolKey, SymbolDiff, AddedSymbol>(b, a)
}

pub struct RemovedNode;

impl Entries<GraphNode, NodeDiff> for RemovedNode {
    open spec fn entries(n: GraphNode) -> Seq<NodeDiff> {
        seq![removed_node(n)]
    }

    fn push_entries(out: &mut Vec<NodeDiff>, n: &GraphNode) {
        out.push(
            NodeDiff {
                path: copy_string(&n.path),
                stable_id: StableId(copy_string(&n.stable_id.0)),
                anchor_byte: n.anchor_byte,
                status: DiffStatus::Removed,
                reason: DiffReason::Removed,
                old_signature_hash: copy_opt_string(&n.signature_hash),
                new_signature_hash: None,
                old_content_hash: copy_opt_string(&n.content_hash),
                new_content_hash: None,
                confidence: Confidence::Exact,
            },
        );
    }
}

pub struct AddedNode;

impl Entries<GraphNode, NodeDiff> for AddedNode {
    open spec fn entries(n: GraphNode) -> Seq<NodeDiff> {
        seq![added_node(n)]
    }

    fn push_entries(out: &mut Vec<NodeDiff>, n: &GraphNode) {
        out.push(
            NodeDiff {
                path: copy_string(&n.path),
                stable_id: StableId(copy_string(&n.stable_id.0)),
                anchor_byte: n.anchor_byte,
                status: DiffStatus::Added,
                reason: DiffReason::Added,
                old_signature_hash: None,
                new_signature_hash: copy_opt_string(&n.signature_hash),
                old_content_hash: None,
                new_content_hash: copy_opt_string(&n.content_hash),
                confidence: Confidence::Exact,
            },
        );
    }
}

pub struct ModifiedNode;

impl PairEntries<GraphNode, NodeDiff> for ModifiedNode {
    open spec fn entries(a: GraphNode, b: GraphNode) -> Seq<NodeDiff> {
        if opt_view(a.content_hash) != opt_view(b.content_hash) {
            seq![modified_node(a, b)]
        } else {
            seq![]
        }
    }

    fn push_entries(out: &mut Vec<NodeDiff>, a: &GraphNode, b: &GraphNode) {
        if !opt_string_eq(&a.content_hash, &b.content_hash) {
            let body_only = opt_string_eq(&a.signature_hash, &b.signature_hash);
            out.push(
                NodeDiff {
                    path: copy_string(&a.path),
                    stable_id: StableId(copy_string(&a.stable_id.0)),
                    anchor_byte: a.anchor_byte,
                    status: DiffStatus::Modified,
                    reason: if body_only {
                        DiffReason::BodyOnlyChanged
                    } else {
                        DiffReason::ContentChanged
                    },
                    old_signature_hash: copy_opt_string(&a.signature_hash),
                    new_signature_hash: copy_opt_string(&b.signature_hash),
                    old_content_hash: copy_opt_string(&a.content_hash),
                    new_content_hash: copy_opt_string(&b.content_hash),
                    confidence: if body_only {
                        Confidence::High
                    } else {
                        Confidence::Medium
                    },
                },
            );
        }
    }
}

fn symbol_entry_exec(s: &GraphSymbol, status: DiffStatus, reason: DiffReason) -> (d: SymbolDiff)
    ensures
        d == symbol_entry(*s, status, reason),
{
    SymbolDiff {
        path: copy_string(&s.node_handle.path),
        name: copy_string(&s.name),
        status,
        reason,
        confidence: Confidence::Exact,
    }
}

pub struct RemovedSymbol;

impl Entries<GraphSymbol, SymbolDiff> for RemovedSymbol {
    open spec fn entries(s: GraphSymbol) -> Seq<SymbolDiff> {
        seq![symbol_entry(s, DiffStatus::Removed, DiffReason::Removed)]
    }

    fn push_entries(out: &mut Vec<SymbolDiff>, s: &GraphSymbol) {
        out.push(symbol_entry_exec(s, DiffStatus::Removed, DiffReason::Removed));
    }
}

pub struct AddedSymbol;

impl Entries<GraphSymbol, SymbolDiff> for AddedSymbol {
    open spec fn entries(s: GraphSymbol) -> Seq<SymbolDiff> {
        seq![symbol_entry(s, DiffStatus::Added, DiffReason::Added)]
    }

    fn push_entries(out: &mut Vec<SymbolDiff>, s: &GraphSymbol) {
        out.push(symbol_entry_exec(s, DiffStatus::Added, DiffReason::Added));
    }
}

pub struct RemovedFile;

impl Entries<GraphFile, FileDiff> for RemovedFile {
    open spec fn entries(f: GraphFile) -> Seq<FileDiff> {
        seq![removed_file(f)]
    }

    fn push_entries(out: &mut Vec<FileDiff>, f: &GraphFile) {
        out.push(
            FileDiff {
                path: copy_string(&f.path),
                status: DiffStatus::Removed,
                reason: DiffReason::Removed,
                old_content_hash: copy_opt_string(&f.content_hash),
                new_content_hash: None,
                confidence: Confidence::Exact,
            },
        );
    }
}

pub struct AddedFile;

impl Entries<GraphFile, FileDiff> for AddedFile {
    open spec fn entries(f: GraphFile) -> Seq<FileDiff> {
        seq![added_file(f)]
    }

    fn push_entries(out: &mut Vec<FileDiff>, f: &GraphFile) {
        out.push(
            FileDiff {
                path: copy_string(&f.path),
                status: DiffStatus::Added,
                reason: DiffReason::Added,
                old_content_hash: None,
                new_content_hash: copy_opt_string(&f.content_hash),
                confidence: Confidence::Exact,
            },
        );
    }
}

pub struct ModifiedFile;

impl PairEntries<GraphFile, FileDiff> for ModifiedFile {
    open spec fn entries(a: GraphFile, b: GraphFile) -> Seq<FileDiff> {
        if file_changed(a, b) {
            seq![modified_file(a, b)]
        } else {
            seq![]
        }
    }

    fn push_entries(out: &mut Vec<FileDiff>, a: &GraphFile, b: &GraphFile) {
        if !opt_string_eq(&a.content_hash, &b.content_hash) {
            let known = a.content_hash.is_some() && b.content_hash.is_some();
            out.push(
                FileDiff {
                    path: copy_string(&a.path),
                    status: DiffStatus::Modified,
                    reason: if known {
                        DiffReason::ContentChanged
                    } else {
                        DiffReason::Unknown
                    },
                    old_content_hash: copy_opt_string(&a.content_hash),
                    new_content_hash: copy_opt_string(&b.content_hash),
                    confidence: Confidence::High,
                },
            );
        }
    }
}

/// Every node of a file that is gone.
pub struct RemovedFileNodes;

impl Entries<GraphFile, NodeDiff> for RemovedFileNodes {
    open spec fn entries(f: GraphFile) -> Seq<NodeDiff> {
        each_entries::<GraphNode, NodeDiff, RemovedNode>(f.nodes@)
    }

    fn push_entries(out: &mut Vec<NodeDiff>, f: &GraphFile) {
        push_each::<GraphNode, NodeDiff, RemovedNode>(out, &f.nodes);
    }
}

/// Every node of a file that is new.
pub struct AddedFileNodes;

impl Entries<GraphFile, NodeDiff> for AddedFileNodes {
    open spec fn entries(f: GraphFile) -> Seq<NodeDiff> {
        each_entries::<GraphNode, NodeDiff, AddedNode>(f.nodes@)
    }

    fn push_entries(out: &mut Vec<NodeDiff>, f: &GraphFile) {
        push_each::<GraphNode, NodeDiff, AddedNode>(out, &f.nodes);
    }
}

/// The node entries of a file whose content hash changed.
pub struct ModifiedFileNodes;

impl PairEntries<GraphFile, NodeDiff> for ModifiedFileNodes {
    open spec fn entries(a: GraphFile, b: GraphFile) -> Seq<NodeDiff> {
        if file_changed(a, b) {
            node_diffs(a.nodes@, b.nodes@)
        } else {
            seq![]
        }
    }

    fn push_entries(out: &mut Vec<NodeDiff>, a: &GraphFile, b: &GraphFile) {
        if !opt_string_eq(&a.content_hash, &b.content_hash) {
            push_only_in::<GraphNode, NodeKey, NodeDiff, RemovedNode>(out, &a.nodes, &b.nodes);
            push_only_in::<GraphNode, NodeKey, NodeDiff, AddedNode>(out, &b.nodes, &a.nodes);
            push_matched::<GraphNode, NodeKey, NodeDiff, ModifiedNode>(out, &a.nodes, &b.nodes);
        }
    }
}

/// Every symbol of a file that is gone.
pub struct RemovedFileSymbols;

impl Entries<GraphFile, SymbolDiff> for RemovedFileSymbols {
    open spec fn entries(f: GraphFile) -> Seq<SymbolDiff> {
        each_entries::<GraphSymbol, SymbolDiff, RemovedSymbol>(f.symbols@)
    }

    fn push_entries(out: &mut Vec<SymbolDiff>, f: &GraphFile) {
        push_each::<GraphSymbol, SymbolDiff, RemovedSymbol>(out, &f.symbols);
    }
}

/// Every symbol of a file that is new.
pub struct AddedFileSymbols;

impl Entries<GraphFile, SymbolDiff> for AddedFileSymbols {
    open spec fn entries(f: GraphFile) -> Seq<SymbolDiff> {
        each_entries::<GraphSymbol, SymbolDiff, AddedSymbol>(f.symbols@)
    }

    fn push_entries(out: &mut Vec<SymbolDiff>, f: &GraphFile) {
        push_each::<GraphSymbol, SymbolDiff, AddedSymbol>(out, &f.symbols);
    }
}

/// The symbol entries of a file whose content hash changed.
pub struct ModifiedFileSymbols;

impl PairEntries<GraphFile, SymbolDiff> for ModifiedFileSymbols {
    open spec fn entries(a: GraphFile, b: GraphFile) -> Seq<SymbolDiff> {
        if file_changed(a, b) {
            symbol_diffs(a.symbols@, b.symbols@)
        } else {
            seq![]
        }
    }

    fn push_entries(out: &mut Vec<SymbolDiff>, a: &GraphFile, b: &GraphFile) {
        if !opt_string_eq(&a.content_hash, &b.content_hash) {
            push_only_in::<GraphSymbol, SymbolKey, SymbolDiff, RemovedSymbol>(out, &a.symbols, &b.symbols);
            push_only_in::<GraphSymbol, SymbolKey, SymbolDiff, AddedSymbol>(out, &b.symbols, &a.symbols);
        }
    }
}

fn edge_entry_exec(e: &GraphEdge, status: DiffStatus, reason: DiffReason, confidence: Confidence) -> (d: EdgeDiff)
    ensures
        d == edge_entry(*e, status, reason, confidence),
{
    EdgeDiff { source: e.source.dup(), target: e.target.dup(), kind: copy_string(&e.kind), status, reason, confidence }
}

pub struct RemovedEdge;

impl Entries<GraphEdge, EdgeDiff> for RemovedEdge {
    open spec fn entries(e: GraphEdge) -> Seq<EdgeDiff> {
        seq![edge_entry(e, DiffStatus::Removed, DiffReason::Removed, Confidence::Exact)]
    }

    fn push_entries(out: &mut Vec<EdgeDiff>, e: &GraphEdge) {
        out.push(edge_entry_exec(e, DiffStatus::Removed, DiffReason::Removed, Confidence::Exact));
    }
}

pub struct AddedEdge;

impl Entries<GraphEdge, EdgeDiff> for AddedEdge {
    open spec fn entries(e: GraphEdge) -> Seq<EdgeDiff> {
        seq![edge_entry(e, DiffStatus::Added, DiffReason::Added, Confidence::Exact)]
    }

    fn push_entries(out: &mut Vec<EdgeDiff>, e: &GraphEdge) {
        out.push(edge_entry_exec(e, DiffStatus::Added, DiffReason::Added, Confidence::Exact));
    }
}

/// An edge whose status changed is modified.
pub struct ModifiedEdge;

impl PairEntries<GraphEdge, EdgeDiff> for ModifiedEdge {
    open spec fn entries(a: GraphEdge, b: GraphEdge) -> Seq<EdgeDiff> {
        if a.status != b.status {
            seq![edge_entry(a, DiffStatus::Modified, DiffReason::ContentChanged, Confidence::Medium)]
        } else {
            seq![]
        }
    }

    fn push_entries(out: &mut Vec<EdgeDiff>, a: &GraphEdge, b: &GraphEdge) {
        if a.status != b.status {
            out.push(edge_entry_exec(a, DiffStatus::Modified, DiffReason::ContentChanged, Confidence::Medium));
        }
    }
}

// ---------------------------------------------------------------------
// The diff
// ---------------------------------------------------------------------

/// The file entries: files gone, files new, then files whose content
/// hash changed.
pub open spec fn file_entries(from: Seq<GraphFile>, to: Seq<GraphFile>) -> Seq<FileDiff> {
    only_in_entries::<GraphFile, FileKey, FileDiff, RemovedFile>(from, to)
        + only_in_entries::<GraphFile, FileKey, FileDiff, AddedFile>(to, from)
        + matched_entries::<GraphFile, FileKey, FileDiff, ModifiedFile>(from, to)
}

/// The node entries: every node of the files gone, every node of the
/// files new, then the node diffs of the files whose content hash changed.
pub open spec fn node_entries(from: Seq<GraphFile>, to: Seq<GraphFile>) -> Seq<NodeDiff> {
    only_in_entries::<GraphFile, FileKey, NodeDiff, RemovedFileNodes>(from, to)
        + only_in_entries::<GraphFile, FileKey, NodeDiff, AddedFileNodes>(to, from)
        + matched_entries::<GraphFile, FileKey, NodeDiff, ModifiedFileNodes>(from, to)
}

/// The symbol entries, laid out as the node entries are.
pub open spec fn symbol_entries(from: Seq<GraphFile>, to: Seq<GraphFile>) -> Seq<SymbolDiff> {
    only_in_entries::<GraphFile, FileKey, SymbolDiff, RemovedFileSymbols>(from, to)
        + only_in_entries::<GraphFile, FileKey, SymbolDiff, AddedFileSymbols>(to, from)
        + matched_entries::<GraphFile, FileKey, SymbolDiff, ModifiedFileSymbols>(from, to)
}

/// The edge entries: edges gone, edges new, then edges whose status
/// changed.
pub open spec fn edge_entries(from: Seq<GraphEdge>, to: Seq<GraphEdge>) -> Seq<EdgeDiff> {
    only_in_entries::<GraphEdge, EdgeKey, EdgeDiff, RemovedEdge>(from, to)
        + only_in_entries::<GraphEdge, EdgeKey, EdgeDiff, AddedEdge>(to, from)
        + matched_entries::<GraphEdge, EdgeKey, EdgeDiff, ModifiedEdge>(from, to)
}

/// A diff is severe, and needs post-processing data to classify renames
/// and moves, when it both removes and adds files or nodes.
pub open spec fn is_severe(files: Seq<FileDiff>, nodes: Seq<NodeDiff>) -> bool {
    &&& (exists|i: int| 0 <= i < files.len() && #[trigger] files[i].status == DiffStatus::Removed) || (exists|i: int|
        0 <= i < nodes.len() && #[trigger] nodes[i].status == DiffStatus::Removed)
    &&& (exists|i: int| 0 <= i < files.len() && #[trigger] files[i].status == DiffStatus::Added) || (exists|i: int|
        0 <= i < nodes.len() && #[trigger] nodes[i].status == DiffStatus::Added)
}

fn any_file_with(files: &Vec<FileDiff>, status: DiffStatus) -> (r: bool)
    ensures
        r == exists|i: int| 0 <= i < files@.len() && #[trigger] files@[i].status == status,
{
    let mut i: usize = 0;
    while i < files.len()
        invariant
            i <= files@.len(),
            forall|k: int| 0 <= k < i ==> #[trigger] files@[k].status != status,
        decreases files@.len() - i,
    {
        if files[i].status == status {
            return true;
        }
        i = i + 1;
    }
    false
}

fn any_node_with(nodes: &Vec<NodeDiff>, status: DiffStatus) -> (r: bool)
    ensures
        r == exists|i: int| 0 <= i < nodes@.len() && #[trigger] nodes@[i].status == status,
{
    let mut i: usize = 0;
    while i < nodes.len()
        invariant
            i <= nodes@.len(),
            forall|k: int| 0 <= k < i ==> #[trigger] nodes@[k].status != status,
        decreases nodes@.len() - i,
    {
        if nodes[i].status == status {
            return true;
        }
        i = i + 1;
    }
    false
}

/// Two edges share a key: the same source path, kind and target path.
pub open spec fn edge_key_eq(a: GraphEdge, b: GraphEdge) -> bool {
    same_path(a.source.path@, b.source.path@) && a.kind@ == b.kind@ && same_path(a.target.path@, b.target.path@)
}

/// Edge `i` of `s` is the last one of its key, and no edge of `other`
/// has that key.
pub open spec fn last_of_key_missing(s: Seq<GraphEdge>, other: Seq<GraphEdge>, i: int) -> bool {
    &&& 0 <= i < s.len()
    &&& forall|j: int| i < j < s.len() ==> !edge_key_eq(s[i], #[trigger] s[j])
    &&& forall|j: int| 0 <= j < other.len() ==> !edge_key_eq(s[i], #[trigger] other[j])
}

/// A lookup that matches nothing at or after `lo` finds nothing.
proof fn lemma_last_key_none(s: Seq<GraphEdge>, lo: int, x: GraphEdge)
    requires
        0 <= lo,
        forall|j: int| lo <= j < s.len() ==> !edge_key_eq(x, #[trigger] s[j]),
    ensures
        last_key::<GraphEdge, EdgeKey>(s, lo, x) < 0,
    decreases s.len(),
{
    if s.len() > 0 && s.len() > lo {
        assert(!edge_key_eq(x, s[s.len() - 1]));
        assert forall|j: int| lo <= j < s.drop_last().len() implies !edge_key_eq(x, #[trigger] s.drop_last()[j]) by {
            assert(s.drop_last()[j] == s[j]);
        }
        lemma_last_key_none(s.drop_last(), lo, x);
    }
}

/// The part that index `i` contributes lies within the gathered sequence.
proof fn lemma_gather_holds<U>(f: spec_fn(int) -> Seq<U>, n: int, i: int, k: int)
    requires
        0 <= i < n,
        0 <= k < f(i).len(),
    ensures
        gather(n, f).contains(f(i)[k]),
    decreases n,
{
    let g = gather(n - 1, f);
    if i < n - 1 {
        lemma_gather_holds(f, n - 1, i, k);
        let m = choose|m: int| 0 <= m < g.len() && g[m] == f(i)[k];
        assert((g + f(n - 1))[m] == f(i)[k]);
    } else {
        assert((g + f(n - 1))[g.len() + k] == f(i)[k]);
    }
}

/// An edge that the first snapshot has and the second lacks is reported
/// removed, and one that only the second has is reported added: for each
/// edge that is the last of its key (source path, kind, target path) in
/// its snapshot and whose key the other snapshot lacks, the edge entries
/// hold that edge with status `Removed` (or `Added`), reason to match,
/// and exact confidence.
pub proof fn lemma_edge_entries_report_missing(from: Seq<GraphEdge>, to: Seq<GraphEdge>)
    ensures
        forall|i: int|
            last_of_key_missing(from, to, i) ==> #[trigger] edge_entries(from, to).contains(
                EdgeDiff {
                    source: from[i].source,
                    target: from[i].target,
                    kind: from[i].kind,
                    status: DiffStatus::Removed,
                    reason: DiffReason::Removed,
                    confidence: Confidence::Exact,
                },
            ),
        forall|i: int|
            last_of_key_missing(to, from, i) ==> #[trigger] edge_entries(from, to).contains(
                EdgeDiff {
                    source: to[i].source,
                    target: to[i].target,
                    kind: to[i].kind,
                    status: DiffStatus::Added,
                    reason: DiffReason::Added,
                    confidence: Confidence::Exact,
                },
            ),
{
    let removed = only_in_entries::<GraphEdge, EdgeKey, EdgeDiff, RemovedEdge>(from, to);
    let added = only_in_entries::<GraphEdge, EdgeKey, EdgeDiff, AddedEdge>(to, from);
    let modified = matched_entries::<GraphEdge, EdgeKey, EdgeDiff, ModifiedEdge>(from, to);
    assert(edge_entries(from, to) == removed + added + modified);
    assert forall|i: int| last_of_key_missing(from, to, i) implies #[trigger] edge_entries(from, to).contains(
        EdgeDiff {
            source: from[i].source,
            target: from[i].target,
            kind: from[i].kind,
            status: DiffStatus::Removed,
            reason: DiffReason::Removed,
            confidence: Confidence::Exact,
        },
    ) by {
        lemma_last_key_none(from, i + 1, from[i]);
        lemma_last_key_none(to, 0, from[i]);
        assert(only_in::<GraphEdge, EdgeKey>(from, to, i));
        let f = |m: int|
            if only_in::<GraphEdge, EdgeKey>(from, to, m) {
                RemovedEdge::entries(from[m])
            } else {
                seq![]
            };
        assert(removed == gather(from.len() as int, f));
        lemma_gather_holds(f, from.len() as int, i, 0);
        let d = f(i)[0];
        let m = choose|m: int| 0 <= m < removed.len() && removed[m] == d;
        assert((removed + added + modified)[m] == d);
    }
    assert forall|i: int| last_of_key_missing(to, from, i) implies #[trigger] edge_entries(from, to).contains(
        EdgeDiff {
            source: to[i].source,
            target: to[i].target,
            kind: to[i].kind,
            status: DiffStatus::Added,
            reason: DiffReason::Added,
            confidence: Confidence::Exact,
        },
    ) by {
        lemma_last_key_none(to, i + 1, to[i]);
        lemma_last_key_none(from, 0, to[i]);
        assert(only_in::<GraphEdge, EdgeKey>(to, from, i));
        let f = |m: int|
            if only_in::<GraphEdge, EdgeKey>(to, from, m) {
                AddedEdge::entries(to[m])
            } else {
                seq![]
            };
        assert(added == gather(to.len() as int, f));
        lemma_gather_holds(f, to.len() as int, i, 0);
        let d = f(i)[0];
        let m = choose|m: int| 0 <= m < added.len() && added[m] == d;
        assert((removed + added + modified)[removed.len() + m] == d);
    }
}

/// Whether the entries both remove and add files or nodes.
fn has_severe_changes(files: &Vec<FileDiff>, nodes: &Vec<NodeDiff>) -> (r: bool)
    ensures
        r == is_severe(files@, nodes@),
{
    let has_removals = any_file_with(files, DiffStatus::Removed) || any_node_with(nodes, DiffStatus::Removed);
    let has_additions = any_file_with(files, DiffStatus::Added) || any_node_with(nodes, DiffStatus::Added);
    has_removals && has_additions
}

/// Compare two snapshots: the files, nodes, symbols and edges that were
/// removed, added or modified between them, and whether the changes are
/// severe enough that classifying them needs post-processing data that is
/// not computed here. The comparison always succeeds.
pub fn diff_snapshots(from: &GraphSnapshot, to: &GraphSnapshot) -> (r: Result<GraphDiff, GraphError>)
    ensures
        r matches Ok(d) && {
            &&& d.from_snapshot_id.0@ == from.snapshot_id.0@
            &&& d.to_snapshot_id.0@ == to.snapshot_id.0@
            &&& d.changed_files@ == file_entries(from.files@, to.files@)
            &&& d.changed_nodes@ == node_entries(from.files@, to.files@)
            &&& d.changed_symbols@ == symbol_entries(from.files@, to.files@)
            &&& d.changed_edges@ == edge_entries(from.edges@, to.edges@)
            &&& d.postprocess_unavailable == is_severe(d.changed_files@, d.changed_nodes@)
            &&& d.diagnostics@.len() == 0
        },
{
    let mut changed_files: Vec<FileDiff> = Vec::new();
    let mut changed_nodes: Vec<NodeDiff> = Vec::new();
    let mut changed_symbols: Vec<SymbolDiff> = Vec::new();
    let mut changed_edges: Vec<EdgeDiff> = Vec::new();

    push_only_in::<GraphFile, FileKey, FileDiff, RemovedFile>(&mut changed_files, &from.files, &to.files);
    push_only_in::<GraphFile, FileKey, FileDiff, AddedFile>(&mut changed_files, &to.files, &from.files);
    push_matched::<GraphFile, FileKey, FileDiff, ModifiedFile>(&mut changed_files, &from.files, &to.files);

    push_only_in::<GraphFile, FileKey, NodeDiff, RemovedFileNodes>(&mut changed_nodes, &from.files, &to.files);
    push_only_in::<GraphFile, FileKey, NodeDiff, AddedFileNodes>(&mut changed_nodes, &to.files, &from.files);
    push_matched::<GraphFile, FileKey, NodeDiff, ModifiedFileNodes>(&mut changed_nodes, &from.files, &to.files);

    push_only_in::<GraphFile, FileKey, SymbolDiff, RemovedFileSymbols>(&mut changed_symbols, &from.files, &to.files);
    push_only_in::<GraphFile, FileKey, SymbolDiff, AddedFileSymbols>(&mut changed_symbols, &to.files, &from.files);
    push_matched::<GraphFile, FileKey, SymbolDiff, ModifiedFileSymbols>(
        &mut changed_symbols,
        &from.files,
        &to.files,
    );

    push_only_in::<GraphEdge, EdgeKey, EdgeDiff, RemovedEdge>(&mut changed_edges, &from.edges, &to.edges);
    push_only_in::<GraphEdge, EdgeKey, EdgeDiff, AddedEdge>(&mut changed_edges, &to.edges, &from.edges);
    push_matched::<GraphEdge, EdgeKey, EdgeDiff, ModifiedEdge>(&mut changed_edges, &from.edges, &to.edges);

    let postprocess_unavailable = has_severe_changes(&changed_files, &changed_nodes);
    Ok(
        GraphDiff {
            from_snapshot_id: GraphSnapshotId(copy_string(&from.snapshot_id.0)),
            to_snapshot_id: GraphSnapshotId(copy_string(&to.snapshot_id.0)),
            changed_files,
            changed_nodes,
            changed_symbols,
            changed_edges,
            postprocess_unavailable,
            diagnostics: Vec::new(),
        },
    )
}

// ---------------------------------------------------------------------
// A snapshot against itself
// ---------------------------------------------------------------------

/// Gathering only empty parts gives nothing.
proof fn lemma_gather_empty<U>(n: int, f: spec_fn(int) -> Seq<U>)
    requires
        forall|m: int| 0 <= m < n ==> (#[trigger] f(m)).len() == 0,
    ensures
        gather(n, f).len() == 0,
    decreases n,
{
    if n > 0 {
        lemma_gather_empty(n - 1, f);
    }
}

/// A record that no later record shares a key with is the last record
/// its own key looks up.
proof fn lemma_last_key_rep<T, K: SameKey<T>>(s: Seq<T>, lo: int, i: int)
    requires
        0 <= lo <= i < s.len(),
        K::same(s[i], s[i]),
        last_key::<T, K>(s, i + 1, s[i]) < 0,
    ensures
        last_key::<T, K>(s, lo, s[i]) == i,
    decreases s.len(),
{
    if i < s.len() - 1 {
        assert(s.drop_last()[i] == s[i]);
        lemma_last_key_rep::<T, K>(s.drop_last(), lo, i);
    }
}

/// Against itself, under a key that each record shares with itself, no
/// record is missing and every record meets itself.
proof fn lemma_self_lookup<T, K: SameKey<T>>(a: Seq<T>, i: int)
    requires
        0 <= i < a.len(),
        K::same(a[i], a[i]),
    ensures
        !only_in::<T, K>(a, a, i),
        in_both::<T, K>(a, a, i) ==> last_key::<T, K>(a, 0, a[i]) == i,
{
    if is_rep::<T, K>(a, i) {
        lemma_last_key_rep::<T, K>(a, 0, i);
    }
}

/// Comparing a snapshot with itself finds no change: no file, node, symbol
/// or edge is removed, added or modified, and the diff is not severe.
pub proof fn lemma_diff_self_empty(s: GraphSnapshot)
    ensures
        file_entries(s.files@, s.files@).len() == 0,
        node_entries(s.files@, s.files@).len() == 0,
        symbol_entries(s.files@, s.files@).len() == 0,
        edge_entries(s.edges@, s.edges@).len() == 0,
        !is_severe(file_entries(s.files@, s.files@), node_entries(s.files@, s.files@)),
{
    let f = s.files@;
    let e = s.edges@;
    assert forall|i: int| 0 <= i < f.len() implies !only_in::<GraphFile, FileKey>(f, f, i) && (in_both::<
        GraphFile,
        FileKey,
    >(f, f, i) ==> #[trigger] last_key::<GraphFile, FileKey>(f, 0, f[i]) == i) by {
        assert(same_path(f[i].path@, f[i].path@));
        lemma_self_lookup::<GraphFile, FileKey>(f, i);
    }
    assert forall|i: int| 0 <= i < e.len() implies !only_in::<GraphEdge, EdgeKey>(e, e, i) && (in_both::<
        GraphEdge,
        EdgeKey,
    >(e, e, i) ==> #[trigger] last_key::<GraphEdge, EdgeKey>(e, 0, e[i]) == i) by {
        assert(same_path(e[i].source.path@, e[i].source.path@));
        assert(same_path(e[i].target.path@, e[i].target.path@));
        lemma_self_lookup::<GraphEdge, EdgeKey>(e, i);
    }
    lemma_gather_empty(
        f.len() as int,
        |i: int|
            if only_in::<GraphFile, FileKey>(f, f, i) {
                RemovedFile::entries(f[i])
            } else {
                seq![]
            },
    );
    lemma_gather_empty(
        f.len() as int,
        |i: int|
            if only_in::<GraphFile, FileKey>(f, f, i) {
                AddedFile::entries(f[i])
            } else {
                seq![]
            },
    );
    lemma_gather_empty(
        f.len() as int,
        |i: int|
            if in_both::<GraphFile, FileKey>(f, f, i) {
                ModifiedFile::entries(f[i], f[last_key::<GraphFile, FileKey>(f, 0, f[i])])
            } else {
                seq![]
            },
    );
    lemma_gather_empty(
        f.len() as int,
        |i: int|
            if only_in::<GraphFile, FileKey>(f, f, i) {
                RemovedFileNodes::entries(f[i])
            } else {
                seq![]
            },
    );
    lemma_gather_empty(
        f.len() as int,
        |i: int|
            if only_in::<GraphFile, FileKey>(f, f, i) {
                AddedFileNodes::entries(f[i])
            } else {
                seq![]
            },
    );
    lemma_gather_empty(
        f.len() as int,
        |i: int|
            if in_both::<GraphFile, FileKey>(f, f, i) {
                ModifiedFileNodes::entries(f[i], f[last_key::<GraphFile, FileKey>(f, 0, f[i])])
            } else {
                seq![]
            },
    );
    lemma_gather_empty(
        f.len() as int,
        |i: int|
            if only_in::<GraphFile, FileKey>(f, f, i) {
                RemovedFileSymbols::entries(f[i])
            } else {
                seq![]
            },
    );
    lemma_gather_empty(
        f.len() as int,
        |i: int|
            if only_in::<GraphFile, FileKey>(f, f, i) {
                AddedFileSymbols::entries(f[i])
            } else {
                seq![]
            },
    );
    lemma_gather_empty(
        f.len() as int,
        |i: int|
            if in_both::<GraphFile, FileKey>(f, f, i) {
                ModifiedFileSymbols::entries(f[i], f[last_key::<GraphFile, FileKey>(f, 0, f[i])])
            } else {
                seq![]
            },
    );
    lemma_gather_empty(
        e.len() as int,
        |i: int|
            if only_in::<GraphEdge, EdgeKey>(e, e, i) {
                RemovedEdge::entries(e[i])
            } else {
                seq![]
            },
    );
    lemma_gather_empty(
        e.len() as int,
        |i: int|
            if only_in::<GraphEdge, EdgeKey>(e, e, i) {
                AddedEdge::entries(e[i])
            } else {
                seq![]
            },
    );
    lemma_gather_empty(
        e.len() as int,
        |i: int|
            if in_both::<GraphEdge, EdgeKey>(e, e, i) {
                ModifiedEdge::entries(e[i], e[last_key::<GraphEdge, EdgeKey>(e, 0, e[i])])
            } else {
                seq![]
            },
    );
}

} // verus!
