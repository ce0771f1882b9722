//! A thin orientation block derived from a graph snapshot: stats, the
//! most referenced symbols, entry points and reserved post-processing
//! fields, with deterministic order throughout.
//!
//! Fitting the block to a token budget alternates measuring the block's
//! JSON rendering, done by the caller, with the decisions made here:
//! `apply_budget_step` takes each measurement and says what to measure
//! next.

use vstd::prelude::*;

use crate::chunk::{estimate_tokens, token_estimate};
use crate::graph::diff::{gather, lemma_gather_agree};
use crate::graph::paths::{same_path, path_equal, path_ext_of, path_extension};
use crate::graph::postprocess::GodNode;
use crate::graph::snapshot::{EdgeStatus, GraphEdge, GraphFile, GraphSnapshot, GraphSnapshotId, GraphSymbol};
use crate::sort::{lemma_sort_len, lemma_sort_members, lemma_sort_sorted, sort_by_key, sort_stable, sorted_by, total_preorder, KeyOrder};
use crate::text::{copy_string, lemma_pair_not_after, str_less, str_lt, utf8};

verus! {

/// Current orientation schema version. Bumps invalidate prior contracts.
pub const ORIENTATION_SCHEMA_VERSION: &'static str = "r2-2026-04-26";

/// The number of most referenced symbols kept.
pub const TOP_REFERENCED_LIMIT: usize = 20;

/// A thin orientation block with deterministic stats and reserved
/// post-processing fields.
#[derive(Clone, Debug, PartialEq, Eq)]
pub struct OrientationBlock {
    pub schema_version: String,
    pub graph_snapshot_id: GraphSnapshotId,
    pub stats: OrientationStats,
    pub top_referenced: Vec<TopReferenced>,
    pub entry_points: Vec<EntryPoint>,
    pub god_nodes: OrientationField,
    pub communities: OrientationField,
    pub architecture_summary: OrientationField,
    /// Budget truncation metadata, if applicable.
    pub budget_truncated: Option<BudgetTruncated>,
}

/// Deterministic stats derived from the snapshot.
#[derive(Clone, Copy, Debug, Eq, PartialEq, Structural)]
pub struct OrientationStats {
    pub file_count: usize,
    pub symbol_count: usize,
    pub language_count: usize,
    pub edge_count: usize,
}

/// A referenced symbol with its count of cross-file inbound references.
#[derive(Clone, Debug, Eq, PartialEq)]
pub struct TopReferenced {
    pub symbol_path: String,
    pub path: String,
    pub stable_id: String,
    pub inbound_refs: usize,
}

/// An entry point: a definition that no edge targets.
#[derive(Clone, Debug, Eq, PartialEq)]
pub struct EntryPoint {
    pub symbol_path: String,
    pub path: String,
    pub stable_id: String,
}

/// Reserved post-processing field.
#[derive(Clone, Debug, PartialEq, Eq)]
pub enum OrientationField {
    PostprocessUnavailable,
    Computed { status: String, nodes: Vec<GodNode> },
}

/// Budget truncation metadata.
#[derive(Clone, Debug, PartialEq, Eq)]
pub struct BudgetTruncated {
    pub reason: String,
    pub omitted: Vec<String>,
}

// ---------------------------------------------------------------------
// Stats
// ---------------------------------------------------------------------

/// The number of symbols over all files.
pub open spec fn symbol_total(files: Seq<GraphFile>) -> nat
    decreases files.len(),
{
    if files.len() == 0 {
        0
    } else {
        symbol_total(files.drop_last()) + files.last().symbols@.len()
    }
}

/// The file extensions that occur among the files.
pub open spec fn extensions(files: Seq<GraphFile>) -> Set<Seq<char>> {
    Set::new(|e: Seq<char>| exists|i: int| 0 <= i < files.len() && path_ext_of(#[trigger] files[i].path@) == Some(e))
}

/// The stats of a snapshot: files, symbols, distinct file extensions
/// (one per language) and edges.
pub open spec fn stats_of(s: GraphSnapshot) -> OrientationStats {
    OrientationStats {
        file_count: s.files@.len() as usize,
        symbol_count: symbol_total(s.files@) as usize,
        language_count: extensions(s.files@).len() as usize,
        edge_count: s.edges@.len() as usize,
    }
}

fn count_symbols(files: &Vec<GraphFile>) -> (n: usize)
    requires
        symbol_total(files@) <= usize::MAX,
    ensures
        n == symbol_total(files@),
{
    let mut n: usize = 0;
    let mut i: usize = 0;
    while i < files.len()
        invariant
            i <= files@.len(),
            n == symbol_total(files@.take(i as int)),
            symbol_total(files@) <= usize::MAX,
        decreases files@.len() - i,
    {
        proof {
            assert(files@.take(i + 1).drop_last() =~= files@.take(i as int));
            lemma_symbol_total_prefix(files@, i + 1);
        }
        n = n + files[i].symbols.len();
        i = i + 1;
    }
    assert(files@.take(files@.len() as int) =~= files@);
    n
}

proof fn lemma_symbol_total_prefix(files: Seq<GraphFile>, k: int)
    requires
        0 <= k <= files.len(),
    ensures
        symbol_total(files.take(k)) <= symbol_total(files),
    decreases files.len(),
{
    if k < files.len() {
        assert(files.drop_last().take(k) =~= files.take(k));
        lemma_symbol_total_prefix(files.drop_last(), k);
    } else {
        assert(files.take(k) =~= files);
    }
}

/// The views of a list of strings.
pub open spec fn views(s: Seq<String>) -> Seq<Seq<char>> {
    s.map_values(|x: String| x@)
}

fn count_languages(files: &Vec<GraphFile>) -> (n: usize)
    ensures
        n == extensions(files@).len(),
{
    let mut seen: Vec<String> = Vec::new();
    let mut i: usize = 0;
    while i < files.len()
        invariant
            i <= files@.len(),
            views(seen@).no_duplicates(),
            forall|e: Seq<char>|
                #[trigger] views(seen@).contains(e) <==> exists|j: int|
                    0 <= j < i && path_ext_of(#[trigger] files@[j].path@) == Some(e),
        decreases files@.len() - i,
    {
        let ghost before = views(seen@);
        if let Some(ext) = path_extension(files[i].path.as_str()) {
            let mut known = false;
            let mut k: usize = 0;
            while k < seen.len()
                invariant
                    k <= seen@.len(),
                    before == views(seen@),
                    known <==> exists|m: int| 0 <= m < k && before[m] == ext@,
                decreases seen@.len() - k,
            {
                assert(before[k as int] == seen@[k as int]@);
                if seen[k] == ext {
                    known = true;
                }
                k = k + 1;
            }
            if !known {
                seen.push(ext);
                proof {
                    let after = views(seen@);
                    assert(after =~= before.push(ext@));
                    assert forall|a: int, b: int| 0 <= a < b < after.len() implies after[a] != after[b] by {
                        if b == before.len() {
                            assert(before[a] != ext@);
                        }
                    }
                }
            }
        }
        proof {
            let after = views(seen@);
            assert forall|e: Seq<char>| #[trigger] after.contains(e) <==> exists|j: int|
                0 <= j < i + 1 && path_ext_of(#[trigger] files@[j].path@) == Some(e) by {
                if after.contains(e) {
                    let m = choose|m: int| 0 <= m < after.len() && after[m] == e;
                    if m < before.len() {
                        assert(before[m] == e);
                        assert(before.contains(e));
                    }
                }
                if exists|j: int| 0 <= j < i + 1 && path_ext_of(#[trigger] files@[j].path@) == Some(e) {
                    let j = choose|j: int| 0 <= j < i + 1 && path_ext_of(#[trigger] files@[j].path@) == Some(e);
                    if j < i {
                        assert(before.contains(e));
                        let m = choose|m: int| 0 <= m < before.len() && before[m] == e;
                        assert(after[m] == e);
                    } else if !before.contains(e) {
                        assert(after[before.len() as int] == e);
                    } else {
                        let m = choose|m: int| 0 <= m < before.len() && before[m] == e;
                        assert(after[m] == e);
                    }
                }
            }
        }
        i = i + 1;
    }
    proof {
        let v = views(seen@);
        v.unique_seq_to_set();
        assert(v.to_set() =~= extensions(files@));
    }
    seen.len()
}

// ---------------------------------------------------------------------
// Most referenced symbols
// ---------------------------------------------------------------------

/// A confirmed edge between two files counts as a reference.
pub open spec fn is_cross_ref(e: GraphEdge) -> bool {
    e.status == EdgeStatus::Confirmed && !same_path(e.source.path@, e.target.path@)
}

/// Two references count together: same target path, target stable
/// identifier and kind.
pub open spec fn same_ref_key(probe: GraphEdge, stored: GraphEdge) -> bool {
    &&& same_path(probe.target.path@, stored.target.path@)
    &&& probe.target.stable_id.0@ == stored.target.stable_id.0@
    &&& probe.kind@ == stored.kind@
}

/// The references counted together with edge `i`.
pub open spec fn refs_like(edges: Seq<GraphEdge>, i: int) -> Seq<int> {
    gather(
        edges.len() as int,
        |j: int|
            if is_cross_ref(edges[j]) && same_ref_key(edges[j], edges[i]) {
                seq![j]
            } else {
                seq![]
            },
    )
}

/// Edge `i` is the first reference of its key.
pub open spec fn first_ref(edges: Seq<GraphEdge>, i: int) -> bool {
    is_cross_ref(edges[i]) && !exists|j: int|
        0 <= j < i && is_cross_ref(#[trigger] edges[j]) && same_ref_key(edges[i], edges[j])
}

/// The entry for the key of edge `i`.
pub open spec fn ref_entry(edges: Seq<GraphEdge>, i: int) -> TopReferenced {
    TopReferenced {
        symbol_path: edges[i].target.stable_id.0,
        path: edges[i].target.path,
        stable_id: edges[i].target.stable_id.0,
        inbound_refs: refs_like(edges, i).len() as usize,
    }
}

/// One entry per reference key, in order of first occurrence.
pub open spec fn ref_groups(edges: Seq<GraphEdge>) -> Seq<TopReferenced> {
    gather(
        edges.len() as int,
        |i: int|
            if first_ref(edges, i) {
                seq![ref_entry(edges, i)]
            } else {
                seq![]
            },
    )
}

/// Most references first, then by path, then by stable identifier.
pub struct ByRefsThenPath;

impl KeyOrder<TopReferenced> for ByRefsThenPath {
    open spec fn before(a: TopReferenced, b: TopReferenced) -> bool {
        a.inbound_refs > b.inbound_refs || (a.inbound_refs == b.inbound_refs && (str_lt(a.path@, b.path@) || (
        !str_lt(b.path@, a.path@) && !str_lt(b.stable_id@, a.stable_id@))))
    }

    fn before_exec(a: &TopReferenced, b: &TopReferenced) -> (r: bool) {
        a.inbound_refs > b.inbound_refs || (a.inbound_refs == b.inbound_refs && (str_less(
            a.path.as_str(),
            b.path.as_str(),
        ) || (!str_less(b.path.as_str(), a.path.as_str()) && !str_less(
            b.stable_id.as_str(),
            a.stable_id.as_str(),
        ))))
    }
}

/// The most referenced symbols: the groups sorted, at most
/// `TOP_REFERENCED_LIMIT` of them.
pub open spec fn top_referenced_of(edges: Seq<GraphEdge>) -> Seq<TopReferenced> {
    let sorted = sort_by_key::<TopReferenced, ByRefsThenPath>(ref_groups(edges));
    if sorted.len() <= TOP_REFERENCED_LIMIT {
        sorted
    } else {
        sorted.take(TOP_REFERENCED_LIMIT as int)
    }
}

/// Only confirmed edges between two different files count as
/// references: adding an edge that is not confirmed, or whose source and
/// target lie in the same file, leaves the most referenced symbols as
/// they were.
pub proof fn lemma_top_referenced_ignores_local_edges(edges: Seq<GraphEdge>, e: GraphEdge)
    requires
        e.status != EdgeStatus::Confirmed || same_path(e.source.path@, e.target.path@),
    ensures
        top_referenced_of(edges.push(e)) == top_referenced_of(edges),
{
    let t = edges.push(e);
    let n = edges.len() as int;
    assert(t[n] == e);
    assert forall|i: int| 0 <= i < n implies #[trigger] refs_like(t, i) == refs_like(edges, i) by {
        let f = |j: int|
            if is_cross_ref(t[j]) && same_ref_key(t[j], t[i]) {
                seq![j]
            } else {
                seq![]
            };
        let g = |j: int|
            if is_cross_ref(edges[j]) && same_ref_key(edges[j], edges[i]) {
                seq![j]
            } else {
                seq![]
            };
        assert forall|m: int| 0 <= m < n implies #[trigger] f(m) == g(m) by {
            assert(t[m] == edges[m]);
        }
        lemma_gather_agree(f, g, n);
        assert(f(n) =~= Seq::<int>::empty());
        assert(refs_like(t, i) == gather(n + 1, f));
        assert(refs_like(edges, i) == gather(n, g));
        assert(gather(n + 1, f) =~= gather(n, f));
    }
    assert forall|i: int| 0 <= i < n implies #[trigger] first_ref(t, i) == first_ref(edges, i) by {
        assert(t[i] == edges[i]);
        if first_ref(edges, i) {
            assert forall|j: int| 0 <= j < i implies !(is_cross_ref(#[trigger] t[j]) && same_ref_key(t[i], t[j])) by {
                assert(t[j] == edges[j]);
            }
        }
        if first_ref(t, i) {
            assert forall|j: int| 0 <= j < i implies !(is_cross_ref(#[trigger] edges[j]) && same_ref_key(
                edges[i],
                edges[j],
            )) by {
                assert(t[j] == edges[j]);
            }
        }
    }
    let f = |i: int|
        if first_ref(t, i) {
            seq![ref_entry(t, i)]
        } else {
            seq![]
        };
    let g = |i: int|
        if first_ref(edges, i) {
            seq![ref_entry(edges, i)]
        } else {
            seq![]
        };
    assert forall|m: int| 0 <= m < n implies #[trigger] f(m) == g(m) by {
        assert(first_ref(t, m) == first_ref(edges, m));
        assert(refs_like(t, m) == refs_like(edges, m));
        assert(t[m] == edges[m]);
    }
    lemma_gather_agree(f, g, n);
    assert(!first_ref(t, n));
    assert(f(n) =~= Seq::<TopReferenced>::empty());
    assert(ref_groups(t) == gather(n + 1, f));
    assert(ref_groups(edges) == gather(n, g));
    assert(ref_groups(t) =~= ref_groups(edges));
}

/// Most references first, then path and identifier: a total preorder.
proof fn lemma_refs_then_path_total()
    ensures
        total_preorder::<TopReferenced, ByRefsThenPath>(),
{
    assert forall|a: TopReferenced, b: TopReferenced|
        #[trigger] ByRefsThenPath::before(a, b) || ByRefsThenPath::before(b, a) by {
        lemma_pair_not_after(
            (utf8(a.path@), utf8(a.stable_id@)),
            (utf8(b.path@), utf8(b.stable_id@)),
            (utf8(b.path@), utf8(b.stable_id@)),
        );
    }
    assert forall|a: TopReferenced, b: TopReferenced, c: TopReferenced|
        #[trigger] ByRefsThenPath::before(a, b) && #[trigger] ByRefsThenPath::before(b, c) implies ByRefsThenPath::before(
        a,
        c,
    ) by {
        lemma_pair_not_after(
            (utf8(a.path@), utf8(a.stable_id@)),
            (utf8(b.path@), utf8(b.stable_id@)),
            (utf8(c.path@), utf8(c.stable_id@)),
        );
    }
}

/// The most referenced symbols come most referenced first (then by path
/// and identifier), and there are at most `TOP_REFERENCED_LIMIT` of them.
pub proof fn lemma_top_referenced_sorted(edges: Seq<GraphEdge>)
    ensures
        sorted_by::<TopReferenced, ByRefsThenPath>(top_referenced_of(edges)),
        top_referenced_of(edges).len() <= TOP_REFERENCED_LIMIT,
{
    lemma_refs_then_path_total();
    let sorted = sort_by_key::<TopReferenced, ByRefsThenPath>(ref_groups(edges));
    lemma_sort_sorted::<TopReferenced, ByRefsThenPath>(ref_groups(edges));
    let t = top_referenced_of(edges);
    assert forall|i: int, j: int| 0 <= i < j < t.len() implies ByRefsThenPath::before(
        #[trigger] t[i],
        #[trigger] t[j],
    ) by {
        assert(t[i] == sorted[i] && t[j] == sorted[j]);
    }
}

/// How many of the first `n` edges are confirmed references from another
/// file to the target of `e` under the same kind: the edge is confirmed,
/// its source path differs from its target path, and its target path,
/// target stable identifier and kind are those of `e`.
pub open spec fn cross_refs_to(edges: Seq<GraphEdge>, e: GraphEdge, n: int) -> nat
    decreases n,
{
    if n <= 0 {
        0
    } else {
        let x = edges[n - 1];
        cross_refs_to(edges, e, n - 1) + if x.status == EdgeStatus::Confirmed && !same_path(
            x.source.path@,
            x.target.path@,
        ) && same_path(x.target.path@, e.target.path@) && x.target.stable_id.0@ == e.target.stable_id.0@
            && x.kind@ == e.kind@ {
            1nat
        } else {
            0nat
        }
    }
}

proof fn lemma_refs_count(edges: Seq<GraphEdge>, i: int, m: int)
    requires
        0 <= m <= edges.len(),
    ensures
        gather(
            m,
            |j: int|
                if is_cross_ref(edges[j]) && same_ref_key(edges[j], edges[i]) {
                    seq![j]
                } else {
                    seq![]
                },
        ).len() == cross_refs_to(edges, edges[i], m),
    decreases m,
{
    if m > 0 {
        lemma_refs_count(edges, i, m - 1);
    }
}

proof fn lemma_gather_member<U>(f: spec_fn(int) -> Seq<U>, n: int, x: U)
    requires
        gather(n, f).contains(x),
    ensures
        exists|i: int| 0 <= i < n && (#[trigger] f(i)).contains(x),
    decreases n,
{
    if n > 0 {
        let g = gather(n - 1, f);
        let k = choose|k: int| 0 <= k < gather(n, f).len() && gather(n, f)[k] == x;
        if k < g.len() {
            assert(g[k] == x);
            lemma_gather_member(f, n - 1, x);
        } else {
            assert(f(n - 1)[k - g.len()] == x);
        }
    }
}

/// `t` is the entry for the target of edge `i`, a confirmed edge from
/// another file, counting every confirmed edge from another file to that
/// target under the same kind.
pub open spec fn counts_cross_refs(t: TopReferenced, edges: Seq<GraphEdge>, i: int) -> bool {
    &&& 0 <= i < edges.len()
    &&& edges[i].status == EdgeStatus::Confirmed
    &&& !same_path(edges[i].source.path@, edges[i].target.path@)
    &&& t.symbol_path == edges[i].target.stable_id.0
    &&& t.path == edges[i].target.path
    &&& t.stable_id == edges[i].target.stable_id.0
    &&& t.inbound_refs as int == cross_refs_to(edges, edges[i], edges.len() as int) as usize as int
}

/// `t` counts the references from other files to the target of some
/// confirmed edge from another file.
pub open spec fn counted_from_other_files(t: TopReferenced, edges: Seq<GraphEdge>) -> bool {
    exists|i: int| counts_cross_refs(t, edges, i)
}

/// Each of the most referenced symbols is the target of a confirmed edge
/// from another file, and its count is the number of confirmed edges from
/// other files to that target under the same kind: edges within one file
/// and unconfirmed edges are never counted.
pub proof fn lemma_top_referenced_counts(edges: Seq<GraphEdge>)
    ensures
        forall|k: int|
            0 <= k < top_referenced_of(edges).len() ==> counted_from_other_files(
                #[trigger] top_referenced_of(edges)[k],
                edges,
            ),
{
    assert forall|k: int| 0 <= k < top_referenced_of(edges).len() implies counted_from_other_files(
        #[trigger] top_referenced_of(edges)[k],
        edges,
    ) by {
        let i = lemma_top_referenced_count_at(edges, k);
        assert(counts_cross_refs(top_referenced_of(edges)[k], edges, i));
    }
}

proof fn lemma_top_referenced_count_at(edges: Seq<GraphEdge>, k: int) -> (i: int)
    requires
        0 <= k < top_referenced_of(edges).len(),
    ensures
        counts_cross_refs(top_referenced_of(edges)[k], edges, i),
{
    let groups = ref_groups(edges);
    let sorted = sort_by_key::<TopReferenced, ByRefsThenPath>(groups);
    lemma_sort_members::<TopReferenced, ByRefsThenPath>(groups);
    let f = |i: int|
        if first_ref(edges, i) {
            seq![ref_entry(edges, i)]
        } else {
            seq![]
        };
    assert(groups == gather(edges.len() as int, f));
    let t = top_referenced_of(edges)[k];
    assert(t == sorted[k]);
    assert(groups.contains(t));
    lemma_gather_member(f, edges.len() as int, t);
    let i = choose|i: int| 0 <= i < edges.len() && (#[trigger] f(i)).contains(t);
    assert(first_ref(edges, i));
    assert(t == ref_entry(edges, i));
    lemma_refs_count(edges, i, edges.len() as int);
    i
}

fn count_refs_like(edges: &Vec<GraphEdge>, i: usize) -> (n: usize)
    requires
        i < edges@.len(),
    ensures
        n == refs_like(edges@, i as int).len(),
{
    let mut n: usize = 0;
    let mut j: usize = 0;
    while j < edges.len()
        invariant
            j <= edges@.len(),
            i < edges@.len(),
            n == gather(
                j as int,
                |m: int|
                    if is_cross_ref(edges@[m]) && same_ref_key(edges@[m], edges@[i as int]) {
                        seq![m]
                    } else {
                        seq![]
                    },
            ).len(),
            n <= j,
        decreases edges@.len() - j,
    {
        if is_cross_ref_exec(&edges[j]) && same_ref_key_exec(&edges[j], &edges[i]) {
            n = n + 1;
        }
        j = j + 1;
    }
    n
}

fn is_cross_ref_exec(e: &GraphEdge) -> (r: bool)
    ensures
        r == is_cross_ref(*e),
{
    e.status == EdgeStatus::Confirmed && !path_equal(e.source.path.as_str(), e.target.path.as_str())
}

fn same_ref_key_exec(probe: &GraphEdge, stored: &GraphEdge) -> (r: bool)
    ensures
        r == same_ref_key(*probe, *stored),
{
    path_equal(probe.target.path.as_str(), stored.target.path.as_str()) && probe.target.stable_id.0
        == stored.target.stable_id.0 && probe.kind == stored.kind
}

fn build_top_referenced(edges: &Vec<GraphEdge>) -> (r: Vec<TopReferenced>)
    ensures
        r@ == top_referenced_of(edges@),
{
    let mut groups: Vec<TopReferenced> = Vec::new();
    let mut i: usize = 0;
    while i < edges.len()
        invariant
            i <= edges@.len(),
            groups@ == gather(
                i as int,
                |m: int|
                    if first_ref(edges@, m) {
                        seq![ref_entry(edges@, m)]
                    } else {
                        seq![]
                    },
            ),
        decreases edges@.len() - i,
    {
        if is_cross_ref_exec(&edges[i]) {
            let mut first = true;
            let mut j: usize = 0;
            while j < i
                invariant
                    j <= i,
                    i < edges@.len(),
                    is_cross_ref(edges@[i as int]),
                    first <==> !exists|m: int|
                        0 <= m < j && is_cross_ref(#[trigger] edges@[m]) && same_ref_key(edges@[i as int], edges@[m]),
                decreases i - j,
            {
                if is_cross_ref_exec(&edges[j]) && same_ref_key_exec(&edges[i], &edges[j]) {
                    first = false;
                }
                j = j + 1;
            }
            if first {
                let e = &edges[i];
                let count = count_refs_like(edges, i);
                groups.push(
                    TopReferenced {
                        symbol_path: copy_string(&e.target.stable_id.0),
                        path: copy_string(&e.target.path),
                        stable_id: copy_string(&e.target.stable_id.0),
                        inbound_refs: count,
                    },
                );
            }
        }
        i = i + 1;
    }
    let ghost g = groups@;
    let mut sorted = sort_stable::<TopReferenced, ByRefsThenPath>(groups);
    proof {
        lemma_sort_len::<TopReferenced, ByRefsThenPath>(g);
    }
    if sorted.len() > TOP_REFERENCED_LIMIT {
        sorted.truncate(TOP_REFERENCED_LIMIT);
    }
    sorted
}

// ---------------------------------------------------------------------
// Entry points
// ---------------------------------------------------------------------

/// Whether some edge targets (path, stable identifier).
pub open spec fn has_inbound(edges: Seq<GraphEdge>, path: Seq<char>, sid: Seq<char>) -> bool {
    exists|j: int|
        0 <= j < edges.len() && same_path(path, #[trigger] edges[j].target.path@) && edges[j].target.stable_id.0@
            == sid
}

/// The entry point that symbol `k` of file `i` gives, if it is one: a
/// definition whose (file path, stable identifier) no edge targets.
pub open spec fn entry_sym_part(files: Seq<GraphFile>, edges: Seq<GraphEdge>, i: int, k: int) -> Seq<EntryPoint> {
    let f = files[i];
    let s = f.symbols@[k];
    if s.is_definition && !has_inbound(edges, f.path@, s.node_handle.stable_id.0@) {
        seq![EntryPoint { symbol_path: s.node_handle.stable_id.0, path: f.path, stable_id: s.node_handle.stable_id.0 }]
    } else {
        seq![]
    }
}

/// The entry points of file `i`, in symbol order.
pub open spec fn entry_file_part(files: Seq<GraphFile>, edges: Seq<GraphEdge>, i: int) -> Seq<EntryPoint> {
    gather(files[i].symbols@.len() as int, |k: int| entry_sym_part(files, edges, i, k))
}

/// By path, then by stable identifier.
pub struct ByPathThenId;

impl KeyOrder<EntryPoint> for ByPathThenId {
    open spec fn before(a: EntryPoint, b: EntryPoint) -> bool {
        str_lt(a.path@, b.path@) || (!str_lt(b.path@, a.path@) && !str_lt(b.stable_id@, a.stable_id@))
    }

    fn before_exec(a: &EntryPoint, b: &EntryPoint) -> (r: bool) {
        str_less(a.path.as_str(), b.path.as_str()) || (!str_less(b.path.as_str(), a.path.as_str()) && !str_less(
            b.stable_id.as_str(),
            a.stable_id.as_str(),
        ))
    }
}

/// The entry points of a snapshot, sorted by path then stable identifier.
pub open spec fn entry_points_of(files: Seq<GraphFile>, edges: Seq<GraphEdge>) -> Seq<EntryPoint> {
    sort_by_key::<EntryPoint, ByPathThenId>(gather(files.len() as int, |i: int| entry_file_part(files, edges, i)))
}

/// Path, then identifier: a total preorder.
proof fn lemma_path_then_id_total()
    ensures
        total_preorder::<EntryPoint, ByPathThenId>(),
{
    assert forall|a: EntryPoint, b: EntryPoint| #[trigger] ByPathThenId::before(a, b) || ByPathThenId::before(b, a) by {
        lemma_pair_not_after(
            (utf8(a.path@), utf8(a.stable_id@)),
            (utf8(b.path@), utf8(b.stable_id@)),
            (utf8(b.path@), utf8(b.stable_id@)),
        );
    }
    assert forall|a: EntryPoint, b: EntryPoint, c: EntryPoint|
        #[trigger] ByPathThenId::before(a, b) && #[trigger] ByPathThenId::before(b, c) implies ByPathThenId::before(
        a,
        c,
    ) by {
        lemma_pair_not_after(
            (utf8(a.path@), utf8(a.stable_id@)),
            (utf8(b.path@), utf8(b.stable_id@)),
            (utf8(c.path@), utf8(c.stable_id@)),
        );
    }
}

/// Entry points come in path order, then identifier order.
pub proof fn lemma_entry_points_sorted(files: Seq<GraphFile>, edges: Seq<GraphEdge>)
    ensures
        sorted_by::<EntryPoint, ByPathThenId>(entry_points_of(files, edges)),
{
    lemma_path_then_id_total();
    lemma_sort_sorted::<EntryPoint, ByPathThenId>(
        gather(files.len() as int, |i: int| entry_file_part(files, edges, i)),
    );
}

fn has_inbound_exec(edges: &Vec<GraphEdge>, path: &String, sid: &String) -> (r: bool)
    ensures
        r == has_inbound(edges@, path@, sid@),
{
    let mut j: usize = 0;
    while j < edges.len()
        invariant
            j <= edges@.len(),
            forall|m: int|
                0 <= m < j ==> !(same_path(path@, #[trigger] edges@[m].target.path@) && edges@[m].target.stable_id.0@
                    == sid@),
        decreases edges@.len() - j,
    {
        if path_equal(path.as_str(), edges[j].target.path.as_str()) && edges[j].target.stable_id.0 == *sid {
            return true;
        }
        j = j + 1;
    }
    false
}

fn build_entry_points(files: &Vec<GraphFile>, edges: &Vec<GraphEdge>) -> (r: Vec<EntryPoint>)
    ensures
        r@ == entry_points_of(files@, edges@),
{
    let mut out: Vec<EntryPoint> = Vec::new();
    let mut i: usize = 0;
    while i < files.len()
        invariant
            i <= files@.len(),
            out@ == gather(i as int, |m: int| entry_file_part(files@, edges@, m)),
        decreases files@.len() - i,
    {
        let f = &files[i];
        let ghost base = out@;
        let mut k: usize = 0;
        while k < f.symbols.len()
            invariant
                k <= f.symbols@.len(),
                i < files@.len(),
                *f == files@[i as int],
                out@ == base + gather(k as int, |q: int| entry_sym_part(files@, edges@, i as int, q)),
            decreases f.symbols@.len() - k,
        {
            let s = &f.symbols[k];
            if s.is_definition && !has_inbound_exec(edges, &f.path, &s.node_handle.stable_id.0) {
                out.push(
                    EntryPoint {
                        symbol_path: copy_string(&s.node_handle.stable_id.0),
                        path: copy_string(&f.path),
                        stable_id: copy_string(&s.node_handle.stable_id.0),
                    },
                );
            }
            k = k + 1;
            assert(out@ =~= base + gather(k as int, |q: int| entry_sym_part(files@, edges@, i as int, q)));
        }
        i = i + 1;
    }
    sort_stable::<EntryPoint, ByPathThenId>(out)
}

// ---------------------------------------------------------------------
// The block
// ---------------------------------------------------------------------

/// Whether `b` is the unbudgeted orientation block of `s`.
pub open spec fn is_orientation_of(b: OrientationBlock, s: GraphSnapshot, god_nodes: Option<Seq<GodNode>>) -> bool {
    &&& b.schema_version@ == ORIENTATION_SCHEMA_VERSION@
    &&& b.graph_snapshot_id.0@ == s.snapshot_id.0@
    &&& b.stats == stats_of(s)
    &&& b.top_referenced@ == top_referenced_of(s.edges@)
    &&& b.entry_points@ == entry_points_of(s.files@, s.edges@)
    &&& match god_nodes {
        Some(nodes) => b.god_nodes matches OrientationField::Computed { status, nodes: n } && status@ == "computed"@
            && n@ == nodes,
        None => b.god_nodes is PostprocessUnavailable,
    }
    &&& b.communities is PostprocessUnavailable
    &&& b.architecture_summary is PostprocessUnavailable
    &&& b.budget_truncated is None
}

/// Build the orientation block of a snapshot, with the god-nodes when
/// post-processing computed them. The block is not fitted to a budget:
/// see `apply_budget_step`.
pub fn build_orientation(snapshot: &GraphSnapshot, god_nodes: Option<Vec<GodNode>>) -> (b: OrientationBlock)
    requires
        symbol_total(snapshot.files@) <= usize::MAX,
    ensures
        is_orientation_of(
            b,
            *snapshot,
            match god_nodes {
                Some(v) => Some(v@),
                None => None,
            },
        ),
{
    let stats = OrientationStats {
        file_count: snapshot.files.len(),
        symbol_count: count_symbols(&snapshot.files),
        language_count: count_languages(&snapshot.files),
        edge_count: snapshot.edges.len(),
    };
    let top_referenced = build_top_referenced(&snapshot.edges);
    let entry_points = build_entry_points(&snapshot.files, &snapshot.edges);
    let god_nodes_field = match god_nodes {
        Some(nodes) => OrientationField::Computed { status: "computed".to_owned(), nodes },
        None => OrientationField::PostprocessUnavailable,
    };
    OrientationBlock {
        schema_version: ORIENTATION_SCHEMA_VERSION.to_owned(),
        graph_snapshot_id: GraphSnapshotId(copy_string(&snapshot.snapshot_id.0)),
        stats,
        top_referenced,
        entry_points,
        god_nodes: god_nodes_field,
        communities: OrientationField::PostprocessUnavailable,
        architecture_summary: OrientationField::PostprocessUnavailable,
        budget_truncated: None,
    }
}

// ---------------------------------------------------------------------
// Fitting a budget
// ---------------------------------------------------------------------

/// Which form of the block the caller measured.
#[derive(Clone, Copy, Debug, PartialEq, Eq, Structural)]
pub enum BudgetStage {
    /// The whole block.
    Full,
    /// The block without entry points.
    WithoutEntryPoints,
    /// The block without the most referenced symbols, and without entry
    /// points when `entry_points_dropped`.
    WithoutTopReferenced { entry_points_dropped: bool },
}

/// Whether `t` records a budget truncation that omitted `omitted`.
pub open spec fn truncated_with(t: Option<BudgetTruncated>, omitted: Seq<Seq<char>>) -> bool {
    t matches Some(bt) && bt.reason@ == "budget_exhausted"@ && views(bt.omitted@) == omitted
}

/// The last resort: keep only the stats.
pub open spec fn stats_only(b: OrientationBlock, old_b: OrientationBlock) -> bool {
    &&& b.top_referenced@.len() == 0
    &&& b.entry_points@.len() == 0
    &&& truncated_with(b.budget_truncated, seq!["top_referenced"@, "entry_points"@])
}

/// The parts of the block that fitting a budget leaves alone.
pub open spec fn same_core(b: OrientationBlock, o: OrientationBlock) -> bool {
    &&& b.schema_version == o.schema_version
    &&& b.graph_snapshot_id == o.graph_snapshot_id
    &&& b.stats == o.stats
    &&& b.god_nodes == o.god_nodes
    &&& b.communities == o.communities
    &&& b.architecture_summary == o.architecture_summary
}

fn truncation(omitted: Vec<String>) -> (t: Option<BudgetTruncated>)
    ensures
        t matches Some(bt) && bt.reason@ == "budget_exhausted"@ && bt.omitted@ == omitted@,
{
    Some(BudgetTruncated { reason: "budget_exhausted".to_owned(), omitted })
}

fn keep_stats_only(block: &mut OrientationBlock)
    ensures
        stats_only(*final(block), *old(block)),
        same_core(*final(block), *old(block)),
{
    block.top_referenced = Vec::new();
    block.entry_points = Vec::new();
    let mut omitted: Vec<String> = Vec::new();
    omitted.push("top_referenced".to_owned());
    omitted.push("entry_points".to_owned());
    block.budget_truncated = truncation(omitted);
    proof {
        let b = block.budget_truncated.unwrap();
        assert(views(b.omitted@) =~= seq!["top_referenced"@, "entry_points"@]);
    }
}

/// One step of fitting the block to `budget` tokens. `json_len` is the
/// length of the block's JSON rendering in the form `stage` names; its
/// token estimate decides. The block either fits, and the step records
/// what was omitted to get there, or the next part is dropped (entry
/// points first, then the most referenced symbols) and the step asks for
/// the new form to be measured. When nothing is left to drop, only the
/// stats are kept. `None` means the block is final.
pub fn apply_budget_step(block: &mut OrientationBlock, budget: usize, stage: BudgetStage, json_len: usize) -> (next:
    Option<BudgetStage>)
    requires
        old(block).budget_truncated is None,
    ensures
        same_core(*final(block), *old(block)),
        ({
            let fits = token_estimate(json_len as nat) <= budget;
            let o = *old(block);
            let b = *final(block);
            match stage {
                BudgetStage::Full => if fits {
                    next is None && b.top_referenced@ == o.top_referenced@ && b.entry_points@ == o.entry_points@
                        && b.budget_truncated is None
                } else if o.entry_points@.len() > 0 {
                    next == Some(BudgetStage::WithoutEntryPoints) && b.entry_points@.len() == 0 && b.top_referenced@
                        == o.top_referenced@ && b.budget_truncated is None
                } else if o.top_referenced@.len() > 0 {
                    next == Some(BudgetStage::WithoutTopReferenced { entry_points_dropped: false })
                        && b.top_referenced@.len() == 0 && b.entry_points@ == o.entry_points@
                        && b.budget_truncated is None
                } else {
                    next is None && stats_only(b, o)
                },
                BudgetStage::WithoutEntryPoints => if fits {
                    next is None && b.top_referenced@ == o.top_referenced@ && b.entry_points@ == o.entry_points@
                        && truncated_with(b.budget_truncated, seq!["entry_points"@])
                } else if o.top_referenced@.len() > 0 {
                    next == Some(BudgetStage::WithoutTopReferenced { entry_points_dropped: true })
                        && b.top_referenced@.len() == 0 && b.entry_points@ == o.entry_points@
                        && b.budget_truncated is None
                } else {
                    next is None && stats_only(b, o)
                },
                BudgetStage::WithoutTopReferenced { entry_points_dropped } => if fits {
                    next is None && b.top_referenced@ == o.top_referenced@ && b.entry_points@ == o.entry_points@
                        && truncated_with(
                        b.budget_truncated,
                        if entry_points_dropped {
                            seq!["entry_points"@, "top_referenced"@]
                        } else {
                            seq!["top_referenced"@]
                        },
                    )
                } else {
                    next is None && stats_only(b, o)
                },
            }
        }),
{
    let fits = estimate_tokens(json_len) <= budget;
    match stage {
        BudgetStage::Full => {
            if fits {
                None
            } else if block.entry_points.len() > 0 {
                block.entry_points = Vec::new();
                Some(BudgetStage::WithoutEntryPoints)
            } else if block.top_referenced.len() > 0 {
                block.top_referenced = Vec::new();
                Some(BudgetStage::WithoutTopReferenced { entry_points_dropped: false })
            } else {
                keep_stats_only(block);
                None
            }
        },
        BudgetStage::WithoutEntryPoints => {
            if fits {
                let mut omitted: Vec<String> = Vec::new();
                omitted.push("entry_points".to_owned());
                block.budget_truncated = truncation(omitted);
                proof {
                    let b = block.budget_truncated.unwrap();
                    assert(views(b.omitted@) =~= seq!["entry_points"@]);
                }
                None
            } else if block.top_referenced.len() > 0 {
                block.top_referenced = Vec::new();
                Some(BudgetStage::WithoutTopReferenced { entry_points_dropped: true })
            } else {
                keep_stats_only(block);
                None
            }
        },
        BudgetStage::WithoutTopReferenced { entry_points_dropped } => {
            if fits {
                let mut omitted: Vec<String> = Vec::new();
                if entry_points_dropped {
                    omitted.push("entry_points".to_owned());
                }
                omitted.push("top_referenced".to_owned());
                block.budget_truncated = truncation(omitted);
                proof {
                    let b = block.budget_truncated.unwrap();
                    if entry_points_dropped {
                        assert(views(b.omitted@) =~= seq!["entry_points"@, "top_referenced"@]);
                    } else {
                        assert(views(b.omitted@) =~= seq!["top_referenced"@]);
                    }
                }
                None
            } else {
                keep_stats_only(block);
                None
            }
        },
    }
}

} // verus!
