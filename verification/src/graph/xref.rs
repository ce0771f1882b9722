//! Cross-file reference resolution and substrate queries.

use vstd::prelude::*;

use crate::dup::Duplicate;
use crate::graph::paths::{same_path, path_equal, path_less, path_lt};
use crate::graph::snapshot::{EdgeStatus, GraphEdge, GraphFile, GraphNode, GraphNodeHandle, GraphSnapshot, GraphSymbol};
use crate::identity::StableId;
use crate::schema::Confidence;
use crate::sort::{lemma_sort_len, sort_by_key, sort_stable, KeyOrder};
use crate::text::{copy_opt_string, copy_string, str_less, str_lt};

verus! {

/// All symbols of a sequence of files, file by file, in order.
pub open spec fn all_symbols(files: Seq<GraphFile>) -> Seq<GraphSymbol>
    decreases files.len(),
{
    if files.len() == 0 {
        seq![]
    } else {
        all_symbols(files.drop_last()) + files.last().symbols@
    }
}

/// All nodes of a sequence of files, file by file, in order.
pub open spec fn all_nodes(files: Seq<GraphFile>) -> Seq<GraphNode>
    decreases files.len(),
{
    if files.len() == 0 {
        seq![]
    } else {
        all_nodes(files.drop_last()) + files.last().nodes@
    }
}

/// The handles of the definitions with the given name and syntax type, in order.
pub open spec fn definitions_for(s: Seq<GraphSymbol>, name: Seq<char>, syntax_type: Seq<char>) -> Seq<GraphNodeHandle>
    decreases s.len(),
{
    if s.len() == 0 {
        seq![]
    } else {
        definitions_for(s.drop_last(), name, syntax_type) + if s.last().is_definition && s.last().name@
            == name && s.last().syntax_type@ == syntax_type {
            seq![s.last().node_handle]
        } else {
            seq![]
        }
    }
}

/// Order candidate handles by path, then by stable identifier.
pub struct HandlesByPathThenId;

impl KeyOrder<GraphNodeHandle> for HandlesByPathThenId {
    open spec fn before(a: GraphNodeHandle, b: GraphNodeHandle) -> bool {
        path_lt(a.path@, b.path@) || (!path_lt(b.path@, a.path@) && !str_lt(b.stable_id.0@, a.stable_id.0@))
    }

    fn before_exec(a: &GraphNodeHandle, b: &GraphNodeHandle) -> (r: bool) {
        path_less(a.path.as_str(), b.path.as_str()) || (!path_less(b.path.as_str(), a.path.as_str())
            && !str_less(b.stable_id.0.as_str(), a.stable_id.0.as_str()))
    }
}

/// Whether `e` is the edge recorded for the reference `r` whose matching
/// definitions, in snapshot order, are `defs`: confirmed with high
/// confidence when exactly one definition matches; ambiguous with low
/// confidence when several do, with the candidates sorted by path then
/// stable identifier and the first of them as target; unresolved with
/// medium confidence when none does, aimed at a placeholder handle in the
/// reference's own file.
pub open spec fn is_reference_edge(e: GraphEdge, r: GraphSymbol, defs: Seq<GraphNodeHandle>) -> bool {
    &&& e.source == r.node_handle
    &&& e.kind@ == "reference"@
    &&& if defs.len() == 0 {
        &&& e.status == EdgeStatus::Unresolved
        &&& e.confidence == Confidence::Medium
        &&& e.target.path == r.node_handle.path
        &&& e.target.stable_id.0@ == "unresolved"@
        &&& e.target.anchor_byte == 0
        &&& e.candidates@.len() == 0
    } else if defs.len() == 1 {
        &&& e.status == EdgeStatus::Confirmed
        &&& e.confidence == Confidence::High
        &&& e.target == defs[0]
        &&& e.candidates@.len() == 0
    } else {
        let sorted = sort_by_key::<GraphNodeHandle, HandlesByPathThenId>(defs);
        &&& e.status == EdgeStatus::Ambiguous
        &&& e.confidence == Confidence::Low
        &&& e.candidates@ == sorted
        &&& e.target == sorted[0]
    }
}

/// The references (non-definition symbols) of `s`, in order.
pub open spec fn references(s: Seq<GraphSymbol>) -> Seq<GraphSymbol>
    decreases s.len(),
{
    if s.len() == 0 {
        seq![]
    } else {
        references(s.drop_last()) + if s.last().is_definition {
            seq![]
        } else {
            seq![s.last()]
        }
    }
}

/// All symbols of the files, file by file.
fn flatten_symbols(files: &Vec<GraphFile>) -> (r: Vec<GraphSymbol>)
    ensures
        r@ == all_symbols(files@),
{
    let mut r: Vec<GraphSymbol> = Vec::new();
    let mut i: usize = 0;
    while i < files.len()
        invariant
            i <= files@.len(),
            r@ == all_symbols(files@.take(i as int)),
        decreases files@.len() - i,
    {
        let syms = &files[i].symbols;
        let ghost base = r@;
        let mut j: usize = 0;
        while j < syms.len()
            invariant
                j <= syms@.len(),
                syms == files@[i as int].symbols,
                r@ == base + syms@.take(j as int),
            decreases syms@.len() - j,
        {
            r.push(syms[j].dup());
            j = j + 1;
            assert(r@ =~= base + syms@.take(j as int));
        }
        assert(files@.take(i + 1).drop_last() =~= files@.take(i as int));
        assert(syms@.take(j as int) =~= syms@);
        i = i + 1;
    }
    assert(files@.take(files@.len() as int) =~= files@);
    r
}

/// All nodes of the files, file by file.
pub(crate) fn flatten_nodes(files: &Vec<GraphFile>) -> (r: Vec<GraphNode>)
    ensures
        r@ == all_nodes(files@),
{
    let mut r: Vec<GraphNode> = Vec::new();
    let mut i: usize = 0;
    while i < files.len()
        invariant
            i <= files@.len(),
            r@ == all_nodes(files@.take(i as int)),
        decreases files@.len() - i,
    {
        let nodes = &files[i].nodes;
        let ghost base = r@;
        let mut j: usize = 0;
        while j < nodes.len()
            invariant
                j <= nodes@.len(),
                nodes == files@[i as int].nodes,
                r@ == base + nodes@.take(j as int),
            decreases nodes@.len() - j,
        {
            r.push(nodes[j].dup());
            j = j + 1;
            assert(r@ =~= base + nodes@.take(j as int));
        }
        assert(files@.take(i + 1).drop_last() =~= files@.take(i as int));
        assert(nodes@.take(j as int) =~= nodes@);
        i = i + 1;
    }
    assert(files@.take(files@.len() as int) =~= files@);
    r
}

/// The handles of the definitions among `syms` with the given name and
/// syntax type, in order.
fn matching_definitions(syms: &Vec<GraphSymbol>, name: &String, syntax_type: &String) -> (r: Vec<GraphNodeHandle>)
    ensures
        r@ == definitions_for(syms@, name@, syntax_type@),
{
    let mut r: Vec<GraphNodeHandle> = Vec::new();
    let mut j: usize = 0;
    while j < syms.len()
        invariant
            j <= syms@.len(),
            r@ == definitions_for(syms@.take(j as int), name@, syntax_type@),
        decreases syms@.len() - j,
    {
        let s = &syms[j];
        if s.is_definition && s.name == *name && s.syntax_type == *syntax_type {
            r.push(s.node_handle.dup());
        }
        assert(syms@.take(j + 1).drop_last() =~= syms@.take(j as int));
        j = j + 1;
    }
    assert(syms@.take(syms@.len() as int) =~= syms@);
    r
}

/// The edge for the reference `r` given its matching definitions.
fn reference_edge(r: &GraphSymbol, defs: Vec<GraphNodeHandle>) -> (e: GraphEdge)
    ensures
        is_reference_edge(e, *r, defs@),
{
    let ghost d = defs@;
    if defs.len() == 0 {
        GraphEdge {
            source: r.node_handle.dup(),
            target: GraphNodeHandle {
                path: copy_string(&r.node_handle.path),
                stable_id: StableId("unresolved".to_owned()),
                anchor_byte: 0,
            },
            kind: "reference".to_owned(),
            status: EdgeStatus::Unresolved,
            confidence: Confidence::Medium,
            candidates: Vec::new(),
        }
    } else if defs.len() == 1 {
        GraphEdge {
            source: r.node_handle.dup(),
            target: defs[0].dup(),
            kind: "reference".to_owned(),
            status: EdgeStatus::Confirmed,
            confidence: Confidence::High,
            candidates: Vec::new(),
        }
    } else {
        let sorted = sort_stable::<GraphNodeHandle, HandlesByPathThenId>(defs);
        proof {
            lemma_sort_len::<GraphNodeHandle, HandlesByPathThenId>(d);
        }
        let target = sorted[0].dup();
        GraphEdge {
            source: r.node_handle.dup(),
            target,
            kind: "reference".to_owned(),
            status: EdgeStatus::Ambiguous,
            confidence: Confidence::Low,
            candidates: sorted,
        }
    }
}

/// Resolve cross-file references for a snapshot: one edge per reference
/// symbol, in snapshot order, each stating its status explicitly. A
/// reference is matched against the definitions of every file with the
/// same name and syntax type; ambiguity is kept, not hidden.
pub fn resolve_xref(snapshot: &GraphSnapshot) -> (edges: Vec<GraphEdge>)
    ensures
        edges@.len() == references(all_symbols(snapshot.files@)).len(),
        forall|i: int|
            0 <= i < edges@.len() ==> {
                let r = #[trigger] references(all_symbols(snapshot.files@))[i];
                is_reference_edge(edges@[i], r, definitions_for(all_symbols(snapshot.files@), r.name@, r.syntax_type@))
            },
{
    let syms = flatten_symbols(&snapshot.files);
    let ghost all = syms@;
    let mut edges: Vec<GraphEdge> = Vec::new();
    let mut j: usize = 0;
    while j < syms.len()
        invariant
            j <= syms@.len(),
            syms@ == all,
            edges@.len() == references(all.take(j as int)).len(),
            forall|i: int|
                0 <= i < edges@.len() ==> {
                    let r = #[trigger] references(all.take(j as int))[i];
                    is_reference_edge(edges@[i], r, definitions_for(all, r.name@, r.syntax_type@))
                },
        decreases syms@.len() - j,
    {
        let s = &syms[j];
        let ghost prev = references(all.take(j as int));
        assert(all.take(j + 1).drop_last() =~= all.take(j as int));
        assert(all.take(j + 1).last() == *s);
        if !s.is_definition {
            let defs = matching_definitions(&syms, &s.name, &s.syntax_type);
            let e = reference_edge(s, defs);
            edges.push(e);
            assert(references(all.take(j + 1)) == prev.push(*s));
            assert forall|i: int| 0 <= i < edges@.len() implies {
                let r = #[trigger] references(all.take(j + 1))[i];
                is_reference_edge(edges@[i], r, definitions_for(all, r.name@, r.syntax_type@))
            } by {
                if i < prev.len() {
                    assert(references(all.take(j + 1))[i] == prev[i]);
                }
            }
        } else {
            assert(references(all.take(j + 1)) =~= prev);
        }
        j = j + 1;
    }
    assert(all.take(all.len() as int) =~= all);
    edges
}

/// Whether `n` is the node that `h` names: same path (as paths compare),
/// stable identifier and anchor byte.
pub open spec fn node_matches(n: GraphNode, h: GraphNodeHandle) -> bool {
    &&& same_path(n.path@, h.path@)
    &&& n.stable_id.0@ == h.stable_id.0@
    &&& n.anchor_byte == h.anchor_byte
}

fn node_matches_exec(n: &GraphNode, h: &GraphNodeHandle) -> (r: bool)
    ensures
        r == node_matches(*n, *h),
{
    path_equal(n.path.as_str(), h.path.as_str()) && n.stable_id.0 == h.stable_id.0 && n.anchor_byte == h.anchor_byte
}

/// The index of the first node of `ns` that `h` names, if any.
fn first_match(ns: &Vec<GraphNode>, h: &GraphNodeHandle) -> (r: Option<usize>)
    ensures
        match r {
            None => forall|k: int| 0 <= k < ns@.len() ==> !node_matches(#[trigger] ns@[k], *h),
            Some(k) => k < ns@.len() && node_matches(ns@[k as int], *h) && forall|m: int|
                0 <= m < k ==> !node_matches(#[trigger] ns@[m], *h),
        },
{
    let mut k: usize = 0;
    while k < ns.len()
        invariant
            k <= ns@.len(),
            forall|m: int| 0 <= m < k ==> !node_matches(#[trigger] ns@[m], *h),
        decreases ns@.len() - k,
    {
        if node_matches_exec(&ns[k], h) {
            return Some(k);
        }
        k = k + 1;
    }
    None
}

/// Whether the snapshot holds the node that `handle` names.
pub fn node_exists(snapshot: &GraphSnapshot, handle: &GraphNodeHandle) -> (r: bool)
    ensures
        r == exists|k: int|
            0 <= k < all_nodes(snapshot.files@).len() && node_matches(
                #[trigger] all_nodes(snapshot.files@)[k],
                *handle,
            ),
{
    let ns = flatten_nodes(&snapshot.files);
    match first_match(&ns, handle) {
        Some(k) => {
            assert(node_matches(ns@[k as int], *handle));
            true
        },
        None => false,
    }
}

/// Signature metadata for a node.
#[derive(Clone, Debug, Eq, PartialEq)]
pub struct NodeSignature {
    pub kind: String,
    pub name: Option<String>,
    pub signature_hash: Option<String>,
    pub content_hash: Option<String>,
}

/// Whether `s` carries the signature metadata of `n`.
pub open spec fn is_signature_of(s: NodeSignature, n: GraphNode) -> bool {
    &&& s.kind == n.kind
    &&& s.name == n.name
    &&& s.signature_hash == n.signature_hash
    &&& s.content_hash == n.content_hash
}

/// The signature metadata of the first node, in snapshot order, that
/// `handle` names; `None` when the snapshot holds no such node.
pub fn node_signature(snapshot: &GraphSnapshot, handle: &GraphNodeHandle) -> (r: Option<NodeSignature>)
    ensures
        match r {
            None => forall|k: int|
                0 <= k < all_nodes(snapshot.files@).len() ==> !node_matches(
                    #[trigger] all_nodes(snapshot.files@)[k],
                    *handle,
                ),
            Some(s) => exists|k: int|
                0 <= k < all_nodes(snapshot.files@).len() && node_matches(
                    #[trigger] all_nodes(snapshot.files@)[k],
                    *handle,
                ) && is_signature_of(s, all_nodes(snapshot.files@)[k]) && forall|m: int|
                    0 <= m < k ==> !node_matches(#[trigger] all_nodes(snapshot.files@)[m], *handle),
        },
{
    let ns = flatten_nodes(&snapshot.files);
    match first_match(&ns, handle) {
        Some(k) => {
            let n = &ns[k];
            let s = NodeSignature {
                kind: copy_string(&n.kind),
                name: copy_opt_string(&n.name),
                signature_hash: copy_opt_string(&n.signature_hash),
                content_hash: copy_opt_string(&n.content_hash),
            };
            assert(is_signature_of(s, ns@[k as int]));
            Some(s)
        },
        None => None,
    }
}

} // verus!
