//! The graph that god-node ranking runs on: nodes indexed by (path,
//! stable identifier) in first-seen order, and the cross-file edges
//! between them as out-degrees and inbound lists; and the ranking of an
//! ordered list of nodes. The power iteration itself works on floating
//! point scores and runs outside this library.

use vstd::prelude::*;

use crate::graph::diff::{gather, lemma_gather_agree};
use crate::graph::paths::{same_path, path_equal};
use crate::graph::postprocess::{ranks_continuous, GodNode};
use crate::graph::snapshot::{GraphEdge, GraphFile, GraphNode, GraphSnapshot};
use crate::graph::xref::all_nodes;
use crate::text::copy_string;

verus! {

/// The number of god-nodes kept.
pub const TOP_N: usize = 20;

/// A node key: path and stable identifier.
pub type KeyView = (Seq<char>, Seq<char>);

/// The key of a node.
pub open spec fn node_key(n: GraphNode) -> KeyView {
    (n.path@, n.stable_id.0@)
}

/// Whether the key of node `i` occurs at an earlier node.
pub open spec fn seen_before(nodes: Seq<GraphNode>, i: int) -> bool {
    exists|j: int| 0 <= j < i && #[trigger] node_key(nodes[j]) == node_key(nodes[i])
}

/// The key that node `i` adds to the index: its own, the first time it
/// is seen.
pub open spec fn key_part(nodes: Seq<GraphNode>, i: int) -> Seq<KeyView> {
    if seen_before(nodes, i) {
        seq![]
    } else {
        seq![node_key(nodes[i])]
    }
}

/// The keys of `nodes` in first-seen order, each once.
pub open spec fn distinct_keys(nodes: Seq<GraphNode>) -> Seq<KeyView> {
    gather(nodes.len() as int, |i: int| key_part(nodes, i))
}

/// The views of stored keys.
pub open spec fn key_views(keys: Seq<(String, String)>) -> Seq<KeyView> {
    keys.map_values(|p: (String, String)| (p.0@, p.1@))
}

/// The position of `k` in `keys`.
pub open spec fn key_pos(keys: Seq<KeyView>, k: KeyView) -> int {
    choose|i: int| 0 <= i < keys.len() && keys[i] == k
}

/// An edge counts when it crosses files and both its ends are indexed.
pub open spec fn counted(e: GraphEdge, keys: Seq<KeyView>) -> bool {
    &&& !same_path(e.source.path@, e.target.path@)
    &&& keys.contains((e.source.path@, e.source.stable_id.0@))
    &&& keys.contains((e.target.path@, e.target.stable_id.0@))
}

/// The positions of the sources of the counted edges into node `t`, in
/// edge order.
pub open spec fn inbound_of(edges: Seq<GraphEdge>, keys: Seq<KeyView>, t: int) -> Seq<usize> {
    gather(
        edges.len() as int,
        |i: int|
            if counted(edges[i], keys) && (edges[i].target.path@, edges[i].target.stable_id.0@) == keys[t] {
                seq![key_pos(keys, (edges[i].source.path@, edges[i].source.stable_id.0@)) as usize]
            } else {
                seq![]
            },
    )
}

/// The counted edges out of node `s`.
pub open spec fn outbound_of(edges: Seq<GraphEdge>, keys: Seq<KeyView>, s: int) -> Seq<int> {
    gather(
        edges.len() as int,
        |i: int|
            if counted(edges[i], keys) && (edges[i].source.path@, edges[i].source.stable_id.0@) == keys[s] {
                seq![i]
            } else {
                seq![]
            },
    )
}

/// The graph that ranking runs on.
pub struct RankGraph {
    /// Node keys (path, stable identifier), in first-seen order.
    pub keys: Vec<(String, String)>,
    /// Counted edges out of each node.
    pub out_degree: Vec<usize>,
    /// Sources of the counted edges into each node, in edge order.
    pub inbound: Vec<Vec<usize>>,
}

/// Position of (path, stable identifier) among the keys.
fn find_key(keys: &Vec<(String, String)>, path: &String, sid: &String) -> (r: Option<usize>)
    ensures
        match r {
            None => !key_views(keys@).contains((path@, sid@)),
            Some(k) => k < keys@.len() && key_views(keys@)[k as int] == (path@, sid@),
        },
{
    let mut k: usize = 0;
    while k < keys.len()
        invariant
            k <= keys@.len(),
            forall|j: int| 0 <= j < k ==> key_views(keys@)[j] != (path@, sid@),
        decreases keys@.len() - k,
    {
        if keys[k].0 == *path && keys[k].1 == *sid {
            return Some(k);
        }
        k = k + 1;
    }
    None
}

/// Index the nodes of a snapshot by (path, stable identifier) in
/// first-seen order, and count the edges that cross files between indexed
/// nodes: per node the number leaving it and the sources entering it.
pub fn rank_graph(snapshot: &GraphSnapshot) -> (g: RankGraph)
    requires
        all_nodes(snapshot.files@).len() <= usize::MAX,
    ensures
        key_views(g.keys@) == distinct_keys(all_nodes(snapshot.files@)),
        g.out_degree@.len() == g.keys@.len(),
        g.inbound@.len() == g.keys@.len(),
        forall|s: int|
            0 <= s < g.keys@.len() ==> #[trigger] g.out_degree@[s] == outbound_of(
                snapshot.edges@,
                key_views(g.keys@),
                s,
            ).len(),
        forall|t: int|
            0 <= t < g.keys@.len() ==> (#[trigger] g.inbound@[t])@ == inbound_of(
                snapshot.edges@,
                key_views(g.keys@),
                t,
            ),
{
    let nodes = crate::graph::xref::flatten_nodes(&snapshot.files);
    let ghost ns = nodes@;
    let mut keys: Vec<(String, String)> = Vec::new();
    let mut i: usize = 0;
    while i < nodes.len()
        invariant
            i <= ns.len(),
            nodes@ == ns,
            key_views(keys@) == gather(i as int, |m: int| key_part(ns, m)),
            forall|k: KeyView| key_views(keys@).contains(k) <==> exists|j: int| 0 <= j < i && #[trigger] node_key(ns[j]) == k,
            key_views(keys@).no_duplicates(),
        decreases ns.len() - i,
    {
        let n = &nodes[i];
        let ghost x = node_key(ns[i as int]);
        let ghost before = key_views(keys@);
        let found = find_key(&keys, &n.path, &n.stable_id.0);
        if found.is_none() {
            proof {
                if seen_before(ns, i as int) {
                    let j = choose|j: int| 0 <= j < i && #[trigger] node_key(ns[j]) == node_key(ns[i as int]);
                    assert(before.contains(x));
                }
            }
            keys.push((copy_string(&n.path), copy_string(&n.stable_id.0)));
            assert(key_views(keys@) =~= before.push(x));
        } else {
            proof {
                let k = found.unwrap();
                assert(before[k as int] == x);
                assert(before.contains(x));
                let j = choose|j: int| 0 <= j < i && #[trigger] node_key(ns[j]) == x;
                assert(seen_before(ns, i as int));
            }
        }
        proof {
            assert(key_views(keys@) == before.push(x) || (key_views(keys@) == before && before.contains(x)));
            let after = key_views(keys@);
            assert forall|k: KeyView| after.contains(k) <==> exists|j: int|
                0 <= j < i + 1 && #[trigger] node_key(ns[j]) == k by {
                if after.contains(k) {
                    let m = choose|m: int| 0 <= m < after.len() && after[m] == k;
                    if m < before.len() {
                        assert(before[m] == k);
                        assert(before.contains(k));
                        let j = choose|j: int| 0 <= j < i && #[trigger] node_key(ns[j]) == k;
                        assert(node_key(ns[j]) == k);
                    } else {
                        assert(k == x);
                        assert(node_key(ns[i as int]) == k);
                    }
                }
                if exists|j: int| 0 <= j < i + 1 && #[trigger] node_key(ns[j]) == k {
                    let j = choose|j: int| 0 <= j < i + 1 && #[trigger] node_key(ns[j]) == k;
                    if j < i {
                        assert(before.contains(k));
                    } else {
                        assert(k == x);
                    }
                    if before.contains(k) {
                        let m = choose|m: int| 0 <= m < before.len() && before[m] == k;
                        assert(after[m] == k);
                    } else {
                        assert(k == x);
                        assert(after == before.push(x));
                        assert(after[before.len() as int] == x);
                    }
                }
            }
        }
        i = i + 1;
    }
    let ghost kv = key_views(keys@);
    let n_keys = keys.len();

    let edges = &snapshot.edges;
    let mut out_degree: Vec<usize> = Vec::new();
    let mut inbound: Vec<Vec<usize>> = Vec::new();
    let mut k: usize = 0;
    while k < n_keys
        invariant
            k <= n_keys,
            n_keys == keys@.len(),
            out_degree@.len() == k,
            inbound@.len() == k,
            forall|m: int| 0 <= m < k ==> #[trigger] out_degree@[m] == 0,
            forall|m: int| 0 <= m < k ==> (#[trigger] inbound@[m])@.len() == 0,
        decreases n_keys - k,
    {
        out_degree.push(0);
        inbound.push(Vec::new());
        k = k + 1;
    }

    let mut e: usize = 0;
    while e < edges.len()
        invariant
            e <= edges@.len(),
            edges == snapshot.edges,
            kv == key_views(keys@),
            kv.no_duplicates(),
            n_keys == keys@.len(),
            out_degree@.len() == n_keys,
            inbound@.len() == n_keys,
            forall|s: int| 0 <= s < n_keys ==> #[trigger] out_degree@[s] == gather(
                e as int,
                |i: int|
                    if counted(edges@[i], kv) && (edges@[i].source.path@, edges@[i].source.stable_id.0@) == kv[s] {
                        seq![i]
                    } else {
                        seq![]
                    },
            ).len(),
            forall|t: int| 0 <= t < n_keys ==> (#[trigger] inbound@[t])@ == gather(
                e as int,
                |i: int|
                    if counted(edges@[i], kv) && (edges@[i].target.path@, edges@[i].target.stable_id.0@) == kv[t] {
                        seq![key_pos(kv, (edges@[i].source.path@, edges@[i].source.stable_id.0@)) as usize]
                    } else {
                        seq![]
                    },
            ),
            e <= usize::MAX,
            forall|s: int| 0 <= s < n_keys ==> #[trigger] out_degree@[s] <= e,
        decreases edges@.len() - e,
    {
        let edge = &edges[e];
        let ghost sk = (edge.source.path@, edge.source.stable_id.0@);
        let ghost tk = (edge.target.path@, edge.target.stable_id.0@);
        let ghost od = out_degree@;
        let ghost ib = inbound@;
        if !path_equal(edge.source.path.as_str(), edge.target.path.as_str()) {
            let si = find_key(&keys, &edge.source.path, &edge.source.stable_id.0);
            let ti = find_key(&keys, &edge.target.path, &edge.target.stable_id.0);
            if let (Some(s), Some(t)) = (si, ti) {
                proof {
                    assert(kv[s as int] == sk);
                    assert(kv.contains(sk));
                    assert(kv.contains(tk));
                    assert(key_pos(kv, sk) == s) by {
                        let c = key_pos(kv, sk);
                        assert(0 <= c < kv.len() && kv[c] == sk);
                    }
                }
                let d = out_degree[s];
                out_degree.set(s, d + 1);
                let mut row = copy_usizes(&inbound[t]);
                row.push(s);
                inbound.set(t, row);
            } else {
                proof {
                    if si.is_none() {
                        assert(!kv.contains(sk));
                    } else {
                        assert(!kv.contains(tk));
                    }
                }
            }
        }
        e = e + 1;
        proof {
            assert forall|s: int| 0 <= s < n_keys implies #[trigger] out_degree@[s] == gather(
                e as int,
                |i: int|
                    if counted(edges@[i], kv) && (edges@[i].source.path@, edges@[i].source.stable_id.0@) == kv[s] {
                        seq![i]
                    } else {
                        seq![]
                    },
            ).len() && out_degree@[s] <= e by {
                if counted(*edge, kv) && sk == kv[s] {
                    assert(kv[s] == kv[key_pos(kv, sk)]);
                }
            }
            assert forall|t: int| 0 <= t < n_keys implies (#[trigger] inbound@[t])@ == gather(
                e as int,
                |i: int|
                    if counted(edges@[i], kv) && (edges@[i].target.path@, edges@[i].target.stable_id.0@) == kv[t] {
                        seq![key_pos(kv, (edges@[i].source.path@, edges@[i].source.stable_id.0@)) as usize]
                    } else {
                        seq![]
                    },
            ) by {
                if counted(*edge, kv) && tk == kv[t] {
                    let c = key_pos(kv, tk);
                    assert(0 <= c < kv.len() && kv[c] == tk);
                }
            }
        }
    }
    RankGraph { keys, out_degree, inbound }
}

/// A copy of a list of positions.
fn copy_usizes(v: &Vec<usize>) -> (r: Vec<usize>)
    ensures
        r@ == v@,
{
    let mut r: Vec<usize> = Vec::new();
    let mut i: usize = 0;
    while i < v.len()
        invariant
            i <= v@.len(),
            r@ == v@.take(i as int),
        decreases v@.len() - i,
    {
        r.push(v[i]);
        i = i + 1;
        assert(r@ =~= v@.take(i as int));
    }
    assert(v@.take(v@.len() as int) =~= v@);
    r
}

/// God-nodes ranked 1, 2, ... in order are what the artifact check
/// accepts: their ranks are continuous, so no rank gap can be reported.
pub proof fn lemma_ranked_nodes_are_accepted(nodes: Seq<GodNode>)
    requires
        forall|i: int| 0 <= i < nodes.len() ==> (#[trigger] nodes[i]).rank == i + 1,
    ensures
        ranks_continuous(nodes, nodes.len() as int),
        !exists|i: int| 0 <= i < nodes.len() && (#[trigger] nodes[i]).rank != i + 1,
{
}

/// Rank an ordered list of (path, stable identifier) keys: the first
/// `TOP_N` of them become god-nodes with ranks 1, 2, ...
pub fn rank_god_nodes(ordered: &Vec<(String, String)>) -> (r: Vec<GodNode>)
    ensures
        r@.len() == if ordered@.len() < TOP_N {
            ordered@.len()
        } else {
            TOP_N as nat
        },
        forall|i: int|
            0 <= i < r@.len() ==> (#[trigger] r@[i]).rank == i + 1 && r@[i].path == ordered@[i].0
                && r@[i].stable_id == ordered@[i].1,
{
    let top_k = if ordered.len() < TOP_N {
        ordered.len()
    } else {
        TOP_N
    };
    let mut out: Vec<GodNode> = Vec::new();
    let mut i: usize = 0;
    while i < top_k
        invariant
            i <= top_k,
            top_k <= ordered@.len(),
            top_k <= TOP_N,
            out@.len() == i,
            forall|k: int|
                0 <= k < i ==> (#[trigger] out@[k]).rank == k + 1 && out@[k].path == ordered@[k].0
                    && out@[k].stable_id == ordered@[k].1,
        decreases top_k - i,
    {
        let pair = &ordered[i];
        out.push(GodNode { rank: i + 1, stable_id: copy_string(&pair.1), path: copy_string(&pair.0) });
        i = i + 1;
    }
    out
}

/// The counted edges, in edge order.
pub open spec fn counted_edges(edges: Seq<GraphEdge>, keys: Seq<KeyView>) -> Seq<GraphEdge>
    decreases edges.len(),
{
    if edges.len() == 0 {
        seq![]
    } else {
        counted_edges(edges.drop_last(), keys) + if counted(edges.last(), keys) {
            seq![edges.last()]
        } else {
            seq![]
        }
    }
}

/// What one edge adds to the inbound list of node `t`.
pub open spec fn inbound_part(e: GraphEdge, keys: Seq<KeyView>, t: int) -> Seq<usize> {
    if counted(e, keys) && (e.target.path@, e.target.stable_id.0@) == keys[t] {
        seq![key_pos(keys, (e.source.path@, e.source.stable_id.0@)) as usize]
    } else {
        seq![]
    }
}

/// Whether one edge counts out of node `s`.
pub open spec fn out_part(e: GraphEdge, keys: Seq<KeyView>, s: int) -> nat {
    if counted(e, keys) && (e.source.path@, e.source.stable_id.0@) == keys[s] {
        1
    } else {
        0
    }
}

proof fn lemma_push_edge(e: Seq<GraphEdge>, x: GraphEdge, keys: Seq<KeyView>, s: int)
    ensures
        inbound_of(e.push(x), keys, s) == inbound_of(e, keys, s) + inbound_part(x, keys, s),
        outbound_of(e.push(x), keys, s).len() == outbound_of(e, keys, s).len() + out_part(x, keys, s),
{
    let f = |i: int|
        if counted(e.push(x)[i], keys) && (e.push(x)[i].target.path@, e.push(x)[i].target.stable_id.0@) == keys[s] {
            seq![key_pos(keys, (e.push(x)[i].source.path@, e.push(x)[i].source.stable_id.0@)) as usize]
        } else {
            seq![]
        };
    let g = |i: int|
        if counted(e[i], keys) && (e[i].target.path@, e[i].target.stable_id.0@) == keys[s] {
            seq![key_pos(keys, (e[i].source.path@, e[i].source.stable_id.0@)) as usize]
        } else {
            seq![]
        };
    assert forall|m: int| 0 <= m < e.len() implies #[trigger] f(m) == g(m) by {
        assert(e.push(x)[m] == e[m]);
    }
    lemma_gather_agree(f, g, e.len() as int);
    assert(e.push(x)[e.len() as int] == x);
    let fo = |i: int|
        if counted(e.push(x)[i], keys) && (e.push(x)[i].source.path@, e.push(x)[i].source.stable_id.0@) == keys[s] {
            seq![i]
        } else {
            seq![]
        };
    let go = |i: int|
        if counted(e[i], keys) && (e[i].source.path@, e[i].source.stable_id.0@) == keys[s] {
            seq![i]
        } else {
            seq![]
        };
    assert forall|m: int| 0 <= m < e.len() implies #[trigger] fo(m) == go(m) by {
        assert(e.push(x)[m] == e[m]);
    }
    lemma_gather_agree(fo, go, e.len() as int);
}

/// Only counted edges matter: the inbound lists and out-degrees over the
/// edges are those over the counted edges alone.
proof fn lemma_counted_only(edges: Seq<GraphEdge>, keys: Seq<KeyView>, s: int)
    ensures
        inbound_of(edges, keys, s) == inbound_of(counted_edges(edges, keys), keys, s),
        outbound_of(edges, keys, s).len() == outbound_of(counted_edges(edges, keys), keys, s).len(),
    decreases edges.len(),
{
    if edges.len() == 0 {
        assert(counted_edges(edges, keys) =~= edges);
    } else {
        let e = edges.drop_last();
        let x = edges.last();
        lemma_counted_only(e, keys, s);
        assert(e.push(x) =~= edges);
        lemma_push_edge(e, x, keys, s);
        let ce = counted_edges(e, keys);
        if counted(x, keys) {
            assert(counted_edges(edges, keys) == ce.push(x));
            lemma_push_edge(ce, x, keys, s);
        } else {
            assert(counted_edges(edges, keys) =~= ce);
            assert(inbound_part(x, keys, s) =~= Seq::<usize>::empty());
            assert(inbound_of(e, keys, s) + inbound_part(x, keys, s) =~= inbound_of(e, keys, s));
        }
    }
}

/// Edges that do not count leave the rank graph alone: two edge lists
/// whose counted edges are the same, in the same order, give every node
/// the same inbound list and the same out-degree. Edges within one file,
/// or with an end that is not a node, never count.
pub proof fn lemma_rank_graph_ignores_uncounted_edges(a: Seq<GraphEdge>, b: Seq<GraphEdge>, keys: Seq<KeyView>)
    requires
        counted_edges(a, keys) == counted_edges(b, keys),
    ensures
        forall|s: int| #[trigger] inbound_of(a, keys, s) == inbound_of(b, keys, s),
        forall|s: int| #[trigger] outbound_of(a, keys, s).len() == outbound_of(b, keys, s).len(),
{
    assert forall|s: int| #[trigger] inbound_of(a, keys, s) == inbound_of(b, keys, s) by {
        lemma_counted_only(a, keys, s);
        lemma_counted_only(b, keys, s);
    }
    assert forall|s: int| #[trigger] outbound_of(a, keys, s).len() == outbound_of(b, keys, s).len() by {
        lemma_counted_only(a, keys, s);
        lemma_counted_only(b, keys, s);
    }
}

/// Appending edges that do not count keeps the counted edges.
pub proof fn lemma_uncounted_appended(a: Seq<GraphEdge>, extra: Seq<GraphEdge>, keys: Seq<KeyView>)
    requires
        forall|i: int| 0 <= i < extra.len() ==> !counted(#[trigger] extra[i], keys),
    ensures
        counted_edges(a + extra, keys) == counted_edges(a, keys),
    decreases extra.len(),
{
    if extra.len() == 0 {
        assert(a + extra =~= a);
    } else {
        let x = extra.drop_last();
        assert forall|i: int| 0 <= i < x.len() implies !counted(#[trigger] x[i], keys) by {
            assert(x[i] == extra[i]);
        }
        lemma_uncounted_appended(a, x, keys);
        assert((a + extra).drop_last() =~= a + x);
        assert((a + extra).last() == extra[extra.len() - 1]);
        assert(counted_edges(a + extra, keys) =~= counted_edges(a + x, keys));
    }
}

} // verus!
