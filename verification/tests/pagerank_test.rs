use tree_sitter_context::graph::postprocess::GodNode;
use tree_sitter_context::graph::snapshot::{
    EdgeStatus, GraphEdge, GraphFile, GraphNode, GraphNodeHandle, GraphSnapshot, GraphSnapshotId,
    GRAPH_SCHEMA_VERSION,
};
use tree_sitter_context::identity::StableId;
use tree_sitter_context::pagerank::{rank_god_nodes, rank_graph, TOP_N};
use tree_sitter_context::schema::{ByteRange, Confidence};

const DAMPING: f64 = 0.85;
const ITERATIONS: usize = 30;
const TIE_BREAK_EPSILON: f64 = 1e-12;

/// The float iteration that the program runs between the library's two
/// verified steps, written out here because a test cannot link the
/// program: PageRank over the library's `rank_graph`, ordered by score
/// with ties broken by (path, stable id), then numbered by the library's
/// `rank_god_nodes`. These tests check the two library steps through it;
/// the iteration itself is not library code.
fn float_pagerank_over_library_graph(snapshot: &GraphSnapshot) -> Vec<GodNode> {
    let graph = rank_graph(snapshot);
    let n = graph.keys.len();
    if n == 0 {
        return vec![];
    }
    let mut ranks = vec![1.0 / n as f64; n];
    let base = (1.0 - DAMPING) / n as f64;
    for _ in 0..ITERATIONS {
        let dangling_sum: f64 =
            ranks.iter().enumerate().filter(|(i, _)| graph.out_degree[*i] == 0).map(|(_, r)| r).sum();
        let dangling_term = DAMPING * dangling_sum / n as f64;
        let mut next = vec![0.0; n];
        for v in 0..n {
            let mut sum = 0.0;
            for &w in &graph.inbound[v] {
                sum += ranks[w] / graph.out_degree[w] as f64;
            }
            next[v] = base + dangling_term + DAMPING * sum;
        }
        ranks = next;
    }
    let mut scored: Vec<(f64, String, String)> =
        ranks.into_iter().enumerate().map(|(i, s)| (s, graph.keys[i].0.clone(), graph.keys[i].1.clone())).collect();
    scored.sort_by(|a, b| {
        let diff = b.0 - a.0;
        if diff.abs() < TIE_BREAK_EPSILON {
            a.1.cmp(&b.1).then_with(|| a.2.cmp(&b.2))
        } else if diff > 0.0 {
            std::cmp::Ordering::Greater
        } else {
            std::cmp::Ordering::Less
        }
    });
    let ordered: Vec<(String, String)> = scored.into_iter().map(|(_, p, s)| (p, s)).collect();
    rank_god_nodes(&ordered)
}

fn make_node(path: &str, stable_id: &str) -> GraphNode {
    GraphNode {
        path: path.to_string(),
        stable_id: StableId(stable_id.to_string()),
        kind: "function_item".to_string(),
        name: Some(stable_id.to_string()),
        anchor_byte: 0,
        byte_range: ByteRange { start: 0, end: 10 },
        signature_hash: None,
        content_hash: None,
        confidence: Confidence::Exact,
    }
}

fn handle(path: &str, stable_id: &str) -> GraphNodeHandle {
    GraphNodeHandle { path: path.to_string(), stable_id: StableId(stable_id.to_string()), anchor_byte: 0 }
}

fn make_edge(src: (&str, &str), tgt: (&str, &str)) -> GraphEdge {
    GraphEdge {
        source: handle(src.0, src.1),
        target: handle(tgt.0, tgt.1),
        kind: "call".to_string(),
        status: EdgeStatus::Confirmed,
        confidence: Confidence::Exact,
        candidates: vec![],
    }
}

fn snapshot_with_nodes(nodes: Vec<GraphNode>, edges: Vec<GraphEdge>) -> GraphSnapshot {
    let mut files: Vec<GraphFile> = Vec::new();
    for node in &nodes {
        match files.iter().position(|f| f.path == node.path) {
            Some(idx) => files[idx].nodes.push(node.clone()),
            None => files.push(GraphFile {
                path: node.path.clone(),
                content_hash: None,
                nodes: vec![node.clone()],
                symbols: vec![],
                diagnostics: vec![],
            }),
        }
    }
    GraphSnapshot {
        schema_version: GRAPH_SCHEMA_VERSION.to_string(),
        snapshot_id: GraphSnapshotId(String::new()),
        files,
        edges,
        diagnostics: vec![],
        meta: None,
    }
}

#[test]
fn empty_graph() {
    let snapshot = snapshot_with_nodes(vec![], vec![]);
    let nodes = float_pagerank_over_library_graph(&snapshot);
    assert!(nodes.is_empty());
}

#[test]
fn single_node_no_edges() {
    let snapshot = snapshot_with_nodes(vec![make_node("src/lib.rs", "named:foo")], vec![]);
    let nodes = float_pagerank_over_library_graph(&snapshot);
    assert_eq!(nodes.len(), 1);
    assert_eq!(nodes[0].rank, 1);
    assert_eq!(nodes[0].stable_id, "named:foo");
}

#[test]
fn star_graph() {
    let center = make_node("src/lib.rs", "named:center");
    let p1 = make_node("src/a.rs", "named:p1");
    let p2 = make_node("src/b.rs", "named:p2");
    let p3 = make_node("src/c.rs", "named:p3");
    let edges = vec![
        make_edge(("src/a.rs", "named:p1"), ("src/lib.rs", "named:center")),
        make_edge(("src/b.rs", "named:p2"), ("src/lib.rs", "named:center")),
        make_edge(("src/c.rs", "named:p3"), ("src/lib.rs", "named:center")),
    ];
    let snapshot = snapshot_with_nodes(vec![center.clone(), p1, p2, p3], edges);
    let nodes = float_pagerank_over_library_graph(&snapshot);
    assert_eq!(nodes[0].stable_id, "named:center");
    assert_eq!(nodes[0].rank, 1);
}

#[test]
fn chain_graph() {
    let a = make_node("src/a.rs", "named:a");
    let b = make_node("src/b.rs", "named:b");
    let c = make_node("src/c.rs", "named:c");
    let d = make_node("src/d.rs", "named:d");
    let edges = vec![
        make_edge(("src/a.rs", "named:a"), ("src/b.rs", "named:b")),
        make_edge(("src/b.rs", "named:b"), ("src/c.rs", "named:c")),
        make_edge(("src/c.rs", "named:c"), ("src/d.rs", "named:d")),
    ];
    let snapshot = snapshot_with_nodes(vec![a, b.clone(), c.clone(), d], edges);
    let nodes = float_pagerank_over_library_graph(&snapshot);
    let ids: Vec<String> = nodes.iter().map(|n| n.stable_id.clone()).collect();
    let pos_a = ids.iter().position(|id| id == "named:a").unwrap();
    let pos_b = ids.iter().position(|id| id == "named:b").unwrap();
    let pos_c = ids.iter().position(|id| id == "named:c").unwrap();
    let pos_d = ids.iter().position(|id| id == "named:d").unwrap();
    assert!(pos_a > pos_b, "A should rank lower than B");
    assert!(pos_a > pos_c, "A should rank lower than C");
    assert!(pos_a > pos_d, "A should rank lower than D");
}

#[test]
fn dangling_node() {
    let a = make_node("src/a.rs", "named:a");
    let b = make_node("src/b.rs", "named:b");
    let c = make_node("src/c.rs", "named:c");
    let edges = vec![make_edge(("src/a.rs", "named:a"), ("src/b.rs", "named:b"))];
    let snapshot = snapshot_with_nodes(vec![a, b, c], edges);
    let nodes = float_pagerank_over_library_graph(&snapshot);
    assert_eq!(nodes.len(), 3);
}

#[test]
fn self_loop() {
    let a = make_node("src/lib.rs", "named:a");
    let edges = vec![make_edge(("src/lib.rs", "named:a"), ("src/lib.rs", "named:a"))];
    let snapshot = snapshot_with_nodes(vec![a], edges);
    let nodes = float_pagerank_over_library_graph(&snapshot);
    assert_eq!(nodes.len(), 1);
    assert_eq!(nodes[0].stable_id, "named:a");
}

#[test]
fn duplicate_edges() {
    let a = make_node("src/a.rs", "named:a");
    let b = make_node("src/b.rs", "named:b");
    let edges = vec![
        make_edge(("src/a.rs", "named:a"), ("src/b.rs", "named:b")),
        make_edge(("src/a.rs", "named:a"), ("src/b.rs", "named:b")),
    ];
    let snapshot = snapshot_with_nodes(vec![a, b], edges);
    let nodes = float_pagerank_over_library_graph(&snapshot);
    assert_eq!(nodes[0].stable_id, "named:b");
}

#[test]
fn determinism_contract() {
    let a = make_node("src/a.rs", "named:a");
    let b = make_node("src/b.rs", "named:b");
    let c = make_node("src/c.rs", "named:c");
    let edges = vec![
        make_edge(("src/a.rs", "named:a"), ("src/b.rs", "named:b")),
        make_edge(("src/b.rs", "named:b"), ("src/c.rs", "named:c")),
        make_edge(("src/c.rs", "named:c"), ("src/a.rs", "named:a")),
    ];
    let snapshot = snapshot_with_nodes(vec![a, b, c], edges);
    let run1 = float_pagerank_over_library_graph(&snapshot);
    let run2 = float_pagerank_over_library_graph(&snapshot);
    assert_eq!(run1, run2);
}

#[test]
fn tie_break_by_path_and_stable_id() {
    let a = make_node("src/a.rs", "named:a");
    let b = make_node("src/b.rs", "named:b");
    let snapshot = snapshot_with_nodes(vec![a, b], vec![]);
    let nodes = float_pagerank_over_library_graph(&snapshot);
    assert_eq!(nodes[0].stable_id, "named:a");
    assert_eq!(nodes[1].stable_id, "named:b");
}

#[test]
fn rank_graph_counts_only_cross_file_edges_between_known_nodes() {
    let a = make_node("src/a.rs", "named:a");
    let a2 = make_node("src/a.rs", "named:a2");
    let b = make_node("src/b.rs", "named:b");
    let edges = vec![
        make_edge(("src/a.rs", "named:a"), ("src/a.rs", "named:a2")),
        make_edge(("src/a.rs", "named:a"), ("src/b.rs", "named:b")),
        make_edge(("src/a.rs", "named:a"), ("src/b.rs", "named:unknown")),
        make_edge(("src/b.rs", "named:b"), ("src/a.rs", "named:a2")),
    ];
    let snapshot = snapshot_with_nodes(vec![a.clone(), a2, b, a], edges);
    let graph = rank_graph(&snapshot);
    assert_eq!(
        graph.keys,
        vec![
            ("src/a.rs".to_string(), "named:a".to_string()),
            ("src/a.rs".to_string(), "named:a2".to_string()),
            ("src/b.rs".to_string(), "named:b".to_string()),
        ]
    );
    assert_eq!(graph.out_degree, vec![1, 0, 1]);
    assert_eq!(graph.inbound, vec![vec![], vec![2], vec![0]]);
}

#[test]
fn rank_god_nodes_keeps_the_first_twenty() {
    let ordered: Vec<(String, String)> =
        (0..25).map(|i| (format!("src/{i}.rs"), format!("named:{i}"))).collect();
    let nodes = rank_god_nodes(&ordered);
    assert_eq!(nodes.len(), TOP_N);
    assert_eq!(nodes[0].rank, 1);
    assert_eq!(nodes[19].rank, 20);
    assert_eq!(nodes[19].stable_id, "named:19");
    assert_eq!(nodes[3].path, "src/3.rs");
}

#[test]
fn uncounted_edges_leave_the_rank_graph_alone() {
    let a = make_node("src/a.rs", "named:a");
    let a2 = make_node("src/a.rs", "named:a2");
    let b = make_node("src/b.rs", "named:b");
    let counted = vec![
        make_edge(("src/a.rs", "named:a"), ("src/b.rs", "named:b")),
        make_edge(("src/b.rs", "named:b"), ("src/a.rs", "named:a2")),
    ];
    let mut more = counted.clone();
    more.insert(1, make_edge(("src/a.rs", "named:a"), ("src/a.rs", "named:a2")));
    more.push(make_edge(("src/b.rs", "named:b"), ("src/c.rs", "named:ghost")));
    let g1 = rank_graph(&snapshot_with_nodes(vec![a.clone(), a2.clone(), b.clone()], counted));
    let g2 = rank_graph(&snapshot_with_nodes(vec![a, a2, b], more));
    assert_eq!(g1.keys, g2.keys);
    assert_eq!(g1.out_degree, g2.out_degree);
    assert_eq!(g1.inbound, g2.inbound);
}
