//! God-node post-processing records: ranked nodes, the stored artifact
//! and the checks an artifact must pass before it is used.

use vstd::prelude::*;

use crate::text::{
    decimal, lemma_decimal_valid_utf8, lemma_utf8_valid, lit, push_decimal, push_str,
    string_from_utf8, utf8,
};

verus! {

/// Schema version of post-processing artifacts.
pub const POSTPROCESS_SCHEMA_VERSION: &'static str = "r3-god-nodes-2026-04-26";

/// A single god-node with deterministic rank.
#[derive(Clone, Debug, Eq, PartialEq)]
pub struct GodNode {
    pub rank: usize,
    pub stable_id: String,
    pub path: String,
}

/// Stored post-processing artifact.
#[derive(Clone, Debug)]
pub struct PostprocessArtifact {
    pub snapshot_id: String,
    pub schema_version: String,
    pub computed_at: u64,
    pub god_nodes: Vec<GodNode>,
}

/// Typed result of reading a post-processing artifact.
#[derive(Clone, Debug)]
pub enum PostprocessStatus {
    /// Artifact present and valid.
    Present(Vec<GodNode>),
    /// No artifact found for this snapshot.
    Missing,
    /// Artifact exists but could not be parsed or validated.
    Corrupt(String),
    /// Artifact schema version does not match the expected version.
    SchemaMismatch(String),
    /// Artifact snapshot identifier does not match the requested snapshot.
    SnapshotMismatch,
}

/// Ranks run 1, 2, ... over the first `n` nodes.
pub open spec fn ranks_continuous(nodes: Seq<GodNode>, n: int) -> bool {
    forall|i: int| 0 <= i < n ==> #[trigger] nodes[i].rank == i + 1
}

/// The message for a rank that breaks continuity at index `i`.
pub open spec fn rank_gap_message(i: nat, rank: nat) -> Seq<u8> {
    lit("non-continuous rank at index ") + decimal(i) + lit(": expected ") + decimal(i + 1) + lit(", got ")
        + decimal(rank)
}

fn rank_gap(i: usize, rank: usize) -> (s: String)
    requires
        i < usize::MAX,
    ensures
        utf8(s@) == rank_gap_message(i as nat, rank as nat),
{
    let mut m: Vec<u8> = Vec::new();
    push_str(&mut m, "non-continuous rank at index ");
    push_decimal(&mut m, i);
    push_str(&mut m, ": expected ");
    push_decimal(&mut m, i + 1);
    push_str(&mut m, ", got ");
    push_decimal(&mut m, rank);
    proof {
        let a = lit("non-continuous rank at index ");
        let b = decimal(i as nat);
        let c = lit(": expected ");
        let d = decimal((i + 1) as nat);
        let e = lit(", got ");
        let f = decimal(rank as nat);
        lemma_utf8_valid("non-continuous rank at index "@);
        lemma_utf8_valid(": expected "@);
        lemma_utf8_valid(", got "@);
        lemma_decimal_valid_utf8(i as nat);
        lemma_decimal_valid_utf8((i + 1) as nat);
        lemma_decimal_valid_utf8(rank as nat);
        vstd::utf8::valid_utf8_concat(a, b);
        vstd::utf8::valid_utf8_concat(a + b, c);
        vstd::utf8::valid_utf8_concat(a + b + c, d);
        vstd::utf8::valid_utf8_concat(a + b + c + d, e);
        vstd::utf8::valid_utf8_concat(a + b + c + d + e, f);
    }
    string_from_utf8(m)
}

/// Check an artifact read for `snapshot_id`: its schema version must be
/// the current one, its snapshot identifier the requested one, and its
/// ranks must run 1, 2, ... without a gap. The first failing check
/// decides the status; an artifact that passes all is `Present`.
pub fn check_postprocess_artifact(artifact: PostprocessArtifact, snapshot_id: &str) -> (r: PostprocessStatus)
    ensures
        artifact.schema_version@ != POSTPROCESS_SCHEMA_VERSION@ ==> (r matches PostprocessStatus::SchemaMismatch(v)
            && v@ == artifact.schema_version@),
        artifact.schema_version@ == POSTPROCESS_SCHEMA_VERSION@ && artifact.snapshot_id@ != snapshot_id@ ==> r
            is SnapshotMismatch,
        artifact.schema_version@ == POSTPROCESS_SCHEMA_VERSION@ && artifact.snapshot_id@ == snapshot_id@ ==> (
        match r {
            PostprocessStatus::Present(nodes) => nodes@ == artifact.god_nodes@ && ranks_continuous(
                nodes@,
                nodes@.len() as int,
            ),
            PostprocessStatus::Corrupt(m) => exists|i: int|
                0 <= i < artifact.god_nodes@.len() && ranks_continuous(artifact.god_nodes@, i)
                    && #[trigger] artifact.god_nodes@[i].rank != i + 1 && utf8(m@) == rank_gap_message(
                    i as nat,
                    artifact.god_nodes@[i].rank as nat,
                ),
            _ => false,
        }),
{
    let expected = POSTPROCESS_SCHEMA_VERSION.to_owned();
    if artifact.schema_version != expected {
        return PostprocessStatus::SchemaMismatch(artifact.schema_version);
    }
    let requested = snapshot_id.to_owned();
    if artifact.snapshot_id != requested {
        return PostprocessStatus::SnapshotMismatch;
    }
    let mut i: usize = 0;
    while i < artifact.god_nodes.len()
        invariant
            i <= artifact.god_nodes@.len(),
            ranks_continuous(artifact.god_nodes@, i as int),
            artifact.schema_version@ == POSTPROCESS_SCHEMA_VERSION@,
            artifact.snapshot_id@ == snapshot_id@,
        decreases artifact.god_nodes@.len() - i,
    {
        let rank = artifact.god_nodes[i].rank;
        if i == usize::MAX || rank != i + 1 {
            assert(artifact.god_nodes@[i as int].rank != i + 1);
            return PostprocessStatus::Corrupt(rank_gap(i, rank));
        }
        i = i + 1;
    }
    PostprocessStatus::Present(artifact.god_nodes)
}

} // verus!
