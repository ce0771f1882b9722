//! The decisions of the `bundle` command: which requests are accepted,
//! how the graph state is reported, and which result a stable identifier
//! gets among the chunks of a file.

use vstd::prelude::*;

use crate::bundle::{bundle_chunks, bundle_fold, lemma_total_tokens_bound, total_tokens, BundleOptions, ByTokens, OmissionReason};
use crate::chunk::tree::{chunks_for_tree, is_chunking, wf_node};
use crate::chunk::{ChunkOptions, ChunkOutput, SyntaxTree};
use crate::cli::graph_scan::default_chunking;
use crate::parsing::parse_source;
use crate::graph::diff::gather;
use crate::identity::{with_id, StableId};
use crate::protocol::{
    AmbiguousStableId, AstCell, Bundle, BundleResult, Candidate, Confidence, Exhausted, NotFound, OmittedChunk,
    Provenance,
};
use crate::schema::{self, ChunkRecord};
use crate::sort::sort_by_key;
use crate::text::{copy_opt_string, copy_string, str_contains_char};
use vstd::string::StringExecFns;

verus! {

/// The chunk limit of a bundle answer.
pub const BUNDLE_MAX_CHUNKS: usize = 100;

/// Why a bundle request is refused before any file is read.
#[derive(Clone, Debug, PartialEq, Eq, Structural)]
pub enum RequestProblem {
    UnsupportedFormat,
    UnsupportedTier,
}

/// The message for a refused request.
pub open spec fn request_message(p: RequestProblem, value: Seq<char>) -> Seq<char> {
    match p {
        RequestProblem::UnsupportedFormat => "unsupported format: "@ + value + ". Only 'sexpr' is supported in v1"@,
        RequestProblem::UnsupportedTier => "unsupported tier: "@ + value + ". Only 'sig' is supported in v1"@,
    }
}

/// Check the format and tier of a bundle request: only the `sexpr`
/// format and the `sig` tier are served; the format is checked first.
pub fn check_bundle_request(format: &str, tier: &str) -> (r: Result<(), String>)
    ensures
        format@ != "sexpr"@ ==> (r matches Err(m) && m@ == request_message(RequestProblem::UnsupportedFormat, format@)),
        format@ == "sexpr"@ && tier@ != "sig"@ ==> (r matches Err(m) && m@ == request_message(
            RequestProblem::UnsupportedTier,
            tier@,
        )),
        format@ == "sexpr"@ && tier@ == "sig"@ ==> r is Ok,
{
    let f = format.to_owned();
    if f != "sexpr".to_owned() {
        return Err("unsupported format: ".to_owned().concat(format).concat(". Only 'sexpr' is supported in v1"));
    }
    let t = tier.to_owned();
    if t != "sig".to_owned() {
        return Err("unsupported tier: ".to_owned().concat(tier).concat(". Only 'sig' is supported in v1"));
    }
    Ok(())
}

/// Check the form of a stable identifier: it holds a `:`.
pub fn check_stable_id(stable_id: &str) -> (r: Result<(), String>)
    ensures
        stable_id@.contains(':') ==> r is Ok,
        !stable_id@.contains(':') ==> (r matches Err(m) && m@ == "invalid stable_id format: "@ + stable_id@),
{
    if str_contains_char(stable_id, ':') {
        Ok(())
    } else {
        Err("invalid stable_id format: ".to_owned().concat(stable_id))
    }
}

/// What reading HEAD gave.
#[derive(Clone, Debug)]
pub enum HeadRead {
    /// No store was found above the file.
    NoStore,
    /// HEAD names this snapshot.
    Head(String),
    /// HEAD is missing.
    Missing,
    /// HEAD or its snapshot is corrupt.
    Corrupt(String),
    /// The stored schema is not the current one.
    SchemaMismatch { expected: String, found: String },
}

/// How the graph state is reported: the snapshot identifier and its
/// freshness, or a failure to report with its exit status.
#[derive(Clone, Debug)]
pub enum GraphState {
    Known { snapshot_id: String, freshness: String },
    Fail { message: String, exit_code: i32 },
}

/// The graph state for a bundle answer: the HEAD snapshot, fresh when it
/// is the one the caller expected, stale when another was expected and
/// unknown when none was; `no_graph` when there is no store or no HEAD; a
/// failure with status 3 for a corrupt store and 4 for a schema mismatch.
pub fn graph_state(head: HeadRead, expected: Option<&str>) -> (s: GraphState)
    ensures
        match head {
            HeadRead::Head(id) => s matches GraphState::Known { snapshot_id, freshness } && snapshot_id@ == id@
                && freshness@ == match expected {
                Some(e) => if e@ == id@ {
                    "fresh"@
                } else {
                    "stale"@
                },
                None => "unknown"@,
            },
            HeadRead::NoStore | HeadRead::Missing => s matches GraphState::Known { snapshot_id, freshness }
                && snapshot_id@ == "no_graph"@ && freshness@ == "unknown"@,
            HeadRead::Corrupt(reason) => s matches GraphState::Fail { message, exit_code } && message@ == "graph_corrupt: "@
                + reason@ && exit_code == 3,
            HeadRead::SchemaMismatch { expected: ex, found } => s matches GraphState::Fail { message, exit_code }
                && message@ == "schema_mismatch: expected="@ + ex@ + ", found="@ + found@ && exit_code == 4,
        },
{
    match head {
        HeadRead::Head(id) => {
            let freshness = match expected {
                Some(e) => if e.to_owned() == id {
                    "fresh".to_owned()
                } else {
                    "stale".to_owned()
                },
                None => "unknown".to_owned(),
            };
            GraphState::Known { snapshot_id: id, freshness }
        },
        HeadRead::NoStore | HeadRead::Missing => GraphState::Known {
            snapshot_id: "no_graph".to_owned(),
            freshness: "unknown".to_owned(),
        },
        HeadRead::Corrupt(reason) => GraphState::Fail {
            message: "graph_corrupt: ".to_owned().concat(reason.as_str()),
            exit_code: 3,
        },
        HeadRead::SchemaMismatch { expected: ex, found } => GraphState::Fail {
            message: "schema_mismatch: expected=".to_owned().concat(ex.as_str()).concat(", found=").concat(
                found.as_str(),
            ),
            exit_code: 4,
        },
    }
}

/// The confidence of a bundle cell for a chunk's confidence.
pub open spec fn cell_confidence(c: schema::Confidence) -> Confidence {
    match c {
        schema::Confidence::Exact => Confidence::Exact,
        schema::Confidence::High => Confidence::High,
        schema::Confidence::Medium => Confidence::Medium,
        schema::Confidence::Low => Confidence::Low,
    }
}

/// The name of an omission reason.
pub open spec fn omission_name(r: OmissionReason) -> Seq<char> {
    match r {
        OmissionReason::OverBudget => "over_budget"@,
        OmissionReason::LowPriority => "low_priority"@,
    }
}

/// Whether `p` reports the strategy, confidence and graph state.
pub open spec fn provenance_is(p: Provenance, strategy: Seq<char>, c: Confidence, snap: Seq<char>, fresh: Seq<char>) -> bool {
    &&& p.strategy@ == strategy
    &&& p.confidence == c
    &&& p.graph_snapshot_id@ == snap
    &&& p.orientation_freshness@ == fresh
}

/// Whether the reported omissions are those of the bundle, in order.
pub open spec fn omissions_are(r: Seq<OmittedChunk>, o: Seq<crate::bundle::OmittedChunk>) -> bool {
    &&& r.len() == o.len()
    &&& forall|i: int|
        0 <= i < o.len() ==> (#[trigger] r[i]).stable_id@ == o[i].chunk.stable_id.0@ && r[i].reason@
            == omission_name(o[i].reason)
}

/// The omissions of the target chunk itself, in order.
pub open spec fn target_omissions(o: Seq<crate::bundle::OmittedChunk>, sid: Seq<char>) -> Seq<crate::bundle::OmittedChunk> {
    gather(
        o.len() as int,
        |i: int|
            if o[i].chunk.stable_id.0@ == sid {
                seq![o[i]]
            } else {
                seq![]
            },
    )
}

/// The candidate for an ambiguous chunk.
pub open spec fn candidate_of(c: ChunkRecord) -> Candidate {
    Candidate { anchor_byte: c.id.anchor_byte, kind: c.kind, name: c.name }
}

/// The effective budget: the smaller of the budget and the token ceiling.
pub open spec fn effective_budget(budget: nat, max_tokens: nat) -> nat {
    if budget <= max_tokens {
        budget
    } else {
        max_tokens
    }
}

/// Whether `r` answers a bundle request for `sid` in the file at `path`
/// holding `chunks`: not found when no chunk has the identifier;
/// ambiguous, listing the candidates, when several do; otherwise, with
/// the effective budget the smaller of `budget` and `max_tokens`, the
/// budget is exhausted when the chunk alone exceeds it or the bundle of
/// all chunks leaves it out, and the bundle holds the chunk as its only
/// cell, with every omission, when it is included.
pub open spec fn is_bundle_answer(
    r: BundleResult,
    path: Seq<char>,
    sid: Seq<char>,
    chunks: Seq<ChunkRecord>,
    budget: nat,
    max_tokens: nat,
    snap: Seq<char>,
    fresh: Seq<char>,
) -> bool {
    let m = with_id(chunks, sid);
    if m.len() == 0 {
        r matches BundleResult::NotFound(n) && n.path@ == path && n.stable_id@ == sid && n.reason@
            == "no chunk with this stable_id found in file"@ && provenance_is(
            n.provenance,
            "stable_id_lookup"@,
            Confidence::Low,
            snap,
            fresh,
        )
    } else if m.len() > 1 {
        r matches BundleResult::AmbiguousStableId(a) && a.path@ == path && a.stable_id@ == sid && a.candidates@
            == m.map_values(|c: ChunkRecord| candidate_of(c)) && a.reason@ == "multiple chunks share this stable_id"@
            && provenance_is(a.provenance, "stable_id_lookup"@, Confidence::Low, snap, fresh)
    } else {
        let chunk = m[0];
        let eff = effective_budget(budget, max_tokens);
        let st = bundle_fold(sort_by_key::<ChunkRecord, ByTokens>(chunks), eff, BUNDLE_MAX_CHUNKS as nat);
        let included = exists|i: int| 0 <= i < st.included.len() && (#[trigger] st.included[i]).stable_id.0@ == sid;
        if chunk.estimated_tokens > eff {
            r matches BundleResult::Exhausted(e) && e.path@ == path && e.stable_id@ == sid && e.omitted@.len() == 1
                && e.omitted@[0].stable_id@ == sid && e.omitted@[0].reason@ == "over_budget"@ && provenance_is(
                e.provenance,
                "sig_tier_bundle"@,
                Confidence::Exact,
                snap,
                fresh,
            )
        } else if !included {
            r matches BundleResult::Exhausted(e) && e.path@ == path && e.stable_id@ == sid && omissions_are(
                e.omitted@,
                target_omissions(st.omitted, sid),
            ) && provenance_is(e.provenance, "sig_tier_bundle"@, Confidence::Exact, snap, fresh)
        } else {
            r matches BundleResult::Bundle(b) && b.version == 1 && b.path@ == path && b.cells@.len() == 1
                && b.cells@[0] == (AstCell {
                stable_id: chunk.stable_id.0,
                kind: chunk.kind,
                name: chunk.name,
                byte_range: (chunk.byte_range.start, chunk.byte_range.end),
                estimated_tokens: chunk.estimated_tokens,
                confidence: cell_confidence(chunk.confidence),
            }) && omissions_are(b.omitted@, st.omitted) && provenance_is(
                b.provenance,
                "sig_tier_bundle"@,
                Confidence::Exact,
                snap,
                fresh,
            )
        }
    }
}

fn matching_chunks(chunks: &Vec<ChunkRecord>, sid: &String) -> (r: Vec<usize>)
    ensures
        r@.len() == with_id(chunks@, sid@).len(),
        forall|k: int| 0 <= k < r@.len() ==> (#[trigger] r@[k]) < chunks@.len() && chunks@[r@[k] as int] == with_id(
            chunks@,
            sid@,
        )[k],
{
    let mut r: Vec<usize> = Vec::new();
    let mut i: usize = 0;
    while i < chunks.len()
        invariant
            i <= chunks@.len(),
            r@.len() == with_id(chunks@.take(i as int), sid@).len(),
            forall|k: int| 0 <= k < r@.len() ==> (#[trigger] r@[k]) < i && chunks@[r@[k] as int] == with_id(
                chunks@.take(i as int),
                sid@,
            )[k],
        decreases chunks@.len() - i,
    {
        proof {
            assert(chunks@.take(i + 1).drop_last() =~= chunks@.take(i as int));
            assert(chunks@.take(i + 1).last() == chunks@[i as int]);
        }
        let ghost prev = with_id(chunks@.take(i as int), sid@);
        if chunks[i].stable_id.0 == *sid {
            r.push(i);
            proof {
                let now = with_id(chunks@.take(i + 1), sid@);
                assert(now == prev.push(chunks@[i as int]));
                assert forall|k: int| 0 <= k < r@.len() implies (#[trigger] r@[k]) < i + 1 && chunks@[r@[k] as int] == now[k] by {
                    if k < prev.len() {
                        assert(now[k] == prev[k]);
                    }
                }
            }
        } else {
            proof {
                let now = with_id(chunks@.take(i + 1), sid@);
                assert(now == prev);
            }
        }
        i = i + 1;
    }
    assert(chunks@.take(chunks@.len() as int) =~= chunks@);
    r
}

fn omission_str(r: OmissionReason) -> (s: &'static str)
    ensures
        s@ == omission_name(r),
{
    match r {
        OmissionReason::OverBudget => "over_budget",
        OmissionReason::LowPriority => "low_priority",
    }
}

fn cell_confidence_exec(c: schema::Confidence) -> (r: Confidence)
    ensures
        r == cell_confidence(c),
{
    match c {
        schema::Confidence::Exact => Confidence::Exact,
        schema::Confidence::High => Confidence::High,
        schema::Confidence::Medium => Confidence::Medium,
        schema::Confidence::Low => Confidence::Low,
    }
}

/// Answer a bundle request for `stable_id` in the file at `path`, whose
/// chunks are `chunks`, reporting the graph state `snapshot_id` and
/// `freshness`.
pub fn bundle_for_stable_id(
    path: &str,
    stable_id: &str,
    chunks: Vec<ChunkRecord>,
    budget: usize,
    max_tokens: usize,
    snapshot_id: &str,
    freshness: &str,
) -> (r: BundleResult)
    requires
        total_tokens(chunks@) <= usize::MAX,
    ensures
        is_bundle_answer(r, path@, stable_id@, chunks@, budget as nat, max_tokens as nat, snapshot_id@, freshness@),
{
    let sid = stable_id.to_owned();
    let matches = matching_chunks(&chunks, &sid);
    if matches.len() == 0 {
        return BundleResult::NotFound(
            NotFound {
                path: path.to_owned(),
                stable_id: sid,
                reason: "no chunk with this stable_id found in file".to_owned(),
                provenance: Provenance::new("stable_id_lookup", Confidence::Low).with_graph_state(snapshot_id, freshness),
            },
        );
    }
    if matches.len() > 1 {
        let mut candidates: Vec<Candidate> = Vec::new();
        let mut k: usize = 0;
        let ghost m = with_id(chunks@, stable_id@);
        while k < matches.len()
            invariant
                k <= matches@.len(),
                matches@.len() == m.len(),
                forall|q: int| 0 <= q < matches@.len() ==> (#[trigger] matches@[q]) < chunks@.len() && chunks@[matches@[q] as int] == m[q],
                candidates@ == m.take(k as int).map_values(|c: ChunkRecord| candidate_of(c)),
            decreases matches@.len() - k,
        {
            let c = &chunks[matches[k]];
            candidates.push(Candidate { anchor_byte: c.id.anchor_byte, kind: copy_string(&c.kind), name: copy_opt_string(&c.name) });
            k = k + 1;
            assert(candidates@ =~= m.take(k as int).map_values(|c: ChunkRecord| candidate_of(c)));
        }
        assert(m.take(m.len() as int) =~= m);
        return BundleResult::AmbiguousStableId(
            AmbiguousStableId {
                path: path.to_owned(),
                stable_id: sid,
                candidates,
                reason: "multiple chunks share this stable_id".to_owned(),
                provenance: Provenance::new("stable_id_lookup", Confidence::Low).with_graph_state(snapshot_id, freshness),
            },
        );
    }
    let chunk = chunks[matches[0]].copy();
    let effective = if budget <= max_tokens {
        budget
    } else {
        max_tokens
    };
    if chunk.estimated_tokens > effective {
        let mut omitted: Vec<OmittedChunk> = Vec::new();
        omitted.push(OmittedChunk { stable_id: copy_string(&sid), reason: "over_budget".to_owned() });
        return BundleResult::Exhausted(
            Exhausted {
                path: path.to_owned(),
                stable_id: sid,
                omitted,
                provenance: Provenance::new("sig_tier_bundle", Confidence::Exact).with_graph_state(snapshot_id, freshness),
            },
        );
    }
    let out = bundle_chunks(chunks, &BundleOptions { max_tokens: effective, max_chunks: BUNDLE_MAX_CHUNKS });
    let mut included = false;
    let mut i: usize = 0;
    while i < out.included.len()
        invariant
            i <= out.included@.len(),
            included <==> exists|q: int| 0 <= q < i && (#[trigger] out.included@[q]).stable_id.0@ == sid@,
        decreases out.included@.len() - i,
    {
        if out.included[i].stable_id.0 == sid {
            included = true;
        }
        i = i + 1;
    }
    let mut omitted: Vec<OmittedChunk> = Vec::new();
    let mut j: usize = 0;
    while j < out.omitted.len()
        invariant
            j <= out.omitted@.len(),
            omissions_are(
                omitted@,
                if included {
                    out.omitted@.take(j as int)
                } else {
                    target_omissions(out.omitted@.take(j as int), sid@)
                },
            ),
        decreases out.omitted@.len() - j,
    {
        let o = &out.omitted[j];
        proof {
            let a = out.omitted@.take(j + 1);
            let b = out.omitted@.take(j as int);
            assert(a.drop_last() =~= b);
            assert(target_omissions(a, sid@) == target_omissions(b, sid@) + if a[j as int].chunk.stable_id.0@ == sid@ {
                seq![a[j as int]]
            } else {
                seq![]
            }) by {
                crate::graph::diff::lemma_gather_agree(
                    |q: int| if a[q].chunk.stable_id.0@ == sid@ { seq![a[q]] } else { seq![] },
                    |q: int| if b[q].chunk.stable_id.0@ == sid@ { seq![b[q]] } else { seq![] },
                    j as int,
                );
            }
        }
        if included || o.chunk.stable_id.0 == sid {
            omitted.push(OmittedChunk { stable_id: copy_string(&o.chunk.stable_id.0), reason: omission_str(o.reason).to_owned() });
        }
        j = j + 1;
    }
    assert(out.omitted@.take(out.omitted@.len() as int) =~= out.omitted@);
    if !included {
        return BundleResult::Exhausted(
            Exhausted {
                path: path.to_owned(),
                stable_id: sid,
                omitted,
                provenance: Provenance::new("sig_tier_bundle", Confidence::Exact).with_graph_state(snapshot_id, freshness),
            },
        );
    }
    let mut cells: Vec<AstCell> = Vec::new();
    cells.push(
        AstCell {
            stable_id: copy_string(&chunk.stable_id.0),
            kind: copy_string(&chunk.kind),
            name: copy_opt_string(&chunk.name),
            byte_range: (chunk.byte_range.start, chunk.byte_range.end),
            estimated_tokens: chunk.estimated_tokens,
            confidence: cell_confidence_exec(chunk.confidence),
        },
    );
    let provenance = Provenance::new("sig_tier_bundle", Confidence::Exact).with_graph_state(snapshot_id, freshness);
    let b = Bundle { version: 1, path: path.to_owned(), cells, omitted, provenance };
    BundleResult::Bundle(b)
}

/// Answer a bundle request for the file at `path` from its source: parse
/// `source` with `language`, chunk the tree, and answer as
/// `bundle_for_stable_id` does over those chunks. `Ok(None)` means the
/// parser gave no tree; `Err` is a language the parser refused.
pub fn bundle_source(
    language: &tree_sitter::Language,
    path: &str,
    source: &[u8],
    stable_id: &str,
    budget: usize,
    max_tokens: usize,
    snapshot_id: &str,
    freshness: &str,
) -> (r: Result<Option<BundleResult>, String>)
    requires
        1000 * (source@.len() + 1) <= usize::MAX,
    ensures
        r matches Ok(Some(b)) ==> exists|t: SyntaxTree, co: ChunkOutput|
            #![trigger is_chunking(co, t, path@, source@, default_chunking())]
            {
                &&& wf_node(t.root, source@.len(), 0)
                &&& is_chunking(co, t, path@, source@, default_chunking())
                &&& is_bundle_answer(
                    b,
                    path@,
                    stable_id@,
                    co.chunks@,
                    budget as nat,
                    max_tokens as nat,
                    snapshot_id@,
                    freshness@,
                )
            },
{
    match parse_source(language, source) {
        Err(e) => Err(e),
        Ok(None) => Ok(None),
        Ok(Some((_tree, t))) => {
            let copts = ChunkOptions::default();
            assert(copts == default_chunking());
            let co = chunks_for_tree(&t, path, source, &copts);
            proof {
                lemma_total_tokens_bound(co.chunks@, (source@.len() + 1) as nat);
                let n = co.chunks@.len();
                let b = (source@.len() + 1) as nat;
                assert(n * b <= 1000 * b) by (nonlinear_arith)
                    requires
                        n <= 1000,
                ;
            }
            let ghost chunks = co.chunks@;
            let b = bundle_for_stable_id(path, stable_id, co.chunks, budget, max_tokens, snapshot_id, freshness);
            assert(is_chunking(co, t, path@, source@, default_chunking()));
            Ok(Some(b))
        },
    }
}

} // verus!
