//! Budgeted context bundling: select chunks that fit a token budget,
//! smaller chunks first.

use vstd::prelude::*;

use crate::schema::{ChunkRecord, Diagnostic, DiagnosticLevel};
use crate::sort::{lemma_sort_sorted, sort_by_key, sort_stable, sorted_by, total_preorder, KeyOrder};
use crate::text::{
    decimal, lemma_decimal_valid_utf8, lemma_utf8_valid, lit, push_decimal, push_str,
    string_from_utf8, utf8,
};

verus! {

/// Reason a chunk was omitted from the bundle.
#[derive(Clone, Copy, Debug, PartialEq, Eq, Structural)]
pub enum OmissionReason {
    /// The chunk would exceed the remaining token budget.
    OverBudget,
    /// The chunk was deprioritized in favor of more important chunks.
    LowPriority,
}

/// A chunk that was considered but not included in the bundle.
#[derive(Clone, Debug, PartialEq, Eq)]
pub struct OmittedChunk {
    pub chunk: ChunkRecord,
    pub reason: OmissionReason,
}

/// Result of a budgeted bundling pass.
#[derive(Clone, Debug)]
pub struct BundleOutput {
    pub included: Vec<ChunkRecord>,
    pub omitted: Vec<OmittedChunk>,
    pub total_included_tokens: usize,
    pub total_omitted_tokens: usize,
    pub budget: usize,
    pub diagnostics: Vec<Diagnostic>,
}

/// Options for bundling.
#[derive(Clone, Debug)]
pub struct BundleOptions {
    pub max_tokens: usize,
    /// Maximum number of chunks to include in the bundle.
    pub max_chunks: usize,
}

impl Default for BundleOptions {
    fn default() -> (o: Self)
        ensures
            o.max_tokens == 2000,
            o.max_chunks == 100,
    {
        BundleOptions { max_tokens: 2_000, max_chunks: 100 }
    }
}

/// Bundling order: by estimated token count, smaller first.
pub struct ByTokens;

impl KeyOrder<ChunkRecord> for ByTokens {
    open spec fn before(a: ChunkRecord, b: ChunkRecord) -> bool {
        a.estimated_tokens <= b.estimated_tokens
    }

    fn before_exec(a: &ChunkRecord, b: &ChunkRecord) -> (r: bool) {
        a.estimated_tokens <= b.estimated_tokens
    }
}

/// The state of the greedy selection after some chunks.
pub struct BundleState {
    pub included: Seq<ChunkRecord>,
    pub omitted: Seq<OmittedChunk>,
    pub total_included: nat,
    pub total_omitted: nat,
}

/// One greedy step: a chunk larger than the whole budget is over budget;
/// once `max_chunks` chunks are in, the rest are low priority; otherwise
/// a chunk is included when it still fits, and over budget when not.
pub open spec fn bundle_step(st: BundleState, c: ChunkRecord, max_tokens: nat, max_chunks: nat) -> BundleState {
    let t = c.estimated_tokens as nat;
    if t > max_tokens {
        BundleState {
            omitted: st.omitted.push(OmittedChunk { chunk: c, reason: OmissionReason::OverBudget }),
            total_omitted: st.total_omitted + t,
            ..st
        }
    } else if st.included.len() >= max_chunks {
        BundleState {
            omitted: st.omitted.push(OmittedChunk { chunk: c, reason: OmissionReason::LowPriority }),
            total_omitted: st.total_omitted + t,
            ..st
        }
    } else if st.total_included + t <= max_tokens {
        BundleState { included: st.included.push(c), total_included: st.total_included + t, ..st }
    } else {
        BundleState {
            omitted: st.omitted.push(OmittedChunk { chunk: c, reason: OmissionReason::OverBudget }),
            total_omitted: st.total_omitted + t,
            ..st
        }
    }
}

/// The greedy selection over a sequence of chunks, in order.
pub open spec fn bundle_fold(s: Seq<ChunkRecord>, max_tokens: nat, max_chunks: nat) -> BundleState
    decreases s.len(),
{
    if s.len() == 0 {
        BundleState { included: seq![], omitted: seq![], total_included: 0, total_omitted: 0 }
    } else {
        bundle_step(bundle_fold(s.drop_last(), max_tokens, max_chunks), s.last(), max_tokens, max_chunks)
    }
}

/// The sum of the estimated tokens of a sequence of chunks.
pub open spec fn total_tokens(s: Seq<ChunkRecord>) -> nat
    decreases s.len(),
{
    if s.len() == 0 {
        0
    } else {
        total_tokens(s.drop_last()) + s.last().estimated_tokens as nat
    }
}

/// The message of the omission diagnostic.
pub open spec fn omission_message(omitted: nat, used: nat, budget: nat) -> Seq<u8> {
    decimal(omitted) + lit(" chunk(s) omitted due to budget (") + decimal(used) + lit("/") + decimal(
        budget,
    ) + lit(" tokens used)")
}

/// Build the omission diagnostic.
fn omission_diagnostic(omitted: usize, used: usize, budget: usize) -> (d: Diagnostic)
    ensures
        d.level == DiagnosticLevel::Info,
        utf8(d.message@) == omission_message(omitted as nat, used as nat, budget as nat),
        d.context is None,
{
    let mut m: Vec<u8> = Vec::new();
    push_decimal(&mut m, omitted);
    push_str(&mut m, " chunk(s) omitted due to budget (");
    push_decimal(&mut m, used);
    push_str(&mut m, "/");
    push_decimal(&mut m, budget);
    push_str(&mut m, " tokens used)");
    proof {
        lemma_decimal_valid_utf8(omitted as nat);
        lemma_decimal_valid_utf8(used as nat);
        lemma_decimal_valid_utf8(budget as nat);
        lemma_utf8_valid(" chunk(s) omitted due to budget ("@);
        lemma_utf8_valid("/"@);
        lemma_utf8_valid(" tokens used)"@);
        let a = decimal(omitted as nat);
        let b = lit(" chunk(s) omitted due to budget (");
        let c = decimal(used as nat);
        let d = lit("/");
        let e = decimal(budget as nat);
        let f = lit(" tokens used)");
        vstd::utf8::valid_utf8_concat(a, b);
        vstd::utf8::valid_utf8_concat(a + b, c);
        vstd::utf8::valid_utf8_concat(a + b + c, d);
        vstd::utf8::valid_utf8_concat(a + b + c + d, e);
        vstd::utf8::valid_utf8_concat(a + b + c + d + e, f);
    }
    Diagnostic::with_level(DiagnosticLevel::Info, string_from_utf8(m))
}

/// Build a budgeted bundle from a list of chunks.
///
/// Chunks are sorted stably by estimated token count, smaller first, to
/// cover as many as possible, and taken greedily while they fit the budget
/// and the chunk limit.
pub fn bundle_chunks(chunks: Vec<ChunkRecord>, opts: &BundleOptions) -> (out: BundleOutput)
    requires
        total_tokens(chunks@) <= usize::MAX,
    ensures
        ({
            let st = bundle_fold(
                sort_by_key::<ChunkRecord, ByTokens>(chunks@),
                opts.max_tokens as nat,
                opts.max_chunks as nat,
            );
            &&& out.included@ == st.included
            &&& out.omitted@ == st.omitted
            &&& out.total_included_tokens == st.total_included
            &&& out.total_omitted_tokens == st.total_omitted
            &&& out.budget == opts.max_tokens
            &&& out.total_included_tokens <= opts.max_tokens
            &&& out.included@.len() <= opts.max_chunks
            &&& out.total_included_tokens + out.total_omitted_tokens == total_tokens(chunks@)
            &&& out.included@.len() + out.omitted@.len() == chunks@.len()
            &&& if st.omitted.len() == 0 {
                out.diagnostics@.len() == 0
            } else {
                &&& out.diagnostics@.len() == 1
                &&& out.diagnostics@[0].level == DiagnosticLevel::Info
                &&& out.diagnostics@[0].context is None
                &&& utf8(out.diagnostics@[0].message@) == omission_message(
                    st.omitted.len(),
                    st.total_included,
                    opts.max_tokens as nat,
                )
            }
        }),
{
    let ghost input = chunks@;
    let sorted = sort_stable::<ChunkRecord, ByTokens>(chunks);
    proof {
        lemma_sort_total_tokens(input);
    }
    let ghost sv = sorted@;
    let mut included: Vec<ChunkRecord> = Vec::new();
    let mut omitted: Vec<OmittedChunk> = Vec::new();
    let mut total_included: usize = 0;
    let mut total_omitted: usize = 0;
    let max_tokens = opts.max_tokens;
    let max_chunks = opts.max_chunks;
    let mut i: usize = 0;
    assert(sv.take(0) =~= Seq::<ChunkRecord>::empty());
    while i < sorted.len()
        invariant
            i <= sv.len(),
            sv == sorted@,
            total_tokens(sv) <= usize::MAX,
            max_tokens == opts.max_tokens,
            max_chunks == opts.max_chunks,
            included@ == bundle_fold(sv.take(i as int), max_tokens as nat, max_chunks as nat).included,
            omitted@ == bundle_fold(sv.take(i as int), max_tokens as nat, max_chunks as nat).omitted,
            total_included == bundle_fold(sv.take(i as int), max_tokens as nat, max_chunks as nat).total_included,
            total_omitted == bundle_fold(sv.take(i as int), max_tokens as nat, max_chunks as nat).total_omitted,
            total_included + total_omitted == total_tokens(sv.take(i as int)),
            total_included <= max_tokens,
            included@.len() <= max_chunks,
            included@.len() + omitted@.len() == i,
        decreases sv.len() - i,
    {
        proof {
            assert(sv.take(i + 1).drop_last() =~= sv.take(i as int));
            assert(sv.take(i + 1).last() == sv[i as int]);
            lemma_total_tokens_prefix(sv, i + 1, sv.len() as int);
            assert(sv.take(sv.len() as int) =~= sv);
        }
        let c = sorted[i].copy();
        let tokens = c.estimated_tokens;
        if tokens > max_tokens {
            total_omitted = total_omitted + tokens;
            omitted.push(OmittedChunk { chunk: c, reason: OmissionReason::OverBudget });
        } else if included.len() >= max_chunks {
            total_omitted = total_omitted + tokens;
            omitted.push(OmittedChunk { chunk: c, reason: OmissionReason::LowPriority });
        } else if tokens <= max_tokens - total_included {
            total_included = total_included + tokens;
            included.push(c);
        } else {
            total_omitted = total_omitted + tokens;
            omitted.push(OmittedChunk { chunk: c, reason: OmissionReason::OverBudget });
        }
        i = i + 1;
    }
    assert(sv.take(sv.len() as int) =~= sv);
    proof {
        crate::sort::lemma_sort_len::<ChunkRecord, ByTokens>(input);
    }
    let mut diagnostics: Vec<Diagnostic> = Vec::new();
    if omitted.len() > 0 {
        diagnostics.push(omission_diagnostic(omitted.len(), total_included, max_tokens));
    }
    BundleOutput {
        included,
        omitted,
        total_included_tokens: total_included,
        total_omitted_tokens: total_omitted,
        budget: opts.max_tokens,
        diagnostics,
    }
}

proof fn lemma_total_tokens_prefix(s: Seq<ChunkRecord>, a: int, b: int)
    requires
        0 <= a <= b <= s.len(),
    ensures
        total_tokens(s.take(a)) <= total_tokens(s.take(b)),
    decreases b - a,
{
    if a < b {
        lemma_total_tokens_prefix(s, a, b - 1);
        assert(s.take(b).drop_last() =~= s.take(b - 1));
    }
}

proof fn lemma_insert_total_tokens(s: Seq<ChunkRecord>, x: ChunkRecord)
    ensures
        total_tokens(crate::sort::insert_by_key::<ChunkRecord, ByTokens>(s, x)) == total_tokens(s)
            + x.estimated_tokens,
    decreases s.len(),
{
    let r = crate::sort::insert_by_key::<ChunkRecord, ByTokens>(s, x);
    if s.len() == 0 {
        assert(r == seq![x]);
        assert(r.drop_last() =~= Seq::<ChunkRecord>::empty());
        assert(total_tokens(r) == total_tokens(r.drop_last()) + r.last().estimated_tokens);
    } else if ByTokens::before(s.last(), x) {
        assert(r == s.push(x));
        assert(r.drop_last() =~= s);
        assert(total_tokens(r) == total_tokens(r.drop_last()) + r.last().estimated_tokens);
    } else {
        lemma_insert_total_tokens(s.drop_last(), x);
        assert(r.drop_last() =~= crate::sort::insert_by_key::<ChunkRecord, ByTokens>(s.drop_last(), x));
        assert(r.last() == s.last());
        assert(total_tokens(r) == total_tokens(r.drop_last()) + r.last().estimated_tokens);
        assert(total_tokens(s) == total_tokens(s.drop_last()) + s.last().estimated_tokens);
    }
}

/// Sorting keeps the token total.
pub proof fn lemma_sort_total_tokens(s: Seq<ChunkRecord>)
    ensures
        total_tokens(sort_by_key::<ChunkRecord, ByTokens>(s)) == total_tokens(s),
    decreases s.len(),
{
    if s.len() > 0 {
        lemma_sort_total_tokens(s.drop_last());
        lemma_insert_total_tokens(sort_by_key::<ChunkRecord, ByTokens>(s.drop_last()), s.last());
    }
}

/// The tokens of a prefix are at most those of the whole.
pub proof fn lemma_total_tokens_take(s: Seq<ChunkRecord>, k: int)
    requires
        0 <= k <= s.len(),
    ensures
        total_tokens(s.take(k)) <= total_tokens(s),
    decreases s.len(),
{
    if k < s.len() {
        assert(s.drop_last().take(k) =~= s.take(k));
        lemma_total_tokens_take(s.drop_last(), k);
    } else {
        assert(s.take(k) =~= s);
    }
}

/// When every chunk costs at most `b` tokens, the total is at most `b`
/// per chunk.
pub proof fn lemma_total_tokens_bound(s: Seq<ChunkRecord>, b: nat)
    requires
        forall|i: int| 0 <= i < s.len() ==> (#[trigger] s[i]).estimated_tokens <= b,
    ensures
        total_tokens(s) <= s.len() * b,
    decreases s.len(),
{
    if s.len() > 0 {
        let t = s.drop_last();
        assert forall|i: int| 0 <= i < t.len() implies (#[trigger] t[i]).estimated_tokens <= b by {
            assert(t[i] == s[i]);
        }
        lemma_total_tokens_bound(t, b);
        let n = t.len();
        assert(n * b + b == (n + 1) * b) by (nonlinear_arith);
    }
}

/// Over chunks in ascending token order, the greedy pass includes them in
/// ascending token order, none larger than the last chunk.
proof fn lemma_fold_included_ascending(s: Seq<ChunkRecord>, max_tokens: nat, max_chunks: nat)
    requires
        sorted_by::<ChunkRecord, ByTokens>(s),
    ensures
        ({
            let inc = bundle_fold(s, max_tokens, max_chunks).included;
            &&& forall|i: int, j: int|
                0 <= i < j < inc.len() ==> (#[trigger] inc[i]).estimated_tokens <= (#[trigger] inc[j]).estimated_tokens
            &&& s.len() > 0 ==> forall|i: int|
                0 <= i < inc.len() ==> (#[trigger] inc[i]).estimated_tokens <= s.last().estimated_tokens
        }),
    decreases s.len(),
{
    if s.len() > 0 {
        let t = s.drop_last();
        assert forall|i: int, j: int| 0 <= i < j < t.len() implies ByTokens::before(#[trigger] t[i], #[trigger] t[j]) by {
            assert(t[i] == s[i] && t[j] == s[j]);
        }
        lemma_fold_included_ascending(t, max_tokens, max_chunks);
        if t.len() > 0 {
            assert(ByTokens::before(s[t.len() - 1], s[s.len() - 1]));
        }
    }
}

/// The bundle takes chunks smaller first: the included chunks come in
/// ascending token order, whatever order the input had.
pub proof fn lemma_bundle_smaller_first(chunks: Seq<ChunkRecord>, max_tokens: nat, max_chunks: nat)
    ensures
        ({
            let inc = bundle_fold(sort_by_key::<ChunkRecord, ByTokens>(chunks), max_tokens, max_chunks).included;
            forall|i: int, j: int|
                0 <= i < j < inc.len() ==> (#[trigger] inc[i]).estimated_tokens <= (#[trigger] inc[j]).estimated_tokens
        }),
{
    assert(total_preorder::<ChunkRecord, ByTokens>());
    lemma_sort_sorted::<ChunkRecord, ByTokens>(chunks);
    lemma_fold_included_ascending(sort_by_key::<ChunkRecord, ByTokens>(chunks), max_tokens, max_chunks);
}

} // verus!
