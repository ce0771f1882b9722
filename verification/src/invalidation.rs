//! Invalidation: classify the chunks of a new parse against an old one.
//!
//! Chunks are paired by stable identity. A paired chunk whose text
//! changed, ignoring ASCII whitespace, is affected; otherwise it is
//! unchanged. Unpaired chunks are added or removed. A new chunk that no
//! classification has named yet is affected when it overlaps a changed
//! range.

use vstd::prelude::*;

use crate::bundle::{lemma_total_tokens_bound, total_tokens};
use crate::chunk::tree::{chunk_entries, chunks_for_tree, chunks_match, tree_confidence, wf_node, SyntaxTree};
use crate::chunk::ChunkOptions;
use crate::identity::{match_chunks, match_results, MatchResult};
use crate::schema::{
    ByteRange, ChunkRecord, Confidence, Diagnostic, DiagnosticLevel, InvalidationOutput, InvalidationReason,
    InvalidationRecord, InvalidationStatus, MatchStrategy, OutputMeta,
};
use crate::text::{
    decimal, lemma_decimal_valid_utf8, lemma_utf8_valid, lit, push_decimal, push_str, string_from_utf8, utf8,
};

verus! {

/// Whether a byte is ASCII whitespace, as `u8::is_ascii_whitespace`
/// decides: space, tab, line feed, form feed or carriage return.
pub open spec fn is_ws(b: u8) -> bool {
    b == 32 || b == 9 || b == 10 || b == 12 || b == 13
}

/// The bytes of `s` without ASCII whitespace.
pub open spec fn strip_ws(s: Seq<u8>) -> Seq<u8>
    decreases s.len(),
{
    if s.len() == 0 {
        seq![]
    } else {
        strip_ws(s.drop_last()) + if is_ws(s.last()) {
            seq![]
        } else {
            seq![s.last()]
        }
    }
}

/// The bytes of a chunk's range, cut at the end of the source.
pub open spec fn range_text(source: Seq<u8>, r: ByteRange) -> Seq<u8> {
    let end = if r.end <= source.len() {
        r.end as int
    } else {
        source.len() as int
    };
    source.subrange(r.start as int, end)
}

/// Whether two ranges overlap.
pub open spec fn overlaps(a: ByteRange, b: ByteRange) -> bool {
    a.start < b.end && a.end > b.start
}

/// Whether `r` overlaps some range of `ranges`.
pub open spec fn overlaps_any(r: ByteRange, ranges: Seq<ByteRange>) -> bool {
    exists|i: int| 0 <= i < ranges.len() && overlaps(r, #[trigger] ranges[i])
}

/// Whether some chunk of `s` has the stable identifier of `c`.
pub open spec fn has_id(s: Seq<ChunkRecord>, c: ChunkRecord) -> bool {
    exists|i: int| 0 <= i < s.len() && (#[trigger] s[i]).stable_id.0@ == c.stable_id.0@
}

/// What a record states.
pub struct RecordView {
    pub status: InvalidationStatus,
    pub chunk: ChunkRecord,
    pub old_chunk: Option<ChunkRecord>,
    pub reason: InvalidationReason,
    pub match_strategy: MatchStrategy,
}

/// Whether `r` is the record that `v` describes, with the chunk's own
/// confidence and no changed range of its own.
pub open spec fn record_is(r: InvalidationRecord, v: RecordView) -> bool {
    &&& r.status == v.status
    &&& r.chunk == v.chunk
    &&& r.old_chunk == v.old_chunk
    &&& r.reason == v.reason
    &&& r.match_strategy == v.match_strategy
    &&& r.confidence == v.chunk.confidence
    &&& r.changed_ranges@.len() == 0
}

/// The classification built up so far.
pub struct Classified {
    pub affected: Seq<ChunkRecord>,
    pub added: Seq<ChunkRecord>,
    pub removed: Seq<ChunkRecord>,
    pub unchanged: Seq<ChunkRecord>,
    /// Ranges of changed chunks that no detected range overlapped.
    pub extra_ranges: Seq<ByteRange>,
    pub records: Seq<RecordView>,
}

/// Classify one match result.
pub open spec fn classify_step(
    st: Classified,
    m: MatchResult,
    old_source: Seq<u8>,
    new_source: Seq<u8>,
    ranges: Seq<ByteRange>,
) -> Classified {
    match m {
        MatchResult::Unchanged { old, new } => if strip_ws(range_text(old_source, old.byte_range)) != strip_ws(
            range_text(new_source, new.byte_range),
        ) {
            Classified {
                affected: st.affected.push(new),
                extra_ranges: if overlaps_any(new.byte_range, ranges) {
                    st.extra_ranges
                } else {
                    st.extra_ranges.push(new.byte_range)
                },
                records: st.records.push(
                    RecordView {
                        status: InvalidationStatus::Affected,
                        chunk: new,
                        old_chunk: Some(old),
                        reason: InvalidationReason::ContentChanged,
                        match_strategy: MatchStrategy::StableId,
                    },
                ),
                ..st
            }
        } else {
            Classified {
                unchanged: st.unchanged.push(new),
                records: st.records.push(
                    RecordView {
                        status: InvalidationStatus::Unchanged,
                        chunk: new,
                        old_chunk: Some(old),
                        reason: InvalidationReason::NoChangeDetected,
                        match_strategy: MatchStrategy::StableId,
                    },
                ),
                ..st
            }
        },
        MatchResult::Removed { old } => Classified {
            removed: st.removed.push(old),
            records: st.records.push(
                RecordView {
                    status: InvalidationStatus::Removed,
                    chunk: old,
                    old_chunk: Some(old),
                    reason: InvalidationReason::RemovedChunk,
                    match_strategy: MatchStrategy::Unmatched,
                },
            ),
            ..st
        },
        MatchResult::Added { new } => Classified {
            added: st.added.push(new),
            records: st.records.push(
                RecordView {
                    status: InvalidationStatus::Added,
                    chunk: new,
                    old_chunk: None,
                    reason: InvalidationReason::AddedChunk,
                    match_strategy: MatchStrategy::Unmatched,
                },
            ),
            ..st
        },
    }
}

/// Classify the match results in order.
pub open spec fn classify_all(
    ms: Seq<MatchResult>,
    old_source: Seq<u8>,
    new_source: Seq<u8>,
    ranges: Seq<ByteRange>,
) -> Classified
    decreases ms.len(),
{
    if ms.len() == 0 {
        Classified {
            affected: seq![],
            added: seq![],
            removed: seq![],
            unchanged: seq![],
            extra_ranges: seq![],
            records: seq![],
        }
    } else {
        classify_step(classify_all(ms.drop_last(), old_source, new_source, ranges), ms.last(), old_source, new_source, ranges)
    }
}

/// Add one new chunk as affected when nothing names its identifier yet
/// and it overlaps a changed range.
pub open spec fn overlap_step(st: Classified, c: ChunkRecord, ranges: Seq<ByteRange>) -> Classified {
    if !has_id(st.affected, c) && !has_id(st.added, c) && !has_id(st.unchanged, c) && overlaps_any(c.byte_range, ranges) {
        Classified {
            affected: st.affected.push(c),
            records: st.records.push(
                RecordView {
                    status: InvalidationStatus::Affected,
                    chunk: c,
                    old_chunk: None,
                    reason: InvalidationReason::ChangedRangeOverlap,
                    match_strategy: MatchStrategy::TextualRangeOverlap,
                },
            ),
            ..st
        }
    } else {
        st
    }
}

/// Run the overlap pass over the new chunks in order.
pub open spec fn overlap_all(chunks: Seq<ChunkRecord>, st: Classified, ranges: Seq<ByteRange>) -> Classified
    decreases chunks.len(),
{
    if chunks.len() == 0 {
        st
    } else {
        overlap_step(overlap_all(chunks.drop_last(), st, ranges), chunks.last(), ranges)
    }
}

/// The full classification of a pair of parses.
pub open spec fn classification(
    old_chunks: Seq<ChunkRecord>,
    new_chunks: Seq<ChunkRecord>,
    old_source: Seq<u8>,
    new_source: Seq<u8>,
    ranges: Seq<ByteRange>,
) -> Classified {
    overlap_all(
        new_chunks,
        classify_all(match_results(old_chunks, new_chunks), old_source, new_source, ranges),
        ranges,
    )
}

/// The message counting chunks of one kind.
pub open spec fn count_message(n: nat, what: &str) -> Seq<u8> {
    decimal(n) + lit(what)
}

/// Every chunk's range starts within the source and does not end before
/// it starts.
pub open spec fn ranges_sliceable(chunks: Seq<ChunkRecord>, len: nat) -> bool {
    forall|i: int|
        0 <= i < chunks.len() ==> #[trigger] chunks[i].byte_range.start <= chunks[i].byte_range.end
            && chunks[i].byte_range.start <= len
}

fn strip_ws_exec(s: &[u8], start: usize, end: usize) -> (r: Vec<u8>)
    requires
        start <= end <= s@.len(),
    ensures
        r@ == strip_ws(s@.subrange(start as int, end as int)),
{
    let mut r: Vec<u8> = Vec::new();
    let mut i: usize = start;
    while i < end
        invariant
            start <= i <= end <= s@.len(),
            r@ == strip_ws(s@.subrange(start as int, i as int)),
        decreases end - i,
    {
        let b = s[i];
        proof {
            assert(s@.subrange(start as int, i + 1).drop_last() =~= s@.subrange(start as int, i as int));
        }
        if !(b == 32 || b == 9 || b == 10 || b == 12 || b == 13) {
            r.push(b);
        }
        i = i + 1;
    }
    r
}

fn text_end(len: usize, end: usize) -> (e: usize)
    ensures
        e == if end <= len {
            end
        } else {
            len
        },
{
    if end <= len {
        end
    } else {
        len
    }
}

/// Whether two chunks hold the same text, ignoring ASCII whitespace.
fn same_text_ignoring_whitespace(old_source: &[u8], old_range: &ByteRange, new_source: &[u8], new_range: &ByteRange) -> (r:
    bool)
    requires
        old_range.start <= old_range.end,
        old_range.start <= old_source@.len(),
        new_range.start <= new_range.end,
        new_range.start <= new_source@.len(),
    ensures
        r == (strip_ws(range_text(old_source@, *old_range)) == strip_ws(range_text(new_source@, *new_range))),
{
    let a = strip_ws_exec(old_source, old_range.start, text_end(old_source.len(), old_range.end));
    let b = strip_ws_exec(new_source, new_range.start, text_end(new_source.len(), new_range.end));
    crate::text::bytes_eq(a.as_slice(), b.as_slice())
}

fn overlaps_any_exec(r: &ByteRange, ranges: &Vec<ByteRange>) -> (b: bool)
    ensures
        b == overlaps_any(*r, ranges@),
{
    let mut i: usize = 0;
    while i < ranges.len()
        invariant
            i <= ranges@.len(),
            forall|k: int| 0 <= k < i ==> !overlaps(*r, #[trigger] ranges@[k]),
        decreases ranges@.len() - i,
    {
        if r.start < ranges[i].end && r.end > ranges[i].start {
            return true;
        }
        i = i + 1;
    }
    false
}

fn has_id_exec(s: &Vec<ChunkRecord>, c: &ChunkRecord) -> (b: bool)
    ensures
        b == has_id(s@, *c),
{
    let mut i: usize = 0;
    while i < s.len()
        invariant
            i <= s@.len(),
            forall|k: int| 0 <= k < i ==> (#[trigger] s@[k]).stable_id.0@ != c.stable_id.0@,
        decreases s@.len() - i,
    {
        if s[i].stable_id.0 == c.stable_id.0 {
            return true;
        }
        i = i + 1;
    }
    false
}

fn record(view_status: InvalidationStatus, chunk: ChunkRecord, old_chunk: Option<ChunkRecord>, reason: InvalidationReason, strategy: MatchStrategy) -> (r: InvalidationRecord)
    ensures
        record_is(
            r,
            RecordView { status: view_status, chunk, old_chunk, reason, match_strategy: strategy },
        ),
{
    let confidence = chunk.confidence;
    InvalidationRecord {
        status: view_status,
        chunk,
        old_chunk,
        reason,
        match_strategy: strategy,
        confidence,
        changed_ranges: Vec::new(),
    }
}

/// The diagnostic counting chunks of one kind.
fn count_diagnostic(n: usize, what: &str) -> (d: Diagnostic)
    ensures
        d.level == DiagnosticLevel::Info,
        utf8(d.message@) == count_message(n as nat, what),
        d.context is None,
{
    let mut m: Vec<u8> = Vec::new();
    push_decimal(&mut m, n);
    push_str(&mut m, what);
    proof {
        lemma_decimal_valid_utf8(n as nat);
        lemma_utf8_valid(what@);
        vstd::utf8::valid_utf8_concat(decimal(n as nat), lit(what));
    }
    Diagnostic::with_level(DiagnosticLevel::Info, string_from_utf8(m))
}

/// The classified output of a pair of parses.
pub open spec fn is_invalidation_of(
    out: InvalidationOutput,
    old_chunks: Seq<ChunkRecord>,
    new_chunks: Seq<ChunkRecord>,
    old_source: Seq<u8>,
    new_source: Seq<u8>,
    ranges: Seq<ByteRange>,
    path: Seq<char>,
) -> bool {
    let c = classification(old_chunks, new_chunks, old_source, new_source, ranges);
    &&& out.affected@ == c.affected
    &&& out.added@ == c.added
    &&& out.removed@ == c.removed
    &&& out.unchanged@ == c.unchanged
    &&& out.changed_ranges@ == ranges + c.extra_ranges
    &&& out.records@.len() == c.records.len()
    &&& forall|i: int| 0 <= i < c.records.len() ==> record_is(#[trigger] out.records@[i], c.records[i])
    &&& out.meta.schema_version@ == "0.1.0"@
    &&& out.meta.source_path matches Some(p) && p@ == path
    &&& out.meta.total_chunks == new_chunks.len()
    &&& out.meta.total_estimated_tokens == total_tokens(new_chunks)
}

/// The diagnostics of an invalidation: a note when no changed range was
/// detected, then the counts of affected, added and removed chunks, each
/// when it is not zero.
pub open spec fn invalidation_diagnostics_ok(d: Seq<Diagnostic>, no_ranges: bool, c: Classified) -> bool {
    let n0: int = if no_ranges { 1 } else { 0 };
    let n1: int = if c.affected.len() > 0 { 1 } else { 0 };
    let n2: int = if c.added.len() > 0 { 1 } else { 0 };
    let n3: int = if c.removed.len() > 0 { 1 } else { 0 };
    &&& d.len() == n0 + n1 + n2 + n3
    &&& forall|i: int| 0 <= i < d.len() ==> (#[trigger] d[i]).level == DiagnosticLevel::Info && d[i].context is None
    &&& no_ranges ==> d[0].message@ == "no changed ranges detected between snapshots"@
    &&& c.affected.len() > 0 ==> utf8(d[n0].message@) == count_message(c.affected.len(), " affected chunk(s)")
    &&& c.added.len() > 0 ==> utf8(d[n0 + n1].message@) == count_message(c.added.len(), " added chunk(s)")
    &&& c.removed.len() > 0 ==> utf8(d[n0 + n1 + n2].message@) == count_message(c.removed.len(), " removed chunk(s)")
}

/// Classify the chunks of a new parse of the file at `path` against those
/// of an old parse, given the ranges that the parser reported as changed.
pub fn invalidate_chunks(
    old_chunks: &Vec<ChunkRecord>,
    new_chunks: &Vec<ChunkRecord>,
    old_source: &[u8],
    new_source: &[u8],
    changed_ranges: &Vec<ByteRange>,
    path: &str,
) -> (out: InvalidationOutput)
    requires
        ranges_sliceable(old_chunks@, old_source@.len()),
        ranges_sliceable(new_chunks@, new_source@.len()),
        total_tokens(new_chunks@) <= usize::MAX,
    ensures
        is_invalidation_of(out, old_chunks@, new_chunks@, old_source@, new_source@, changed_ranges@, path@),
        invalidation_diagnostics_ok(
            out.diagnostics@,
            changed_ranges@.len() == 0,
            classification(old_chunks@, new_chunks@, old_source@, new_source@, changed_ranges@),
        ),
{
    let ghost os = old_source@;
    let ghost ns = new_source@;
    let ghost rs = changed_ranges@;
    let matches = match_chunks(old_chunks.as_slice(), new_chunks.as_slice());
    proof {
        crate::identity::lemma_match_results_from(old_chunks@, new_chunks@);
    }
    let mut affected: Vec<ChunkRecord> = Vec::new();
    let mut added: Vec<ChunkRecord> = Vec::new();
    let mut removed: Vec<ChunkRecord> = Vec::new();
    let mut unchanged: Vec<ChunkRecord> = Vec::new();
    let mut extra: Vec<ByteRange> = Vec::new();
    let mut records: Vec<InvalidationRecord> = Vec::new();
    let ghost ms = matches@;
    let mut rest = matches;
    let mut k: usize = 0;
    let n = rest.len();
    while rest.len() > 0
        invariant
            k + rest@.len() == ms.len(),
            n == ms.len(),
            rest@ == ms.subrange(k as int, ms.len() as int),
            forall|i: int| 0 <= i < ms.len() ==> crate::identity::result_from(#[trigger] ms[i], old_chunks@, new_chunks@),
            ranges_sliceable(old_chunks@, os.len()),
            ranges_sliceable(new_chunks@, ns.len()),
            old_source@ == os,
            new_source@ == ns,
            changed_ranges@ == rs,
            ({
                let c = classify_all(ms.take(k as int), os, ns, rs);
                &&& affected@ == c.affected
                &&& added@ == c.added
                &&& removed@ == c.removed
                &&& unchanged@ == c.unchanged
                &&& extra@ == c.extra_ranges
                &&& records@.len() == c.records.len()
                &&& forall|i: int| 0 <= i < c.records.len() ==> record_is(#[trigger] records@[i], c.records[i])
            }),
        decreases rest@.len(),
    {
        let m = rest.remove(0);
        assert(m == ms[k as int]);
        proof {
            assert(ms.take(k + 1).drop_last() =~= ms.take(k as int));
        }
        let ghost prev = classify_all(ms.take(k as int), os, ns, rs);
        let ghost prev_records = records@;
        proof {
            match &m {
                MatchResult::Unchanged { old, new } => {
                    lemma_sliceable_member(old_chunks@, os.len(), *old);
                    lemma_sliceable_member(new_chunks@, ns.len(), *new);
                },
                _ => {},
            }
        }
        match m {
            MatchResult::Unchanged { old, new } => {
                if !same_text_ignoring_whitespace(old_source, &old.byte_range, new_source, &new.byte_range) {
                    if !overlaps_any_exec(&new.byte_range, changed_ranges) {
                        extra.push(new.byte_range);
                    }
                    affected.push(new.copy());
                    records.push(
                        record(
                            InvalidationStatus::Affected,
                            new,
                            Some(old),
                            InvalidationReason::ContentChanged,
                            MatchStrategy::StableId,
                        ),
                    );
                } else {
                    unchanged.push(new.copy());
                    records.push(
                        record(
                            InvalidationStatus::Unchanged,
                            new,
                            Some(old),
                            InvalidationReason::NoChangeDetected,
                            MatchStrategy::StableId,
                        ),
                    );
                }
            },
            MatchResult::Removed { old } => {
                removed.push(old.copy());
                let again = old.copy();
                records.push(
                    record(
                        InvalidationStatus::Removed,
                        old,
                        Some(again),
                        InvalidationReason::RemovedChunk,
                        MatchStrategy::Unmatched,
                    ),
                );
            },
            MatchResult::Added { new } => {
                added.push(new.copy());
                records.push(
                    record(InvalidationStatus::Added, new, None, InvalidationReason::AddedChunk, MatchStrategy::Unmatched),
                );
            },
        }
        proof {
            let c = classify_all(ms.take(k + 1), os, ns, rs);
            assert forall|i: int| 0 <= i < c.records.len() implies record_is(#[trigger] records@[i], c.records[i]) by {
                if i < prev.records.len() {
                    assert(records@[i] == prev_records[i]);
                }
            }
        }
        k = k + 1;
        assert(rest@ =~= ms.subrange(k as int, ms.len() as int));
    }
    assert(ms.take(ms.len() as int) =~= ms);
    let ghost base = classify_all(ms, os, ns, rs);
    let mut j: usize = 0;
    while j < new_chunks.len()
        invariant
            j <= new_chunks@.len(),
            ({
                let c = overlap_all(new_chunks@.take(j as int), base, rs);
                &&& affected@ == c.affected
                &&& added@ == c.added
                &&& removed@ == c.removed
                &&& unchanged@ == c.unchanged
                &&& extra@ == c.extra_ranges
                &&& records@.len() == c.records.len()
                &&& forall|i: int| 0 <= i < c.records.len() ==> record_is(#[trigger] records@[i], c.records[i])
            }),
            changed_ranges@ == rs,
        decreases new_chunks@.len() - j,
    {
        let c = &new_chunks[j];
        proof {
            assert(new_chunks@.take(j + 1).drop_last() =~= new_chunks@.take(j as int));
        }
        let ghost prev = overlap_all(new_chunks@.take(j as int), base, rs);
        let ghost prev_records = records@;
        if !has_id_exec(&affected, c) && !has_id_exec(&added, c) && !has_id_exec(&unchanged, c) && overlaps_any_exec(
            &c.byte_range,
            changed_ranges,
        ) {
            affected.push(c.copy());
            records.push(
                record(
                    InvalidationStatus::Affected,
                    c.copy(),
                    None,
                    InvalidationReason::ChangedRangeOverlap,
                    MatchStrategy::TextualRangeOverlap,
                ),
            );
        }
        proof {
            let cc = overlap_all(new_chunks@.take(j + 1), base, rs);
            assert forall|i: int| 0 <= i < cc.records.len() implies record_is(#[trigger] records@[i], cc.records[i]) by {
                if i < prev.records.len() {
                    assert(records@[i] == prev_records[i]);
                }
            }
        }
        j = j + 1;
    }
    assert(new_chunks@.take(new_chunks@.len() as int) =~= new_chunks@);

    let mut all_ranges: Vec<ByteRange> = Vec::new();
    let mut r: usize = 0;
    while r < changed_ranges.len()
        invariant
            r <= changed_ranges@.len(),
            all_ranges@ == changed_ranges@.take(r as int),
        decreases changed_ranges@.len() - r,
    {
        all_ranges.push(changed_ranges[r]);
        r = r + 1;
        assert(all_ranges@ =~= changed_ranges@.take(r as int));
    }
    let ghost before_extra = all_ranges@;
    let mut e: usize = 0;
    while e < extra.len()
        invariant
            e <= extra@.len(),
            before_extra =~= changed_ranges@,
            all_ranges@ == before_extra + extra@.take(e as int),
        decreases extra@.len() - e,
    {
        all_ranges.push(extra[e]);
        e = e + 1;
        assert(all_ranges@ =~= before_extra + extra@.take(e as int));
    }
    assert(extra@.take(extra@.len() as int) =~= extra@);

    let mut total: usize = 0;
    let mut t: usize = 0;
    while t < new_chunks.len()
        invariant
            t <= new_chunks@.len(),
            total == total_tokens(new_chunks@.take(t as int)),
            total_tokens(new_chunks@) <= usize::MAX,
        decreases new_chunks@.len() - t,
    {
        proof {
            assert(new_chunks@.take(t + 1).drop_last() =~= new_chunks@.take(t as int));
            lemma_token_sum_prefix(new_chunks@, t + 1);
        }
        total = total + new_chunks[t].estimated_tokens;
        t = t + 1;
    }

    let mut diagnostics: Vec<Diagnostic> = Vec::new();
    if changed_ranges.len() == 0 {
        diagnostics.push(Diagnostic::info("no changed ranges detected between snapshots"));
    }
    if affected.len() > 0 {
        diagnostics.push(count_diagnostic(affected.len(), " affected chunk(s)"));
    }
    if added.len() > 0 {
        diagnostics.push(count_diagnostic(added.len(), " added chunk(s)"));
    }
    if removed.len() > 0 {
        diagnostics.push(count_diagnostic(removed.len(), " removed chunk(s)"));
    }
    InvalidationOutput {
        records,
        affected,
        added,
        removed,
        unchanged,
        changed_ranges: all_ranges,
        diagnostics,
        meta: OutputMeta {
            schema_version: "0.1.0".to_owned(),
            source_path: Some(path.to_owned()),
            total_chunks: new_chunks.len(),
            total_estimated_tokens: total,
        },
    }
}

/// `r` is `s` with every confidence set to `Medium`.
pub open spec fn medium_all(r: Seq<ChunkRecord>, s: Seq<ChunkRecord>) -> bool {
    &&& r.len() == s.len()
    &&& forall|i: int| 0 <= i < s.len() ==> #[trigger] r[i] == (ChunkRecord { confidence: Confidence::Medium, ..s[i] })
}

fn set_medium(chunks: &mut Vec<ChunkRecord>)
    ensures
        medium_all(final(chunks)@, old(chunks)@),
{
    let ghost orig = chunks@;
    let mut i: usize = 0;
    while i < chunks.len()
        invariant
            i <= chunks@.len(),
            chunks@.len() == orig.len(),
            forall|k: int| 0 <= k < i ==> #[trigger] chunks@[k] == (ChunkRecord { confidence: Confidence::Medium, ..orig[k] }),
            forall|k: int| i <= k < chunks@.len() ==> #[trigger] chunks@[k] == orig[k],
        decreases chunks@.len() - i,
    {
        let mut c = chunks[i].copy();
        c.confidence = Confidence::Medium;
        chunks.set(i, c);
        i = i + 1;
    }
}

/// `out` is the invalidation of the chunks of `nt` against those of `ot`,
/// given the ranges that changed: what `invalidate_snapshot` gives.
pub open spec fn is_tree_invalidation(
    out: InvalidationOutput,
    ot: SyntaxTree,
    nt: SyntaxTree,
    os: Seq<u8>,
    ns: Seq<u8>,
    ranges: Seq<ByteRange>,
    path: Seq<char>,
) -> bool {
        exists|oc: Seq<ChunkRecord>, nc: Seq<ChunkRecord>|
            #![trigger chunks_match(oc, chunk_entries(ot.root, 1000), path, os, tree_confidence(ot.has_error)), chunks_match(nc, chunk_entries(nt.root, 1000), path, ns, tree_confidence(nt.has_error))]
            {
                &&& chunks_match(
                    oc,
                    chunk_entries(ot.root, 1000),
                    path,
                    os,
                    tree_confidence(ot.has_error),
                )
                &&& chunks_match(
                    nc,
                    chunk_entries(nt.root, 1000),
                    path,
                    ns,
                    tree_confidence(nt.has_error),
                )
                &&& is_invalidation_of(out, oc, nc, os, ns, ranges, path)
                &&& invalidation_diagnostics_ok(
                    out.diagnostics@,
                    ranges.len() == 0,
                    classification(oc, nc, os, ns, ranges),
                )
            }
}

/// Compare an old and a new parse of the file at `path`: chunk both with
/// the default options, then classify the new chunks against the old ones
/// given the ranges that the parser reported as changed.
pub fn invalidate_snapshot(
    old_tree: &SyntaxTree,
    new_tree: &SyntaxTree,
    old_source: &[u8],
    new_source: &[u8],
    changed_ranges: &Vec<ByteRange>,
    path: &str,
) -> (out: InvalidationOutput)
    requires
        wf_node(old_tree.root, old_source@.len(), 0),
        wf_node(new_tree.root, new_source@.len(), 0),
        1000 * (new_source@.len() + 1) <= usize::MAX,
    ensures
        is_tree_invalidation(out, *old_tree, *new_tree, old_source@, new_source@, changed_ranges@, path@),

{
    let options = ChunkOptions::default();
    let old_result = chunks_for_tree(old_tree, path, old_source, &options);
    let new_result = chunks_for_tree(new_tree, path, new_source, &options);
    proof {
        lemma_total_tokens_bound(new_result.chunks@, (new_source@.len() + 1) as nat);
        assert(new_result.chunks@.len() * (new_source@.len() + 1) <= 1000 * (new_source@.len() + 1))
            by (nonlinear_arith)
            requires
                new_result.chunks@.len() <= 1000,
        ;
    }
    let out = invalidate_chunks(
        &old_result.chunks,
        &new_result.chunks,
        old_source,
        new_source,
        changed_ranges,
        path,
    );
    proof {
        let oc = old_result.chunks@;
        let nc = new_result.chunks@;
        assert(chunks_match(oc, chunk_entries(old_tree.root, 1000), path@, old_source@, tree_confidence(old_tree.has_error)));
        assert(chunks_match(nc, chunk_entries(new_tree.root, 1000), path@, new_source@, tree_confidence(new_tree.has_error)));
    }
    out
}


/// `r` is `output` finished for an incremental re-parse: affected and
/// added chunks at `Medium` confidence, everything else kept, and one
/// more note, at info level, saying why.
pub open spec fn is_edit_downgrade(r: InvalidationOutput, output: InvalidationOutput) -> bool {
    &&& medium_all(r.affected@, output.affected@)
    &&& medium_all(r.added@, output.added@)
    &&& r.removed@ == output.removed@
    &&& r.unchanged@ == output.unchanged@
    &&& r.records@ == output.records@
    &&& r.changed_ranges@ == output.changed_ranges@
    &&& r.meta == output.meta
    &&& r.diagnostics@.len() == output.diagnostics@.len() + 1
    &&& r.diagnostics@.take(output.diagnostics@.len() as int) == output.diagnostics@
    &&& r.diagnostics@.last().level == DiagnosticLevel::Info
    &&& r.diagnostics@.last().message@
            == "edit-stream invalidation: confidence downgraded to Medium because incremental parse may miss some changes"@
    &&& r.diagnostics@.last().context is None
}

/// Finish an invalidation computed from an incremental re-parse: the
/// affected and added chunks get `Medium` confidence, since an
/// incremental parse may miss some changes, and a note says so.
pub fn downgrade_for_edits(output: InvalidationOutput) -> (r: InvalidationOutput)
    ensures
        is_edit_downgrade(r, output),
{
    let mut out = output;
    set_medium(&mut out.affected);
    set_medium(&mut out.added);
    let ghost before = out.diagnostics@;
    out.diagnostics.push(
        Diagnostic::info(
            "edit-stream invalidation: confidence downgraded to Medium because incremental parse may miss some changes",
        ),
    );
    assert(out.diagnostics@.take(before.len() as int) =~= before);
    out
}

proof fn lemma_sliceable_member(s: Seq<ChunkRecord>, len: nat, c: ChunkRecord)
    requires
        ranges_sliceable(s, len),
        s.contains(c),
    ensures
        c.byte_range.start <= c.byte_range.end,
        c.byte_range.start <= len,
{
    let i = choose|i: int| 0 <= i < s.len() && s[i] == c;
    assert(s[i].byte_range.start <= s[i].byte_range.end);
}

proof fn lemma_token_sum_prefix(s: Seq<ChunkRecord>, k: int)
    requires
        0 <= k <= s.len(),
    ensures
        total_tokens(s.take(k)) <= total_tokens(s),
    decreases s.len(),
{
    if k < s.len() {
        assert(s.drop_last().take(k) =~= s.take(k));
        lemma_token_sum_prefix(s.drop_last(), k);
    } else {
        assert(s.take(k) =~= s);
    }
}

} // verus!

verus! {

/// `out` is the invalidation of the chunks of some tree of `ns` against
/// those of some tree of `os`, both fitting their sources, given some
/// changed ranges.
pub open spec fn is_source_invalidation(out: InvalidationOutput, os: Seq<u8>, ns: Seq<u8>, path: Seq<char>) -> bool {
    exists|ot: SyntaxTree, nt: SyntaxTree, ranges: Seq<ByteRange>|
        wf_node(ot.root, os.len(), 0) && wf_node(nt.root, ns.len(), 0) && #[trigger] is_tree_invalidation(
            out,
            ot,
            nt,
            os,
            ns,
            ranges,
            path,
        )
}

/// Compare an old and a new version of the file at `path`: parse both
/// with `language` (the new one first), take the ranges that the parser
/// reports as changed between the two trees, and invalidate as
/// `invalidate_snapshot` does.
pub fn invalidate_sources(
    language: &tree_sitter::Language,
    old_source: &[u8],
    new_source: &[u8],
    path: &str,
) -> (r: Result<InvalidationOutput, crate::parsing::SourceFailure>)
    requires
        1000 * (new_source@.len() + 1) <= usize::MAX,
    ensures
        r matches Ok(out) ==> is_source_invalidation(out, old_source@, new_source@, path@),
{
    match crate::parsing::parse_pair(language, old_source, new_source, false) {
        Err(e) => Err(e),
        Ok((old_tree, ot, new_tree, nt)) => {
            let ranges = crate::parsing::changed_ranges(&old_tree, &new_tree);
            let out = invalidate_snapshot(&ot, &nt, old_source, new_source, &ranges, path);
            assert(is_tree_invalidation(out, ot, nt, old_source@, new_source@, ranges@, path@));
            Ok(out)
        },
    }
}

/// Invalidate after a stream of edits: apply `edits` to a copy of
/// `old_tree`, the parse of `old_source`, re-parse `new_source` reusing
/// it, invalidate the chunks of `old_tree` against those of the new tree
/// over the ranges that the parser reports changed between the two, and
/// downgrade the result as `downgrade_for_edits` does. A re-parse that
/// gives no tree, or one that does not fit `new_source`, fails with
/// `NewUnparsed`; an `old_tree` that does not fit `old_source` with
/// `OldUnparsed`.
pub fn invalidate_edits(
    parser: &mut tree_sitter::Parser,
    old_tree: &tree_sitter::Tree,
    old_source: &[u8],
    new_source: &[u8],
    edits: &[tree_sitter::InputEdit],
    path: &str,
) -> (r: Result<InvalidationOutput, crate::parsing::SourceFailure>)
    requires
        1000 * (new_source@.len() + 1) <= usize::MAX,
    ensures
        r matches Ok(out) ==> exists|inner: InvalidationOutput|
            is_source_invalidation(inner, old_source@, new_source@, path@) && #[trigger] is_edit_downgrade(out, inner),
{
    let mut edited = crate::parsing::tree_clone(old_tree);
    let mut i: usize = 0;
    while i < edits.len()
        invariant
            i <= edits@.len(),
        decreases edits@.len() - i,
    {
        crate::parsing::tree_edit(&mut edited, &edits[i]);
        i = i + 1;
    }
    let new_tree = match crate::parsing::parser_parse(parser, new_source, Some(&edited)) {
        None => return Err(crate::parsing::SourceFailure::NewUnparsed),
        Some(t) => t,
    };
    let nt = match crate::parsing::read_tree(&new_tree, new_source) {
        None => return Err(crate::parsing::SourceFailure::NewUnparsed),
        Some(t) => t,
    };
    let ot = match crate::parsing::read_tree(old_tree, old_source) {
        None => return Err(crate::parsing::SourceFailure::OldUnparsed),
        Some(t) => t,
    };
    let ranges = crate::parsing::changed_ranges(old_tree, &new_tree);
    let inner = invalidate_snapshot(&ot, &nt, old_source, new_source, &ranges, path);
    assert(is_tree_invalidation(inner, ot, nt, old_source@, new_source@, ranges@, path@));
    let out = downgrade_for_edits(inner);
    assert(is_edit_downgrade(out, inner));
    Ok(out)
}

} // verus!
