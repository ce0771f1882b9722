//! Canonical S-expression form of invalidation outputs: the records
//! grouped by status, each group sorted by stable identifier.

use vstd::prelude::*;

use crate::graph::diff::gather;
use crate::schema::{
    ByteRange, Confidence, InvalidationOutput, InvalidationReason, InvalidationRecord, InvalidationStatus,
    MatchStrategy,
};
use crate::sexpr::{
    close, ind, name_line, nl, nline, open_form, push_close, push_indent, push_name_line, push_nl, push_nline,
    push_open_form, push_qline, push_range_line, qline, range_line,
};
use crate::sort::{
    lemma_sort_members, lemma_sort_permutes, lemma_sort_sorted, sort_by_key, sort_stable, sorted_by, total_preorder, KeyOrder,
};
use crate::text::{copy_string, decimal, lemma_bytes_not_after, lit, push_decimal, push_str, str_less, str_lt, utf8};

verus! {

/// The lowercase name of a confidence level.
pub open spec fn level_name(c: Confidence) -> Seq<char> {
    match c {
        Confidence::Exact => "exact"@,
        Confidence::High => "high"@,
        Confidence::Medium => "medium"@,
        Confidence::Low => "low"@,
    }
}

fn level_str(c: Confidence) -> (s: &'static str)
    ensures
        s@ == level_name(c),
{
    match c {
        Confidence::Exact => "exact",
        Confidence::High => "high",
        Confidence::Medium => "medium",
        Confidence::Low => "low",
    }
}

/// The snake-case name of an invalidation reason.
pub open spec fn reason_name(r: InvalidationReason) -> Seq<char> {
    match r {
        InvalidationReason::ChangedRangeOverlap => "changed_range_overlap"@,
        InvalidationReason::ContentChanged => "content_changed"@,
        InvalidationReason::AddedChunk => "added_chunk"@,
        InvalidationReason::RemovedChunk => "removed_chunk"@,
        InvalidationReason::NoChangeDetected => "no_change_detected"@,
        InvalidationReason::DegradedMatching => "degraded_matching"@,
    }
}

fn reason_str(r: InvalidationReason) -> (s: &'static str)
    ensures
        s@ == reason_name(r),
{
    match r {
        InvalidationReason::ChangedRangeOverlap => "changed_range_overlap",
        InvalidationReason::ContentChanged => "content_changed",
        InvalidationReason::AddedChunk => "added_chunk",
        InvalidationReason::RemovedChunk => "removed_chunk",
        InvalidationReason::NoChangeDetected => "no_change_detected",
        InvalidationReason::DegradedMatching => "degraded_matching",
    }
}

/// The snake-case name of a match strategy.
pub open spec fn strategy_name(m: MatchStrategy) -> Seq<char> {
    match m {
        MatchStrategy::StableId => "stable_id"@,
        MatchStrategy::ContentComparison => "content_comparison"@,
        MatchStrategy::TextualRangeOverlap => "textual_range_overlap"@,
        MatchStrategy::EditRangeOverlap => "edit_range_overlap"@,
        MatchStrategy::Unmatched => "unmatched"@,
    }
}

fn strategy_str(m: MatchStrategy) -> (s: &'static str)
    ensures
        s@ == strategy_name(m),
{
    match m {
        MatchStrategy::StableId => "stable_id",
        MatchStrategy::ContentComparison => "content_comparison",
        MatchStrategy::TextualRangeOverlap => "textual_range_overlap",
        MatchStrategy::EditRangeOverlap => "edit_range_overlap",
        MatchStrategy::Unmatched => "unmatched",
    }
}

/// A changed range on its own line after a newline.
#[verifier::opaque]
pub open spec fn range_item(r: ByteRange, d: nat) -> Seq<u8> {
    nl() + ind(d) + lit("((start ") + decimal(r.start as nat) + lit(") (end ") + decimal(r.end as nat) + lit("))")
}

/// Changed ranges, each on its own line.
pub open spec fn range_items(s: Seq<ByteRange>, d: nat) -> Seq<u8>
    decreases s.len(),
{
    if s.len() == 0 {
        seq![]
    } else {
        range_items(s.drop_last(), d) + range_item(s.last(), d)
    }
}

/// The changed ranges of a record, when it has any.
#[verifier::opaque]
pub open spec fn record_ranges(s: Seq<ByteRange>, d: nat) -> Seq<u8> {
    if s.len() == 0 {
        seq![]
    } else {
        ind(d) + lit("(changed_ranges") + range_items(s, d + 1) + nl() + ind(d) + lit(")") + nl()
    }
}

/// One invalidation record.
#[verifier::opaque]
pub open spec fn record_sexpr(r: InvalidationRecord, d: nat) -> Seq<u8> {
    open_form(d, "(") + qline(d + 1, "(stable_id ", r.chunk.stable_id.0@) + qline(d + 1, "(kind ", r.chunk.kind@)
        + name_line(d + 1, r.chunk.name) + qline(d + 1, "(path ", r.chunk.id.path@) + range_line(
        d + 1,
        "(byte_range ",
        r.chunk.byte_range.start as nat,
        r.chunk.byte_range.end as nat,
    ) + nline(d + 1, "(estimated_tokens ", r.chunk.estimated_tokens as nat) + qline(
        d + 1,
        "(confidence ",
        level_name(r.chunk.confidence),
    ) + qline(d + 1, "(reason ", reason_name(r.reason)) + qline(
        d + 1,
        "(match_strategy ",
        strategy_name(r.match_strategy),
    ) + record_ranges(r.changed_ranges@, d + 1) + close(d)
}

/// The (stable identifier, position) keys of the records with status `st`.
pub open spec fn status_keys(recs: Seq<InvalidationRecord>, st: InvalidationStatus) -> Seq<(String, usize)> {
    gather(
        recs.len() as int,
        |i: int|
            if recs[i].status == st {
                seq![(recs[i].chunk.stable_id.0, i as usize)]
            } else {
                seq![]
            },
    )
}

/// Order keys by stable identifier.
pub struct KeysByStableId;

impl KeyOrder<(String, usize)> for KeysByStableId {
    open spec fn before(a: (String, usize), b: (String, usize)) -> bool {
        !str_lt(b.0@, a.0@)
    }

    fn before_exec(a: &(String, usize), b: &(String, usize)) -> (r: bool) {
        !str_less(b.0.as_str(), a.0.as_str())
    }
}

/// The records with status `st`, as positions, stably sorted by stable
/// identifier.
pub open spec fn bucket_order(recs: Seq<InvalidationRecord>, st: InvalidationStatus) -> Seq<(String, usize)> {
    sort_by_key::<(String, usize), KeysByStableId>(status_keys(recs, st))
}

/// Ordering keys by stable identifier is a total preorder.
pub proof fn lemma_keys_by_stable_id_total()
    ensures
        total_preorder::<(String, usize), KeysByStableId>(),
{
    assert forall|a: (String, usize), b: (String, usize)|
        #[trigger] KeysByStableId::before(a, b) || KeysByStableId::before(b, a) by {
        lemma_bytes_not_after(utf8(a.0@), utf8(b.0@), utf8(b.0@));
    }
    assert forall|a: (String, usize), b: (String, usize), c: (String, usize)|
        #[trigger] KeysByStableId::before(a, b) && #[trigger] KeysByStableId::before(b, c) implies KeysByStableId::before(
        a,
        c,
    ) by {
        lemma_bytes_not_after(utf8(a.0@), utf8(b.0@), utf8(c.0@));
    }
}

/// Within each status group the records come in stable-identifier order:
/// no record's identifier sorts after that of a record printed later.
pub proof fn lemma_buckets_sorted(recs: Seq<InvalidationRecord>, st: InvalidationStatus)
    ensures
        forall|i: int, j: int|
            0 <= i < j < bucket_order(recs, st).len() ==> !str_lt(
                (#[trigger] bucket_order(recs, st)[j]).0@,
                (#[trigger] bucket_order(recs, st)[i]).0@,
            ),
{
    lemma_keys_by_stable_id_total();
    lemma_sort_sorted::<(String, usize), KeysByStableId>(status_keys(recs, st));
    let b = bucket_order(recs, st);
    assert forall|i: int, j: int| 0 <= i < j < b.len() implies !str_lt((#[trigger] b[j]).0@, (#[trigger] b[i]).0@) by {
        assert(KeysByStableId::before(b[i], b[j]));
    }
}

/// The records at the given positions, each on its own line.
pub open spec fn bucket_items(recs: Seq<InvalidationRecord>, keys: Seq<(String, usize)>, d: nat) -> Seq<u8>
    decreases keys.len(),
{
    if keys.len() == 0 {
        seq![]
    } else {
        bucket_items(recs, keys.drop_last(), d) + nl() + record_sexpr(recs[keys.last().1 as int], d)
    }
}

/// A status group: the records with that status, sorted.
#[verifier::opaque]
pub open spec fn bucket(recs: Seq<InvalidationRecord>, st: InvalidationStatus, head: &str, d: nat) -> Seq<u8> {
    let keys = bucket_order(recs, st);
    if keys.len() == 0 {
        ind(d) + lit(head) + lit(")")
    } else {
        ind(d) + lit(head) + bucket_items(recs, keys, d + 1) + nl() + ind(d) + lit(")")
    }
}

/// The meta form.
#[verifier::opaque]
pub open spec fn meta_form(o: InvalidationOutput, d: nat) -> Seq<u8> {
    open_form(d, "(meta") + qline(d + 1, "(schema_version ", o.meta.schema_version@) + match o.meta.source_path {
        Some(p) => qline(d + 1, "(source_path ", p@),
        None => seq![],
    } + nline(d + 1, "(total_chunks ", o.meta.total_chunks as nat) + nline(
        d + 1,
        "(total_estimated_tokens ",
        o.meta.total_estimated_tokens as nat,
    ) + close(d)
}

/// The changed ranges of the output.
#[verifier::opaque]
pub open spec fn ranges_form(s: Seq<ByteRange>, d: nat) -> Seq<u8> {
    if s.len() == 0 {
        ind(d) + lit("(changed_ranges)")
    } else {
        ind(d) + lit("(changed_ranges") + range_items(s, d + 1) + nl() + ind(d) + lit(")")
    }
}

/// The canonical form of an invalidation output: the schema version, the
/// affected, added, removed and unchanged groups, the changed ranges and
/// the meta data.
pub open spec fn invalidation_sexpr(o: InvalidationOutput, d: nat) -> Seq<u8> {
    let r = o.records@;
    open_form(d, "(invalidation") + qline(d + 1, "(schema_version ", o.meta.schema_version@) + bucket(
        r,
        InvalidationStatus::Affected,
        "(affected",
        d + 1,
    ) + nl() + bucket(r, InvalidationStatus::Added, "(added", d + 1) + nl() + bucket(
        r,
        InvalidationStatus::Removed,
        "(removed",
        d + 1,
    ) + nl() + bucket(r, InvalidationStatus::Unchanged, "(unchanged", d + 1) + nl() + ranges_form(
        o.changed_ranges@,
        d + 1,
    ) + nl() + meta_form(o, d + 1) + nl() + close(d)
}

fn push_range_items(out: &mut Vec<u8>, s: &Vec<ByteRange>, d: usize)
    ensures
        final(out)@ == old(out)@ + range_items(s@, d as nat),
{
    let mut i: usize = 0;
    while i < s.len()
        invariant
            i <= s@.len(),
            out@ == old(out)@ + range_items(s@.take(i as int), d as nat),
        decreases s@.len() - i,
    {
        let r = s[i];
        let ghost pre = out@;
        push_nl(out);
        push_indent(out, d);
        push_str(out, "((start ");
        push_decimal(out, r.start);
        push_str(out, ") (end ");
        push_decimal(out, r.end);
        push_str(out, "))");
        proof {
            reveal(range_item);
            assert(out@ =~= pre + range_item(r, d as nat));
            assert(s@.take(i + 1).drop_last() =~= s@.take(i as int));
        }
        i = i + 1;
    }
    assert(s@.take(s@.len() as int) =~= s@);
}

fn push_record_ranges(out: &mut Vec<u8>, s: &Vec<ByteRange>, d: usize)
    requires
        d < usize::MAX,
    ensures
        final(out)@ == old(out)@ + record_ranges(s@, d as nat),
{
    reveal(record_ranges);
    if s.len() > 0 {
        push_indent(out, d);
        push_str(out, "(changed_ranges");
        push_range_items(out, s, d + 1);
        push_nl(out);
        push_indent(out, d);
        push_str(out, ")");
        push_nl(out);
    }
    assert(out@ =~= old(out)@ + record_ranges(s@, d as nat));
}

fn push_record(out: &mut Vec<u8>, r: &InvalidationRecord, d: usize)
    requires
        d + 2 < usize::MAX,
    ensures
        final(out)@ == old(out)@ + record_sexpr(*r, d as nat),
{
    reveal(record_sexpr);
    let c = &r.chunk;
    push_open_form(out, d, "(");
    push_qline(out, d + 1, "(stable_id ", c.stable_id.0.as_str());
    push_qline(out, d + 1, "(kind ", c.kind.as_str());
    push_name_line(out, d + 1, &c.name);
    push_qline(out, d + 1, "(path ", c.id.path.as_str());
    push_range_line(out, d + 1, "(byte_range ", c.byte_range.start, c.byte_range.end);
    push_nline(out, d + 1, "(estimated_tokens ", c.estimated_tokens);
    push_qline(out, d + 1, "(confidence ", level_str(c.confidence));
    push_qline(out, d + 1, "(reason ", reason_str(r.reason));
    push_qline(out, d + 1, "(match_strategy ", strategy_str(r.match_strategy));
    push_record_ranges(out, &r.changed_ranges, d + 1);
    push_close(out, d);
    assert(out@ =~= old(out)@ + record_sexpr(*r, d as nat));
}

fn collect_status_keys(recs: &Vec<InvalidationRecord>, st: InvalidationStatus) -> (r: Vec<(String, usize)>)
    ensures
        r@ == status_keys(recs@, st),
{
    let mut r: Vec<(String, usize)> = Vec::new();
    let mut i: usize = 0;
    while i < recs.len()
        invariant
            i <= recs@.len(),
            r@ == gather(
                i as int,
                |m: int|
                    if recs@[m].status == st {
                        seq![(recs@[m].chunk.stable_id.0, m as usize)]
                    } else {
                        seq![]
                    },
            ),
        decreases recs@.len() - i,
    {
        if recs[i].status == st {
            r.push((copy_string(&recs[i].chunk.stable_id.0), i));
        }
        i = i + 1;
    }
    r
}

/// Every key of `bucket_order` names a record with that status.
proof fn lemma_keys_in_range(recs: Seq<InvalidationRecord>, st: InvalidationStatus, n: int)
    requires
        0 <= n <= recs.len(),
        recs.len() <= usize::MAX,
    ensures
        forall|k: int|
            0 <= k < status_keys_upto(recs, st, n).len() ==> (#[trigger] status_keys_upto(recs, st, n)[k]).1 < n,
    decreases n,
{
    if n > 0 {
        lemma_keys_in_range(recs, st, n - 1);
        let prev = status_keys_upto(recs, st, n - 1);
        let cur = status_keys_upto(recs, st, n);
        assert forall|k: int| 0 <= k < cur.len() implies (#[trigger] cur[k]).1 < n by {
            if k < prev.len() {
                assert(cur[k] == prev[k]);
            }
        }
    }
}

/// The keys of the first `n` records with status `st`.
pub open spec fn status_keys_upto(recs: Seq<InvalidationRecord>, st: InvalidationStatus, n: int) -> Seq<(String, usize)> {
    gather(
        n,
        |i: int|
            if recs[i].status == st {
                seq![(recs[i].chunk.stable_id.0, i as usize)]
            } else {
                seq![]
            },
    )
}

fn push_bucket(out: &mut Vec<u8>, recs: &Vec<InvalidationRecord>, st: InvalidationStatus, head: &str, d: usize)
    requires
        d + 3 < usize::MAX,
    ensures
        final(out)@ == old(out)@ + bucket(recs@, st, head, d as nat),
{
    reveal(bucket);
    let keys = collect_status_keys(recs, st);
    let ghost unsorted = keys@;
    let n_recs = recs.len();
    let sorted = sort_stable::<(String, usize), KeysByStableId>(keys);
    proof {
        crate::sort::lemma_sort_len::<(String, usize), KeysByStableId>(unsorted);
        assert(recs@.len() == n_recs);
        lemma_keys_in_range(recs@, st, recs@.len() as int);
        assert(status_keys(recs@, st) == status_keys_upto(recs@, st, recs@.len() as int));
        crate::sort::lemma_sort_members::<(String, usize), KeysByStableId>(unsorted);
    }
    push_indent(out, d);
    push_str(out, head);
    if sorted.len() == 0 {
        push_str(out, ")");
    } else {
        let ghost pre = out@;
        let mut i: usize = 0;
        while i < sorted.len()
            invariant
                i <= sorted@.len(),
                d + 3 < usize::MAX,
                forall|k: int| 0 <= k < sorted@.len() ==> (#[trigger] sorted@[k]).1 < recs@.len(),
                out@ == pre + bucket_items(recs@, sorted@.take(i as int), (d + 1) as nat),
            decreases sorted@.len() - i,
        {
            let pos = sorted[i].1;
            push_nl(out);
            push_record(out, &recs[pos], d + 1);
            proof {
                assert(sorted@.take(i + 1).drop_last() =~= sorted@.take(i as int));
            }
            i = i + 1;
        }
        assert(sorted@.take(sorted@.len() as int) =~= sorted@);
        push_nl(out);
        push_indent(out, d);
        push_str(out, ")");
    }
    assert(out@ =~= old(out)@ + bucket(recs@, st, head, d as nat));
}

fn push_meta(out: &mut Vec<u8>, o: &InvalidationOutput, d: usize)
    requires
        d < usize::MAX,
    ensures
        final(out)@ == old(out)@ + meta_form(*o, d as nat),
{
    reveal(meta_form);
    push_open_form(out, d, "(meta");
    push_qline(out, d + 1, "(schema_version ", o.meta.schema_version.as_str());
    if let Some(p) = &o.meta.source_path {
        push_qline(out, d + 1, "(source_path ", p.as_str());
    }
    push_nline(out, d + 1, "(total_chunks ", o.meta.total_chunks);
    push_nline(out, d + 1, "(total_estimated_tokens ", o.meta.total_estimated_tokens);
    push_close(out, d);
    assert(out@ =~= old(out)@ + meta_form(*o, d as nat));
}

fn push_ranges_form(out: &mut Vec<u8>, s: &Vec<ByteRange>, d: usize)
    requires
        d < usize::MAX,
    ensures
        final(out)@ == old(out)@ + ranges_form(s@, d as nat),
{
    reveal(ranges_form);
    push_indent(out, d);
    if s.len() == 0 {
        push_str(out, "(changed_ranges)");
    } else {
        push_str(out, "(changed_ranges");
        push_range_items(out, s, d + 1);
        push_nl(out);
        push_indent(out, d);
        push_str(out, ")");
    }
    assert(out@ =~= old(out)@ + ranges_form(s@, d as nat));
}

/// Serialize an invalidation output to canonical S-expression bytes,
/// ending in a newline.
pub fn invalidation_to_sexpr(output: &InvalidationOutput) -> (r: std::io::Result<Vec<u8>>)
    ensures
        r matches Ok(bytes) && bytes@ == invalidation_sexpr(*output, 0) + nl(),
{
    let mut buf: Vec<u8> = Vec::new();
    let recs = &output.records;
    push_open_form(&mut buf, 0, "(invalidation");
    push_qline(&mut buf, 1, "(schema_version ", output.meta.schema_version.as_str());
    push_bucket(&mut buf, recs, InvalidationStatus::Affected, "(affected", 1);
    push_nl(&mut buf);
    push_bucket(&mut buf, recs, InvalidationStatus::Added, "(added", 1);
    push_nl(&mut buf);
    push_bucket(&mut buf, recs, InvalidationStatus::Removed, "(removed", 1);
    push_nl(&mut buf);
    push_bucket(&mut buf, recs, InvalidationStatus::Unchanged, "(unchanged", 1);
    push_nl(&mut buf);
    push_ranges_form(&mut buf, &output.changed_ranges, 1);
    push_nl(&mut buf);
    push_meta(&mut buf, output, 1);
    push_nl(&mut buf);
    push_close(&mut buf, 0);
    push_nl(&mut buf);
    assert(buf@ =~= invalidation_sexpr(*output, 0) + nl());
    Ok(buf)
}

/// The keys of the first `n` records with status `st` are exactly those
/// records, each once: their positions below `n`, with their identifiers.
proof fn lemma_status_keys_upto(recs: Seq<InvalidationRecord>, st: InvalidationStatus, n: int)
    requires
        0 <= n <= recs.len(),
        recs.len() <= usize::MAX,
    ensures
        forall|k: int|
            0 <= k < status_keys_upto(recs, st, n).len() ==> {
                let key = #[trigger] status_keys_upto(recs, st, n)[k];
                &&& 0 <= key.1 < n
                &&& recs[key.1 as int].status == st
                &&& key.0 == recs[key.1 as int].chunk.stable_id.0
            },
        forall|i: int|
            0 <= i < n && #[trigger] recs[i].status == st ==> status_keys_upto(recs, st, n).contains(
                (recs[i].chunk.stable_id.0, i as usize),
            ),
    decreases n,
{
    if n > 0 {
        lemma_status_keys_upto(recs, st, n - 1);
        let p = status_keys_upto(recs, st, n - 1);
        let q = status_keys_upto(recs, st, n);
        assert forall|k: int| 0 <= k < q.len() implies {
            let key = #[trigger] q[k];
            &&& 0 <= key.1 < n
            &&& recs[key.1 as int].status == st
            &&& key.0 == recs[key.1 as int].chunk.stable_id.0
        } by {
            if k < p.len() {
                assert(q[k] == p[k]);
            }
        }
        assert forall|i: int| 0 <= i < n && #[trigger] recs[i].status == st implies q.contains(
            (recs[i].chunk.stable_id.0, i as usize),
        ) by {
            if i < n - 1 {
                let w = choose|w: int| 0 <= w < p.len() && p[w] == (recs[i].chunk.stable_id.0, i as usize);
                assert(q[w] == p[w]);
            } else {
                assert(q[p.len() as int] == (recs[i].chunk.stable_id.0, i as usize));
            }
        }
    }
}

/// Each status group of the invalidation form lists exactly the records
/// with that status, each once, in stable-identifier order.
pub proof fn lemma_bucket_contents(recs: Seq<InvalidationRecord>, st: InvalidationStatus)
    requires
        recs.len() <= usize::MAX,
    ensures
        bucket_order(recs, st).to_multiset() == status_keys(recs, st).to_multiset(),
        forall|k: int|
            0 <= k < bucket_order(recs, st).len() ==> {
                let key = #[trigger] bucket_order(recs, st)[k];
                &&& 0 <= key.1 < recs.len()
                &&& recs[key.1 as int].status == st
                &&& key.0 == recs[key.1 as int].chunk.stable_id.0
            },
        forall|i: int|
            0 <= i < recs.len() && #[trigger] recs[i].status == st ==> bucket_order(recs, st).contains(
                (recs[i].chunk.stable_id.0, i as usize),
            ),
        forall|i: int, j: int|
            0 <= i < j < bucket_order(recs, st).len() ==> !str_lt(
                (#[trigger] bucket_order(recs, st)[j]).0@,
                (#[trigger] bucket_order(recs, st)[i]).0@,
            ),
{
    broadcast use vstd::seq_lib::to_multiset_contains;

    let keys = status_keys(recs, st);
    assert(keys == status_keys_upto(recs, st, recs.len() as int));
    lemma_status_keys_upto(recs, st, recs.len() as int);
    lemma_sort_permutes::<(String, usize), KeysByStableId>(keys);
    lemma_sort_members::<(String, usize), KeysByStableId>(keys);
    lemma_buckets_sorted(recs, st);
    let b = bucket_order(recs, st);
    assert forall|k: int| 0 <= k < b.len() implies {
        let key = #[trigger] b[k];
        &&& 0 <= key.1 < recs.len()
        &&& recs[key.1 as int].status == st
        &&& key.0 == recs[key.1 as int].chunk.stable_id.0
    } by {
        assert(keys.contains(b[k]));
        let w = choose|w: int| 0 <= w < keys.len() && keys[w] == b[k];
        assert(keys[w] == b[k]);
    }
    assert forall|i: int| 0 <= i < recs.len() && #[trigger] recs[i].status == st implies b.contains(
        (recs[i].chunk.stable_id.0, i as usize),
    ) by {
        let key = (recs[i].chunk.stable_id.0, i as usize);
        assert(keys.contains(key));
        assert(keys.to_multiset().count(key) > 0);
        assert(b.to_multiset().count(key) > 0);
    }
}

/// The invalidation form opens with `(invalidation` on a line of its own
/// and, with its final newline, ends in `)` and a newline.
pub proof fn lemma_invalidation_frame(o: InvalidationOutput)
    ensures
        ({
            let b = invalidation_sexpr(o, 0) + nl();
            let head = lit("(invalidation") + nl();
            let tail = lit(")") + nl();
            &&& b.len() >= head.len() + tail.len()
            &&& b.take(head.len() as int) == head
            &&& b.skip(b.len() - tail.len()) == tail
        }),
{
    let r = o.records@;
    let head = lit("(invalidation") + nl();
    let tail = lit(")") + nl();
    reveal(open_form);
    reveal(close);
    assert(ind(0) =~= Seq::<u8>::empty());
    assert(open_form(0, "(invalidation") =~= head);
    assert(close(0) =~= lit(")"));
    let middle = qline(1, "(schema_version ", o.meta.schema_version@) + bucket(r, InvalidationStatus::Affected, "(affected", 1)
        + nl() + bucket(r, InvalidationStatus::Added, "(added", 1) + nl() + bucket(
        r,
        InvalidationStatus::Removed,
        "(removed",
        1,
    ) + nl() + bucket(r, InvalidationStatus::Unchanged, "(unchanged", 1) + nl() + ranges_form(o.changed_ranges@, 1)
        + nl() + meta_form(o, 1) + nl();
    let b = invalidation_sexpr(o, 0) + nl();
    assert(b =~= head + middle + tail);
    assert(b.take(head.len() as int) =~= head);
    assert(b.skip(b.len() - tail.len()) =~= tail);
}

} // verus!
