//! Semantic compaction: keep full content for changed chunks and only the
//! signature of unchanged named chunks, then fit a token budget.

use vstd::prelude::*;
use vstd::string::{StrSliceExecFns, StringExecFns};

use crate::bundle::{lemma_total_tokens_bound, total_tokens};
use crate::chunk::tree::{
    chunk_diagnostics, chunk_entries, chunks_for_tree, chunks_match, tree_confidence, visit_spec, wf_node,
    SyntaxTree,
};
use crate::chunk::ChunkOptions;
use crate::invalidation::{invalidate_chunks, is_invalidation_of};
use crate::schema::ByteRange;
use crate::symbols::{name_ranges_within, records_at, symbols_from_tags, tags_taken, SymbolOptions, TagInfo};
use crate::invalidation::range_text;
use crate::schema::{
    ChunkRecord, CompactChunkRecord, CompactFileResult, CompactOmittedRecord, CompactOutput, Diagnostic,
    DiagnosticLevel, InvalidationOutput, InvalidationRecord, InvalidationStatus, OutputMeta, SymbolRecord,
};
use crate::text::{
    copy_opt_string, copy_string, decimal, lemma_decimal_valid_utf8, lemma_utf8_valid, lines, lit, push_decimal,
    push_str, slice_range, str_contains_char, str_from_utf8, str_lines, str_trim, str_trim_start, string_from_utf8,
    trim, trim_start, utf8,
};
use crate::identity::StableId;
use crate::dup::dup_vec;

verus! {

/// Error type for compaction failures.
#[derive(Clone, Debug)]
pub enum CompactError {
    BudgetExceeded { required_tokens: usize, budget: usize },
}

/// The message of a budget failure.
pub open spec fn budget_exceeded_message(required: nat, budget: nat) -> Seq<u8> {
    lit("budget_exceeded: required ") + decimal(required) + lit(" tokens but budget is ") + decimal(budget)
}

impl CompactError {
    /// The error's message.
    pub fn message(&self) -> (s: String)
        ensures
            match self {
                CompactError::BudgetExceeded { required_tokens, budget } => utf8(s@) == budget_exceeded_message(
                    *required_tokens as nat,
                    *budget as nat,
                ),
            },
    {
        match self {
            CompactError::BudgetExceeded { required_tokens, budget } => {
                let mut m: Vec<u8> = Vec::new();
                push_str(&mut m, "budget_exceeded: required ");
                push_decimal(&mut m, *required_tokens);
                push_str(&mut m, " tokens but budget is ");
                push_decimal(&mut m, *budget);
                proof {
                    let a = lit("budget_exceeded: required ");
                    let b = decimal(*required_tokens as nat);
                    let c = lit(" tokens but budget is ");
                    let d = decimal(*budget as nat);
                    lemma_utf8_valid("budget_exceeded: required "@);
                    lemma_utf8_valid(" tokens but budget is "@);
                    lemma_decimal_valid_utf8(*required_tokens as nat);
                    lemma_decimal_valid_utf8(*budget as nat);
                    vstd::utf8::valid_utf8_concat(a, b);
                    vstd::utf8::valid_utf8_concat(a + b, c);
                    vstd::utf8::valid_utf8_concat(a + b + c, d);
                }
                string_from_utf8(m)
            },
        }
    }
}

/// Options for semantic compaction.
#[derive(Clone, Debug)]
pub struct CompactOptions {
    pub budget: Option<usize>,
}

// ---------------------------------------------------------------------
// Signatures
// ---------------------------------------------------------------------

/// A definition symbol that lies within the chunk.
pub open spec fn within(s: SymbolRecord, c: ChunkRecord) -> bool {
    s.is_definition && s.byte_range.start >= c.byte_range.start && s.byte_range.end <= c.byte_range.end
}

/// The position of the first symbol within the chunk, or -1.
pub open spec fn first_within(symbols: Seq<SymbolRecord>, c: ChunkRecord) -> int
    decreases symbols.len(),
{
    if symbols.len() == 0 {
        -1
    } else if within(symbols[0], c) {
        0
    } else {
        let k = first_within(symbols.drop_first(), c);
        if k < 0 {
            -1
        } else {
            k + 1
        }
    }
}

/// A line that opens a body: its first non-blank character is `{`.
pub open spec fn opens_body(l: Seq<char>) -> bool {
    trim_start(l).len() > 0 && trim_start(l)[0] == '{'
}

/// The lines before the first line that opens a body.
pub open spec fn lines_before_body(ls: Seq<Seq<char>>) -> Seq<Seq<char>>
    decreases ls.len(),
{
    if ls.len() == 0 || opens_body(ls[0]) {
        seq![]
    } else {
        seq![ls[0]] + lines_before_body(ls.drop_first())
    }
}

/// Lines joined with line feeds.
pub open spec fn join_lines(ls: Seq<Seq<char>>) -> Seq<char>
    decreases ls.len(),
{
    if ls.len() == 0 {
        seq![]
    } else if ls.len() == 1 {
        ls[0]
    } else {
        join_lines(ls.drop_last()) + seq!['\n'] + ls.last()
    }
}

/// The signature of a declaration's text: the lines before its body,
/// trimmed, when it has braces; the whole text trimmed otherwise.
pub open spec fn declaration_signature(text: Seq<char>) -> Seq<char> {
    if text.contains('{') {
        trim(join_lines(lines_before_body(lines(text))))
    } else {
        trim(text)
    }
}

/// The first line of a text, trimmed; empty when there is no line.
pub open spec fn first_line(text: Seq<char>) -> Seq<char> {
    if lines(text).len() > 0 {
        trim(lines(text)[0])
    } else {
        seq![]
    }
}

/// The signature that the first definition symbol within the chunk gives,
/// when its text is UTF-8 and the signature is not empty.
pub open spec fn symbol_signature(c: ChunkRecord, source: Seq<u8>, symbols: Seq<SymbolRecord>) -> Option<Seq<char>> {
    let i = first_within(symbols, c);
    if i >= 0 {
        let b = range_text(source, symbols[i].byte_range);
        if vstd::utf8::valid_utf8(b) && declaration_signature(vstd::utf8::decode_utf8(b)).len() > 0 {
            Some(declaration_signature(vstd::utf8::decode_utf8(b)))
        } else {
            None
        }
    } else {
        None
    }
}

/// A range starts no later than its end clamped to a source of `len`
/// bytes, so that the clamped slice exists.
pub open spec fn starts_in(r: ByteRange, len: nat) -> bool {
    r.start <= if r.end <= len {
        r.end as nat
    } else {
        len
    }
}

/// The slices that signature extraction reads exist: that of the first
/// definition symbol within the chunk, and that of the chunk when the
/// symbol gives no signature.
pub open spec fn signature_readable(c: ChunkRecord, source: Seq<u8>, symbols: Seq<SymbolRecord>) -> bool {
    &&& first_within(symbols, c) >= 0 ==> starts_in(symbols[first_within(symbols, c)].byte_range, source.len())
    &&& symbol_signature(c, source, symbols) is None ==> starts_in(c.byte_range, source.len())
}

/// The signature kept for an unchanged named chunk: from the first
/// definition symbol within it when that gives a non-empty signature,
/// else the chunk's first line when that is not empty; none when the
/// text is not UTF-8 or nothing is left.
pub open spec fn signature_for(c: ChunkRecord, source: Seq<u8>, symbols: Seq<SymbolRecord>) -> Option<Seq<char>> {
    match symbol_signature(c, source, symbols) {
        Some(s) => Some(s),
        None => {
            let b = range_text(source, c.byte_range);
            if vstd::utf8::valid_utf8(b) && first_line(vstd::utf8::decode_utf8(b)).len() > 0 {
                Some(first_line(vstd::utf8::decode_utf8(b)))
            } else {
                None
            }
        },
    }
}

proof fn lemma_first_within(symbols: Seq<SymbolRecord>, c: ChunkRecord)
    ensures
        -1 <= first_within(symbols, c) < symbols.len(),
        first_within(symbols, c) >= 0 ==> within(symbols[first_within(symbols, c)], c),
    decreases symbols.len(),
{
    if symbols.len() > 0 && !within(symbols[0], c) {
        lemma_first_within(symbols.drop_first(), c);
    }
}

fn find_within(symbols: &Vec<SymbolRecord>, c: &ChunkRecord) -> (r: Option<usize>)
    ensures
        match r {
            None => first_within(symbols@, *c) < 0,
            Some(i) => i < symbols@.len() && first_within(symbols@, *c) == i,
        },
{
    let mut i: usize = 0;
    assert(symbols@.skip(0) =~= symbols@);
    while i < symbols.len()
        invariant
            i <= symbols@.len(),
            first_within(symbols@, *c) == if first_within(symbols@.skip(i as int), *c) < 0 {
                -1
            } else {
                first_within(symbols@.skip(i as int), *c) + i
            },
        decreases symbols@.len() - i,
    {
        let s = &symbols[i];
        assert(symbols@.skip(i as int)[0] == *s);
        assert(symbols@.skip(i as int).drop_first() =~= symbols@.skip(i + 1));
        if s.is_definition && s.byte_range.start >= c.byte_range.start && s.byte_range.end <= c.byte_range.end {
            return Some(i);
        }
        i = i + 1;
    }
    None
}

fn text_of(source: &[u8], start: usize, end: usize) -> (r: Option<String>)
    requires
        start <= end,
        start <= source@.len(),
    ensures
        ({
            let b = range_text(source@, crate::schema::ByteRange { start, end });
            &&& r is Some <==> vstd::utf8::valid_utf8(b)
            &&& r matches Some(s) ==> s@ == vstd::utf8::decode_utf8(b)
        }),
{
    let stop = if end <= source.len() {
        end
    } else {
        source.len()
    };
    let bytes = slice_range(source, start, stop);
    let r = str_from_utf8(bytes.as_slice());
    proof {
        if r is Some {
            vstd::utf8::encode_utf8_decode_utf8(r.unwrap()@);
        }
    }
    r
}

fn join_exec(ls: &Vec<String>, n: usize) -> (r: String)
    requires
        n <= ls@.len(),
    ensures
        r@ == join_lines(ls@.take(n as int).map_values(|l: String| l@)),
{
    let mut r = String::new();
    let mut k: usize = 0;
    while k < n
        invariant
            k <= n <= ls@.len(),
            r@ == join_lines(ls@.take(k as int).map_values(|l: String| l@)),
        decreases n - k,
    {
        let ghost before = ls@.take(k as int).map_values(|l: String| l@);
        let ghost after = ls@.take(k + 1).map_values(|l: String| l@);
        assert(after.drop_last() =~= before);
        assert(after.last() == ls@[k as int]@);
        if k > 0 {
            proof {
                reveal_strlit("\n");
            }
            r = r.concat("\n");
            r = r.concat(ls[k].as_str());
        } else {
            r = r.concat(ls[k].as_str());
            assert(after.len() == 1);
        }
        k = k + 1;
    }
    r
}

/// How many lines come before the first line that opens a body.
fn count_before_body(ls: &Vec<String>) -> (k: usize)
    ensures
        k <= ls@.len(),
        lines_before_body(ls@.map_values(|l: String| l@)) == ls@.map_values(|l: String| l@).take(k as int),
{
    let ghost lv = ls@.map_values(|l: String| l@);
    let mut k: usize = 0;
    assert(lv.skip(0) =~= lv);
    assert(lv.take(0) + lines_before_body(lv.skip(0)) =~= lines_before_body(lv));
    while k < ls.len()
        invariant
            k <= ls@.len(),
            lv == ls@.map_values(|l: String| l@),
            lines_before_body(lv) == lv.take(k as int) + lines_before_body(lv.skip(k as int)),
        decreases ls@.len() - k,
    {
        let t = str_trim_start(ls[k].as_str());
        assert(lv.skip(k as int)[0] == lv[k as int]);
        if t.unicode_len() > 0 && t.as_str().get_char(0) == '{' {
            assert(opens_body(lv[k as int]));
            assert(lines_before_body(lv.skip(k as int)) =~= Seq::<Seq<char>>::empty());
            assert(lines_before_body(lv) =~= lv.take(k as int));
            return k;
        }
        assert(lv.skip(k as int).drop_first() =~= lv.skip(k + 1));
        assert(lv.take(k + 1) =~= lv.take(k as int) + seq![lv[k as int]]);
        k = k + 1;
    }
    assert(lv.skip(k as int) =~= Seq::<Seq<char>>::empty());
    assert(lines_before_body(lv) =~= lv.take(k as int));
    k
}

fn declaration_signature_exec(text: &String) -> (r: String)
    ensures
        r@ == declaration_signature(text@),
{
    if str_contains_char(text.as_str(), '{') {
        let ls = str_lines(text.as_str());
        let ghost lv = lines(text@);
        assert(ls@.map_values(|l: String| l@) =~= lv);
        let k = count_before_body(&ls);
        proof {
            assert(ls@.take(k as int).map_values(|l: String| l@) =~= lv.take(k as int));
        }
        let joined = join_exec(&ls, k);
        str_trim(joined.as_str())
    } else {
        str_trim(text.as_str())
    }
}

fn first_line_exec(text: &String) -> (r: String)
    ensures
        r@ == first_line(text@),
{
    let ls = str_lines(text.as_str());
    if ls.len() > 0 {
        str_trim(ls[0].as_str())
    } else {
        String::new()
    }
}

/// Every symbol range starts no later than it ends.
pub open spec fn symbol_ranges_ordered(symbols: Seq<SymbolRecord>) -> bool {
    forall|i: int| 0 <= i < symbols.len() ==> (#[trigger] symbols[i]).byte_range.start <= symbols[i].byte_range.end
}

/// Extract the signature kept for an unchanged named chunk.
pub fn extract_signature(chunk: &ChunkRecord, source: &[u8], symbols: &Vec<SymbolRecord>) -> (r: Option<String>)
    requires
        signature_readable(*chunk, source@, symbols@),
    ensures
        match r {
            Some(s) => signature_for(*chunk, source@, symbols@) == Some(s@),
            None => signature_for(*chunk, source@, symbols@) is None,
        },
{
    if let Some(i) = find_within(symbols, chunk) {
        let s = &symbols[i];
        proof {
            lemma_first_within(symbols@, *chunk);
        }
        let stop = if s.byte_range.end <= source.len() {
            s.byte_range.end
        } else {
            source.len()
        };
        assert(range_text(source@, ByteRange { start: s.byte_range.start, end: stop }) == range_text(
            source@,
            s.byte_range,
        ));
        if let Some(text) = text_of(source, s.byte_range.start, stop) {
            let sig = declaration_signature_exec(&text);
            if sig.unicode_len() > 0 {
                return Some(sig);
            }
        }
    }
    let stop = if chunk.byte_range.end <= source.len() {
        chunk.byte_range.end
    } else {
        source.len()
    };
    assert(range_text(source@, ByteRange { start: chunk.byte_range.start, end: stop }) == range_text(
        source@,
        chunk.byte_range,
    ));
    if let Some(text) = text_of(source, chunk.byte_range.start, stop) {
        let first = first_line_exec(&text);
        if first.unicode_len() > 0 {
            return Some(first);
        }
    }
    None
}

// ---------------------------------------------------------------------
// One file
// ---------------------------------------------------------------------

/// The status of the first record for the chunk's stable identifier;
/// unchanged when there is none.
pub open spec fn status_of(records: Seq<InvalidationRecord>, c: ChunkRecord) -> InvalidationStatus
    decreases records.len(),
{
    if records.len() == 0 {
        InvalidationStatus::Unchanged
    } else if records[0].chunk.stable_id.0@ == c.stable_id.0@ {
        records[0].status
    } else {
        status_of(records.drop_first(), c)
    }
}

/// What compaction keeps of one file's chunks so far: the preserved
/// chunks and the (chunk, signature) pairs.
pub struct FileCompaction {
    pub preserved: Seq<ChunkRecord>,
    pub signatures: Seq<(ChunkRecord, Seq<char>)>,
}

/// Changed chunks are preserved; an unchanged named chunk keeps only its
/// signature when one can be extracted; other chunks are preserved.
pub open spec fn compact_step(
    st: FileCompaction,
    c: ChunkRecord,
    records: Seq<InvalidationRecord>,
    source: Seq<u8>,
    symbols: Seq<SymbolRecord>,
) -> FileCompaction {
    if status_of(records, c) == InvalidationStatus::Unchanged && c.name is Some && signature_for(c, source, symbols) is Some {
        FileCompaction { signatures: st.signatures.push((c, signature_for(c, source, symbols).unwrap())), ..st }
    } else {
        FileCompaction { preserved: st.preserved.push(c), ..st }
    }
}

/// Compaction of the chunks in order.
pub open spec fn compact_chunks(
    chunks: Seq<ChunkRecord>,
    records: Seq<InvalidationRecord>,
    source: Seq<u8>,
    symbols: Seq<SymbolRecord>,
) -> FileCompaction
    decreases chunks.len(),
{
    if chunks.len() == 0 {
        FileCompaction { preserved: seq![], signatures: seq![] }
    } else {
        compact_step(compact_chunks(chunks.drop_last(), records, source, symbols), chunks.last(), records, source, symbols)
    }
}

/// Record `k` is the first of `records` for the stable identifier of `c`.
pub open spec fn first_record_for(records: Seq<InvalidationRecord>, c: ChunkRecord, k: int) -> bool {
    &&& 0 <= k < records.len()
    &&& records[k].chunk.stable_id.0@ == c.stable_id.0@
    &&& forall|m: int| 0 <= m < k ==> (#[trigger] records[m]).chunk.stable_id.0@ != c.stable_id.0@
}

/// The status of a chunk is that of its first record.
proof fn lemma_status_of_first(records: Seq<InvalidationRecord>, c: ChunkRecord, k: int)
    requires
        first_record_for(records, c, k),
    ensures
        status_of(records, c) == records[k].status,
    decreases records.len(),
{
    if k > 0 {
        assert(records[0].chunk.stable_id.0@ != c.stable_id.0@);
        let rest = records.drop_first();
        assert forall|m: int| 0 <= m < k - 1 implies (#[trigger] rest[m]).chunk.stable_id.0@ != c.stable_id.0@ by {
            assert(rest[m] == records[m + 1]);
        }
        assert(rest[k - 1] == records[k]);
        lemma_status_of_first(rest, c, k - 1);
    }
}

/// Compaction keeps every changed chunk whole: a chunk whose first
/// invalidation record says it was added, affected or removed is among
/// the preserved chunks. Only a named chunk whose first record says it is
/// unchanged, or that has no record, is reduced to its signature.
pub proof fn lemma_changed_chunks_kept_whole(
    chunks: Seq<ChunkRecord>,
    records: Seq<InvalidationRecord>,
    source: Seq<u8>,
    symbols: Seq<SymbolRecord>,
)
    ensures
        forall|i: int, k: int|
            0 <= i < chunks.len() && #[trigger] first_record_for(records, chunks[i], k) && records[k].status
                != InvalidationStatus::Unchanged ==> compact_chunks(chunks, records, source, symbols).preserved.contains(
                chunks[i],
            ),
        forall|j: int, k: int|
            0 <= j < compact_chunks(chunks, records, source, symbols).signatures.len() && #[trigger] first_record_for(
                records,
                compact_chunks(chunks, records, source, symbols).signatures[j].0,
                k,
            ) ==> records[k].status == InvalidationStatus::Unchanged,
        forall|j: int|
            0 <= j < compact_chunks(chunks, records, source, symbols).signatures.len()
                ==> (#[trigger] compact_chunks(chunks, records, source, symbols).signatures[j]).0.name is Some,
    decreases chunks.len(),
{
    if chunks.len() > 0 {
        let init = chunks.drop_last();
        let c = chunks.last();
        lemma_changed_chunks_kept_whole(init, records, source, symbols);
        let prev = compact_chunks(init, records, source, symbols);
        let cur = compact_chunks(chunks, records, source, symbols);
        assert(cur == compact_step(prev, c, records, source, symbols));
        let sig = status_of(records, c) == InvalidationStatus::Unchanged && c.name is Some && signature_for(
            c,
            source,
            symbols,
        ) is Some;
        if sig {
            assert(cur.preserved == prev.preserved);
            assert(cur.signatures == prev.signatures.push((c, signature_for(c, source, symbols).unwrap())));
        } else {
            assert(cur.preserved == prev.preserved.push(c));
            assert(cur.signatures == prev.signatures);
        }
        assert forall|i: int, k: int|
            0 <= i < chunks.len() && #[trigger] first_record_for(records, chunks[i], k) && records[k].status
                != InvalidationStatus::Unchanged implies cur.preserved.contains(chunks[i]) by {
            if i < chunks.len() - 1 {
                assert(chunks[i] == init[i]);
                assert(first_record_for(records, init[i], k));
                let m = choose|m: int| 0 <= m < prev.preserved.len() && prev.preserved[m] == chunks[i];
                if !sig {
                    assert(cur.preserved[m] == prev.preserved[m]);
                }
            } else {
                lemma_status_of_first(records, c, k);
                assert(cur.preserved[cur.preserved.len() - 1] == c);
            }
        }
        assert forall|j: int, k: int|
            0 <= j < cur.signatures.len() && #[trigger] first_record_for(records, cur.signatures[j].0, k) implies records[k].status
            == InvalidationStatus::Unchanged by {
            if j < prev.signatures.len() {
                assert(cur.signatures[j] == prev.signatures[j]);
            } else {
                lemma_status_of_first(records, c, k);
            }
        }
        assert forall|j: int| 0 <= j < cur.signatures.len() implies (#[trigger] cur.signatures[j]).0.name is Some by {
            if j < prev.signatures.len() {
                assert(cur.signatures[j] == prev.signatures[j]);
            }
        }
    }
}

/// The chunks of signature pairs.
pub open spec fn pair_chunks(s: Seq<(ChunkRecord, Seq<char>)>) -> Seq<ChunkRecord> {
    s.map_values(|p: (ChunkRecord, Seq<char>)| p.0)
}

/// Whether the signature records hold the given pairs, in order.
pub open spec fn signatures_are(r: Seq<CompactChunkRecord>, s: Seq<(ChunkRecord, Seq<char>)>) -> bool {
    &&& r.len() == s.len()
    &&& forall|i: int|
        0 <= i < s.len() ==> (#[trigger] r[i] matches CompactChunkRecord::SignatureOnly { chunk, signature }
            && chunk == s[i].0 && signature@ == s[i].1)
}

fn status_for(records: &Vec<InvalidationRecord>, c: &ChunkRecord) -> (st: InvalidationStatus)
    ensures
        st == status_of(records@, *c),
{
    let mut i: usize = 0;
    assert(records@.skip(0) =~= records@);
    while i < records.len()
        invariant
            i <= records@.len(),
            status_of(records@, *c) == status_of(records@.skip(i as int), *c),
        decreases records@.len() - i,
    {
        assert(records@.skip(i as int)[0] == records@[i as int]);
        assert(records@.skip(i as int).drop_first() =~= records@.skip(i + 1));
        if records[i].chunk.stable_id.0 == c.stable_id.0 {
            return records[i].status;
        }
        i = i + 1;
    }
    InvalidationStatus::Unchanged
}

/// `syms` are the symbols of the tags found in `source`: none without a
/// tags configuration or when the tags query failed, else those of the
/// well-formed tags up to the default symbol limit.
pub open spec fn symbols_of_tags(
    syms: Seq<SymbolRecord>,
    tags: Option<Result<Vec<Result<TagInfo, String>>, String>>,
    source: Seq<u8>,
    path: Seq<char>,
) -> bool {
    match tags {
        Some(Ok(ts)) => {
            let kept = tags_taken(ts@, 1000).1;
            &&& syms.len() == kept.len()
            &&& forall|k: int| 0 <= k < kept.len() ==> 0 <= #[trigger] kept[k] < ts@.len()
            &&& forall|k: int| 0 <= k < syms.len() ==> records_at(ts@, kept, #[trigger] syms[k], k, source, path)
        },
        _ => syms.len() == 0,
    }
}

/// The diagnostics have the given levels and messages, each with the
/// context `new_snapshot_chunking`.
pub open spec fn chunking_diagnostics_are(ds: Seq<Diagnostic>, expected: Seq<(DiagnosticLevel, Seq<u8>)>) -> bool {
    &&& ds.len() == expected.len()
    &&& forall|i: int|
        0 <= i < ds.len() ==> {
            &&& (#[trigger] ds[i]).level == expected[i].0
            &&& utf8(ds[i].message@) == expected[i].1
            &&& ds[i].context matches Some(c) && c@ == "new_snapshot_chunking"@
        }
}

/// `r` is the compaction of the file at `path` with new chunks `chunks`:
/// changed chunks kept whole, unchanged named ones reduced to their
/// signature, and the token counts before and after.
pub open spec fn is_file_compaction(
    r: CompactFileResult,
    path: Seq<char>,
    chunks: Seq<ChunkRecord>,
    records: Seq<InvalidationRecord>,
    source: Seq<u8>,
    symbols: Seq<SymbolRecord>,
) -> bool {
    let c = compact_chunks(chunks, records, source, symbols);
    &&& r.path@ == path
    &&& r.preserved@ == c.preserved
    &&& signatures_are(r.signatures_only@, c.signatures)
    &&& r.omitted@.len() == 0
    &&& r.original_tokens == total_tokens(chunks)
    &&& r.compacted_tokens == total_tokens(c.preserved) + total_tokens(pair_chunks(c.signatures))
}

/// Compact one file's new chunks given the invalidation records of the
/// file and its symbols. The compacted token count is that of the
/// preserved chunks plus that of the chunks reduced to a signature.
pub fn compact_file_chunks(
    path: &str,
    new_chunks: Vec<ChunkRecord>,
    records: &Vec<InvalidationRecord>,
    new_source: &[u8],
    symbols: &Vec<SymbolRecord>,
) -> (r: CompactFileResult)
    requires
        crate::graph::extract::ranges_within(new_chunks@, new_source@.len()),
        symbol_ranges_ordered(symbols@),
        total_tokens(new_chunks@) <= usize::MAX,
    ensures
        is_file_compaction(r, path@, new_chunks@, records@, new_source@, symbols@),
        forall|i: int, k: int|
            0 <= i < new_chunks@.len() && #[trigger] first_record_for(records@, new_chunks@[i], k)
                && records@[k].status != InvalidationStatus::Unchanged ==> r.preserved@.contains(new_chunks@[i]),
        forall|j: int|
            0 <= j < r.signatures_only@.len() ==> (#[trigger] r.signatures_only@[j] matches CompactChunkRecord::SignatureOnly {
                chunk,
                ..
            } && chunk.name is Some && forall|k: int|
                #[trigger] first_record_for(records@, chunk, k) ==> records@[k].status == InvalidationStatus::Unchanged),
{
    let ghost chunks = new_chunks@;
    let ghost rs = records@;
    let ghost src = new_source@;
    let ghost syms = symbols@;
    let mut preserved: Vec<ChunkRecord> = Vec::new();
    let mut signatures_only: Vec<CompactChunkRecord> = Vec::new();
    let mut full: usize = 0;
    let mut kept: usize = 0;
    assert(new_chunks@.len() == new_chunks.len());
    let mut rest = new_chunks;
    let mut k: usize = 0;
    while rest.len() > 0
        invariant
            k + rest@.len() == chunks.len(),
            rest@ == chunks.subrange(k as int, chunks.len() as int),
            crate::graph::extract::ranges_within(chunks, src.len()),
            chunks.len() <= usize::MAX,
            new_source@ == src,
            records@ == rs,
            symbols@ == syms,
            symbol_ranges_ordered(syms),
            total_tokens(chunks) <= usize::MAX,
            full == total_tokens(chunks.take(k as int)),
            ({
                let c = compact_chunks(chunks.take(k as int), rs, src, syms);
                &&& preserved@ == c.preserved
                &&& signatures_are(signatures_only@, c.signatures)
                &&& kept == total_tokens(c.preserved) + total_tokens(pair_chunks(c.signatures))
                &&& kept <= full
            }),
        decreases rest@.len(),
    {
        let chunk = rest.remove(0);
        assert(chunk == chunks[k as int]);
        proof {
            assert(chunks.take(k + 1).drop_last() =~= chunks.take(k as int));
            crate::bundle::lemma_total_tokens_take(chunks, k + 1);
            assert(chunks[k as int].byte_range.start <= chunks[k as int].byte_range.end);
        }
        let ghost prev = compact_chunks(chunks.take(k as int), rs, src, syms);
        let ghost prev_sigs = signatures_only@;
        full = full + chunk.estimated_tokens;
        let status = status_for(records, &chunk);
        let mut signature: Option<String> = None;
        if status == InvalidationStatus::Unchanged && chunk.name.is_some() {
            proof {
                lemma_first_within(syms, chunk);
            }
            signature = extract_signature(&chunk, new_source, symbols);
        }
        match signature {
            Some(sig) => {
                kept = kept + chunk.estimated_tokens;
                signatures_only.push(CompactChunkRecord::SignatureOnly { chunk, signature: sig });
                proof {
                    let c = compact_chunks(chunks.take(k + 1), rs, src, syms);
                    assert(pair_chunks(c.signatures) =~= pair_chunks(prev.signatures).push(chunks[k as int]));
                    assert(pair_chunks(c.signatures).drop_last() =~= pair_chunks(prev.signatures));
                    assert forall|i: int| 0 <= i < c.signatures.len() implies (#[trigger] signatures_only@[i] matches CompactChunkRecord::SignatureOnly { chunk, signature }
                        && chunk == c.signatures[i].0 && signature@ == c.signatures[i].1) by {
                        if i < prev.signatures.len() {
                            assert(signatures_only@[i] == prev_sigs[i]);
                        }
                    }
                }
            },
            None => {
                kept = kept + chunk.estimated_tokens;
                preserved.push(chunk);
                proof {
                    let c = compact_chunks(chunks.take(k + 1), rs, src, syms);
                    assert(c.preserved.drop_last() =~= prev.preserved);
                    assert(c.signatures == prev.signatures);
                }
            },
        }
        k = k + 1;
        assert(rest@ =~= chunks.subrange(k as int, chunks.len() as int));
    }
    assert(chunks.take(chunks.len() as int) =~= chunks);
    proof {
        lemma_changed_chunks_kept_whole(chunks, rs, src, syms);
        let c = compact_chunks(chunks, rs, src, syms);
        assert forall|j: int| 0 <= j < signatures_only@.len() implies (#[trigger] signatures_only@[j] matches CompactChunkRecord::SignatureOnly {
            chunk,
            ..
        } && chunk.name is Some && forall|k: int|
            #[trigger] first_record_for(rs, chunk, k) ==> rs[k].status == InvalidationStatus::Unchanged) by {
            assert(signatures_only@[j] matches CompactChunkRecord::SignatureOnly { chunk, signature } && chunk
                == c.signatures[j].0);
            assert(c.signatures[j].0.name is Some);
            assert forall|k: int| #[trigger] first_record_for(rs, c.signatures[j].0, k) implies rs[k].status
                == InvalidationStatus::Unchanged by {}
        }
    }
    CompactFileResult {
        path: path.to_owned(),
        preserved,
        signatures_only,
        omitted: Vec::new(),
        original_tokens: full,
        compacted_tokens: kept,
    }
}

// ---------------------------------------------------------------------
// All files and the budget
// ---------------------------------------------------------------------

/// `r` is the compaction of the file at `path` from the old tree `ot` to
/// the new tree `nt`, given the ranges that changed and the tags of the
/// new source: what `compact_single_file` gives.
pub open spec fn is_tree_compaction(
    r: (CompactFileResult, Vec<Diagnostic>),
    path: Seq<char>,
    ot: SyntaxTree,
    nt: SyntaxTree,
    os: Seq<u8>,
    ns: Seq<u8>,
    ranges: Seq<ByteRange>,
    tags: Option<Result<Vec<Result<TagInfo, String>>, String>>,
) -> bool {
        exists|oc: Seq<ChunkRecord>, nc: Seq<ChunkRecord>, inv: InvalidationOutput, syms: Seq<SymbolRecord>|
            #![trigger chunks_match(oc, chunk_entries(ot.root, 1000), path, os, tree_confidence(ot.has_error)), chunks_match(nc, chunk_entries(nt.root, 1000), path, ns, tree_confidence(nt.has_error)), is_invalidation_of(inv, oc, nc, os, ns, ranges, path), symbols_of_tags(syms, tags, ns, path)]
            {
                &&& chunks_match(
                    oc,
                    chunk_entries(ot.root, 1000),
                    path,
                    os,
                    tree_confidence(ot.has_error),
                )
                &&& chunks_match(
                    nc,
                    chunk_entries(nt.root, 1000),
                    path,
                    ns,
                    tree_confidence(nt.has_error),
                )
                &&& is_invalidation_of(inv, oc, nc, os, ns, ranges, path)
                &&& symbols_of_tags(syms, tags, ns, path)
                &&& is_file_compaction(r.0, path, nc, inv.records@, ns, syms)
                &&& chunking_diagnostics_are(
                    r.1@,
                    chunk_diagnostics(
                        nt.has_error,
                        visit_spec(nt.root, 0, None, seq![], 1000).len() == 0,
                        nc.len(),
                        1000,
                    ),
                )
            }
}

/// Compact one file from an old and a new parse: chunk both with the
/// default options, classify the new chunks against the old ones given
/// the ranges the parser reported as changed, take the symbols of the
/// tags (when a tags configuration gave any), and compact. The new
/// parse's chunking diagnostics come along, marked as such.
pub fn compact_single_file(
    path: &str,
    old_tree: &SyntaxTree,
    new_tree: &SyntaxTree,
    old_source: &[u8],
    new_source: &[u8],
    changed_ranges: &Vec<ByteRange>,
    tags: Option<Result<Vec<Result<TagInfo, String>>, String>>,
) -> (r: (CompactFileResult, Vec<Diagnostic>))
    requires
        wf_node(old_tree.root, old_source@.len(), 0),
        wf_node(new_tree.root, new_source@.len(), 0),
        1000 * (new_source@.len() + 1) <= usize::MAX,
        tags matches Some(Ok(ts)) ==> name_ranges_within(ts@, new_source@.len()) && forall|i: int|
            0 <= i < ts@.len() ==> (#[trigger] ts@[i] matches Ok(t) ==> t.range.start <= t.range.end),
    ensures
        is_tree_compaction(r, path@, *old_tree, *new_tree, old_source@, new_source@, changed_ranges@, tags),

{
    let options = ChunkOptions::default();
    let old_result = chunks_for_tree(old_tree, path, old_source, &options);
    let new_result = chunks_for_tree(new_tree, path, new_source, &options);
    let ghost nc = new_result.chunks@;
    proof {
        lemma_total_tokens_bound(nc, (new_source@.len() + 1) as nat);
        assert(nc.len() * (new_source@.len() + 1) <= 1000 * (new_source@.len() + 1)) by (nonlinear_arith)
            requires
                nc.len() <= 1000,
        ;
    }
    let invalidation = invalidate_chunks(
        &old_result.chunks,
        &new_result.chunks,
        old_source,
        new_source,
        changed_ranges,
        path,
    );
    let symbols: Vec<SymbolRecord> = match tags {
        Some(t) => {
            let ghost tg = t;
            let out = symbols_from_tags(path, new_source, t, &SymbolOptions::default());
            proof {
                if let Ok(ts) = tg {
                    assert forall|k: int| 0 <= k < out.symbols@.len() implies (
                    #[trigger] out.symbols@[k]).byte_range.start <= out.symbols@[k].byte_range.end by {
                        let kept = tags_taken(ts@, 1000).1;
                        assert(records_at(ts@, kept, out.symbols@[k], k, new_source@, path@));
                        assert(0 <= kept[k] < ts@.len());
                    }
                }
            }
            out.symbols
        },
        None => Vec::new(),
    };
    let ghost syms = symbols@;
    let new_parts = new_result;
    let chunk_diags = new_parts.diagnostics;
    let file = compact_file_chunks(path, new_parts.chunks, &invalidation.records, new_source, &symbols);
    let mut diagnostics: Vec<Diagnostic> = Vec::new();
    let mut i: usize = 0;
    while i < chunk_diags.len()
        invariant
            i <= chunk_diags@.len(),
            diagnostics@.len() == i,
            forall|q: int|
                0 <= q < i ==> {
                    &&& (#[trigger] diagnostics@[q]).level == chunk_diags@[q].level
                    &&& diagnostics@[q].message == chunk_diags@[q].message
                    &&& diagnostics@[q].context matches Some(c) && c@ == "new_snapshot_chunking"@
                },
        decreases chunk_diags@.len() - i,
    {
        let d = chunk_diags[i].copy();
        diagnostics.push(d.with_context("new_snapshot_chunking"));
        i = i + 1;
    }
    proof {
        let oc = old_result.chunks@;
        let inv = invalidation;
        assert(chunks_match(oc, chunk_entries(old_tree.root, 1000), path@, old_source@, tree_confidence(old_tree.has_error)));
        assert(chunks_match(nc, chunk_entries(new_tree.root, 1000), path@, new_source@, tree_confidence(new_tree.has_error)));
        assert(is_invalidation_of(inv, oc, nc, old_source@, new_source@, changed_ranges@, path@));
        assert(symbols_of_tags(syms, tags, new_source@, path@));
    }
    (file, diagnostics)
}


/// What became of one requested file before the budget is applied.
#[derive(Clone, Debug)]
pub enum CompactInput {
    /// The file's new content could not be read.
    ReadFailed { path: String, error: String },
    /// No old content was given for the file.
    MissingOldContent { path: String },
    /// No language is configured for the file.
    NoLanguage { path: String },
    /// Parsing or invalidation of the file failed.
    Failed { path: String, error: String },
    /// The file was compacted; its chunking diagnostics come along.
    Compacted { file: CompactFileResult, diagnostics: Vec<Diagnostic> },
}

/// The error message for an input that was not compacted.
pub open spec fn input_error(i: CompactInput) -> Seq<char> {
    match i {
        CompactInput::ReadFailed { path, error } => "file_not_found: failed to read "@ + path@ + ": "@ + error@,
        CompactInput::MissingOldContent { path } => "missing_old_content: no old content provided for "@ + path@,
        CompactInput::NoLanguage { path } => "no_language: no language configuration for "@ + path@,
        CompactInput::Failed { path, error } => "compaction_error for "@ + path@ + ": "@ + error@,
        CompactInput::Compacted { .. } => seq![],
    }
}

/// A diagnostic as the assembly states it: passed on as it came, or an
/// error with this message.
pub enum DiagView {
    Given(Diagnostic),
    Error(Seq<char>),
}

/// Whether `d` is what `v` describes.
pub open spec fn diag_is(d: Diagnostic, v: DiagView) -> bool {
    match v {
        DiagView::Given(g) => d == g,
        DiagView::Error(m) => d.level == DiagnosticLevel::Error && d.message@ == m && d.context is None,
    }
}

/// The compacted files of the inputs, in order.
pub open spec fn input_files(inputs: Seq<CompactInput>) -> Seq<CompactFileResult>
    decreases inputs.len(),
{
    if inputs.len() == 0 {
        seq![]
    } else {
        input_files(inputs.drop_last()) + match inputs.last() {
            CompactInput::Compacted { file, .. } => seq![file],
            _ => seq![],
        }
    }
}

/// The diagnostics of the inputs, in order: an error for each input that
/// was not compacted, the chunking diagnostics of each that was.
pub open spec fn input_diags(inputs: Seq<CompactInput>) -> Seq<DiagView>
    decreases inputs.len(),
{
    if inputs.len() == 0 {
        seq![]
    } else {
        input_diags(inputs.drop_last()) + match inputs.last() {
            CompactInput::Compacted { diagnostics, .. } => diagnostics@.map_values(|d: Diagnostic| DiagView::Given(d)),
            _ => seq![DiagView::Error(input_error(inputs.last()))],
        }
    }
}

/// The sum of the original token counts of the files.
pub open spec fn original_sum(files: Seq<CompactFileResult>) -> nat
    decreases files.len(),
{
    if files.len() == 0 {
        0
    } else {
        original_sum(files.drop_last()) + files.last().original_tokens as nat
    }
}

/// The sum of the compacted token counts of the files.
pub open spec fn compacted_sum(files: Seq<CompactFileResult>) -> nat
    decreases files.len(),
{
    if files.len() == 0 {
        0
    } else {
        compacted_sum(files.drop_last()) + files.last().compacted_tokens as nat
    }
}

/// The chunks of the whole-chunk records among signature records.
pub open spec fn kept_whole(r: Seq<CompactChunkRecord>) -> Seq<ChunkRecord>
    decreases r.len(),
{
    if r.len() == 0 {
        seq![]
    } else {
        kept_whole(r.drop_last()) + match r.last() {
            CompactChunkRecord::Preserved { chunk } => seq![chunk],
            CompactChunkRecord::SignatureOnly { .. } => seq![],
        }
    }
}

/// The chunks of the signature-only records among signature records.
pub open spec fn signature_chunks(r: Seq<CompactChunkRecord>) -> Seq<ChunkRecord>
    decreases r.len(),
{
    if r.len() == 0 {
        seq![]
    } else {
        signature_chunks(r.drop_last()) + match r.last() {
            CompactChunkRecord::SignatureOnly { chunk, .. } => seq![chunk],
            CompactChunkRecord::Preserved { .. } => seq![],
        }
    }
}

/// Greedy selection of preserved chunks under the budget: each chunk is
/// kept when it still fits after those kept so far (counted from `used`),
/// and omitted otherwise. Gives the kept chunks, the new count and the
/// omitted chunks.
pub open spec fn greedy(chunks: Seq<ChunkRecord>, used: nat, budget: nat) -> (Seq<ChunkRecord>, nat, Seq<ChunkRecord>)
    decreases chunks.len(),
{
    if chunks.len() == 0 {
        (seq![], used, seq![])
    } else {
        let (kept, u, omitted) = greedy(chunks.drop_last(), used, budget);
        let c = chunks.last();
        if u + c.estimated_tokens <= budget {
            (kept.push(c), u + c.estimated_tokens as nat, omitted)
        } else {
            (kept, u, omitted.push(c))
        }
    }
}

/// The state of the budget pass over the files.
pub struct BudgetPass {
    /// Tokens kept so far over all files.
    pub used: nat,
    /// Chunks omitted so far.
    pub omitted: Seq<ChunkRecord>,
    /// Per file, the chunks it keeps.
    pub kept: Seq<Seq<ChunkRecord>>,
    /// Per file, the token count after it.
    pub after: Seq<nat>,
}

/// The budget pass: in each file every signature-only chunk is omitted
/// and whole chunks listed with the signatures are kept, then the
/// preserved chunks are selected greedily against one running count.
pub open spec fn budget_pass(files: Seq<CompactFileResult>, budget: nat) -> BudgetPass
    decreases files.len(),
{
    if files.len() == 0 {
        BudgetPass { used: 0, omitted: seq![], kept: seq![], after: seq![] }
    } else {
        let st = budget_pass(files.drop_last(), budget);
        let f = files.last();
        let (kept, u, om) = greedy(f.preserved@, st.used, budget);
        BudgetPass {
            used: u,
            omitted: st.omitted + signature_chunks(f.signatures_only@) + om,
            kept: st.kept.push(kept_whole(f.signatures_only@) + kept),
            after: st.after.push(u),
        }
    }
}

/// Whether `r` records chunk `c` as omitted for the budget.
pub open spec fn omitted_for_budget(r: CompactOmittedRecord, c: ChunkRecord) -> bool {
    &&& r.stable_id == c.stable_id
    &&& r.kind == c.kind
    &&& r.name == c.name
    &&& r.reason@ == "budget"@
    &&& r.estimated_tokens == c.estimated_tokens
}

/// The message noting how many chunks the budget omitted.
pub open spec fn budget_note(n: nat, budget: nat) -> Seq<u8> {
    decimal(n) + lit(" chunk(s) omitted to fit within budget of ") + decimal(budget) + lit(" tokens")
}

/// The total chunk count of files: preserved and signature records.
pub open spec fn chunk_total(files: Seq<CompactFileResult>) -> nat
    decreases files.len(),
{
    if files.len() == 0 {
        0
    } else {
        chunk_total(files.drop_last()) + files.last().preserved@.len() + files.last().signatures_only@.len()
    }
}

fn error_diagnostic(input: &CompactInput) -> (d: Diagnostic)
    requires
        !(input is Compacted),
    ensures
        diag_is(d, DiagView::Error(input_error(*input))),
{
    let message = match input {
        CompactInput::ReadFailed { path, error } => "file_not_found: failed to read ".to_owned().concat(
            path.as_str(),
        ).concat(": ").concat(error.as_str()),
        CompactInput::MissingOldContent { path } => "missing_old_content: no old content provided for ".to_owned().concat(
            path.as_str(),
        ),
        CompactInput::NoLanguage { path } => "no_language: no language configuration for ".to_owned().concat(
            path.as_str(),
        ),
        CompactInput::Failed { path, error } => "compaction_error for ".to_owned().concat(path.as_str()).concat(
            ": ",
        ).concat(error.as_str()),
        CompactInput::Compacted { .. } => String::new(),
    };
    Diagnostic::with_level(DiagnosticLevel::Error, message)
}

fn omitted_record(c: &ChunkRecord) -> (r: CompactOmittedRecord)
    ensures
        omitted_for_budget(r, *c),
{
    CompactOmittedRecord {
        stable_id: StableId(copy_string(&c.stable_id.0)),
        kind: copy_string(&c.kind),
        name: copy_opt_string(&c.name),
        reason: "budget".to_owned(),
        estimated_tokens: c.estimated_tokens,
    }
}

/// The omitted records describe the chunks, in order.
pub open spec fn omitted_are(r: Seq<CompactOmittedRecord>, cs: Seq<ChunkRecord>) -> bool {
    r.len() == cs.len() && forall|i: int| 0 <= i < cs.len() ==> omitted_for_budget(#[trigger] r[i], cs[i])
}

proof fn lemma_greedy_bound(chunks: Seq<ChunkRecord>, used: nat, budget: nat)
    requires
        used <= budget,
    ensures
        used <= greedy(chunks, used, budget).1 <= budget,
    decreases chunks.len(),
{
    if chunks.len() > 0 {
        lemma_greedy_bound(chunks.drop_last(), used, budget);
    }
}

proof fn lemma_pass_bound(files: Seq<CompactFileResult>, budget: nat)
    ensures
        budget_pass(files, budget).used <= budget,
        budget_pass(files, budget).kept.len() == files.len(),
        budget_pass(files, budget).after.len() == files.len(),
    decreases files.len(),
{
    if files.len() > 0 {
        lemma_pass_bound(files.drop_last(), budget);
        lemma_greedy_bound(files.last().preserved@, budget_pass(files.drop_last(), budget).used, budget);
    }
}

/// Apply the budget to one file, continuing the running count.
fn budget_file(
    file: CompactFileResult,
    used: usize,
    budget: usize,
    omitted: &mut Vec<CompactOmittedRecord>,
) -> (r: (CompactFileResult, usize))
    requires
        used <= budget,
    ensures
        ({
            let (kept, u, om) = greedy(file.preserved@, used as nat, budget as nat);
            &&& r.0.path == file.path
            &&& r.0.preserved@ == kept_whole(file.signatures_only@) + kept
            &&& r.0.signatures_only@.len() == 0
            &&& r.0.omitted@ == file.omitted@
            &&& r.0.original_tokens == file.original_tokens
            &&& r.0.compacted_tokens == u
            &&& r.1 == u
            &&& old(omitted)@.len() <= final(omitted)@.len()
            &&& final(omitted)@.take(old(omitted)@.len() as int) == old(omitted)@
            &&& omitted_are(
                final(omitted)@.skip(old(omitted)@.len() as int),
                signature_chunks(file.signatures_only@) + om,
            )
        }),
{
    let ghost base = omitted@;
    let CompactFileResult { path, preserved, signatures_only, omitted: file_omitted, original_tokens, compacted_tokens: _ } = file;
    let mut kept: Vec<ChunkRecord> = Vec::new();
    let ghost sig = signatures_only@;
    let mut i: usize = 0;
    while i < signatures_only.len()
        invariant
            i <= sig.len(),
            signatures_only@ == sig,
            kept@ == kept_whole(sig.take(i as int)),
            base.len() <= omitted@.len(),
            omitted@.take(base.len() as int) == base,
            omitted_are(omitted@.skip(base.len() as int), signature_chunks(sig.take(i as int))),
        decreases sig.len() - i,
    {
        proof {
            assert(sig.take(i + 1).drop_last() =~= sig.take(i as int));
        }
        let ghost before = omitted@;
        match &signatures_only[i] {
            CompactChunkRecord::SignatureOnly { chunk, .. } => {
                omitted.push(omitted_record(chunk));
                proof {
                    assert(omitted@.take(base.len() as int) =~= base);
                    let now = omitted@.skip(base.len() as int);
                    let was = before.skip(base.len() as int);
                    assert(now =~= was.push(omitted@.last()));
                }
            },
            CompactChunkRecord::Preserved { chunk } => {
                kept.push(chunk.copy());
                assert(omitted@ == before);
            },
        }
        i = i + 1;
    }
    assert(sig.take(sig.len() as int) =~= sig);
    let ghost from_sigs = kept@;
    let ghost mid = omitted@;
    assert(mid.take(mid.len() as int) =~= mid);
    assert(mid.skip(mid.len() as int) =~= Seq::<CompactOmittedRecord>::empty());
    let ghost pres = preserved@;
    let mut running: usize = used;
    let mut j: usize = 0;
    while j < preserved.len()
        invariant
            j <= pres.len(),
            preserved@ == pres,
            running <= budget,
            base.len() <= mid.len() <= omitted@.len(),
            mid.take(base.len() as int) == base,
            ({
                let (k2, u, om) = greedy(pres.take(j as int), used as nat, budget as nat);
                &&& kept@ == from_sigs + k2
                &&& running == u
                &&& omitted@.take(mid.len() as int) == mid
                &&& omitted_are(omitted@.skip(mid.len() as int), om)
            }),
        decreases pres.len() - j,
    {
        proof {
            assert(pres.take(j + 1).drop_last() =~= pres.take(j as int));
        }
        let c = &preserved[j];
        let ghost before = omitted@;
        if c.estimated_tokens <= budget - running {
            running = running + c.estimated_tokens;
            kept.push(c.copy());
        } else {
            omitted.push(omitted_record(c));
            proof {
                assert(omitted@.take(mid.len() as int) =~= mid);
                assert(omitted@.skip(mid.len() as int) =~= before.skip(mid.len() as int).push(omitted@.last()));
            }
        }
        j = j + 1;
    }
    assert(pres.take(pres.len() as int) =~= pres);
    proof {
        let (k2, u, om) = greedy(pres, used as nat, budget as nat);
        let part1 = signature_chunks(sig);
        let all = omitted@.skip(base.len() as int);
        assert(mid.skip(base.len() as int).len() == part1.len());
        assert(all =~= mid.skip(base.len() as int) + omitted@.skip(mid.len() as int));
        assert(omitted@.take(base.len() as int) =~= base) by {
            assert(omitted@.take(mid.len() as int) == mid);
        }
        assert forall|k: int| 0 <= k < (part1 + om).len() implies omitted_for_budget(#[trigger] all[k], (part1 + om)[k]) by {
            if k < part1.len() {
                assert(all[k] == mid.skip(base.len() as int)[k]);
            } else {
                assert(all[k] == omitted@.skip(mid.len() as int)[k - part1.len()]);
            }
        }
    }
    (
        CompactFileResult {
            path,
            preserved: kept,
            signatures_only: Vec::new(),
            omitted: file_omitted,
            original_tokens,
            compacted_tokens: running,
        },
        running,
    )
}

proof fn lemma_kept_whole_len(r: Seq<CompactChunkRecord>)
    ensures
        kept_whole(r).len() + signature_chunks(r).len() == r.len(),
    decreases r.len(),
{
    if r.len() > 0 {
        lemma_kept_whole_len(r.drop_last());
    }
}

proof fn lemma_greedy_len(chunks: Seq<ChunkRecord>, used: nat, budget: nat)
    ensures
        greedy(chunks, used, budget).0.len() + greedy(chunks, used, budget).2.len() == chunks.len(),
    decreases chunks.len(),
{
    if chunks.len() > 0 {
        lemma_greedy_len(chunks.drop_last(), used, budget);
    }
}

/// Whether `out` is `files` after the budget pass.
pub open spec fn files_after_budget(out: Seq<CompactFileResult>, files: Seq<CompactFileResult>, budget: nat) -> bool {
    let pass = budget_pass(files, budget);
    &&& out.len() == files.len()
    &&& forall|i: int|
        0 <= i < files.len() ==> {
            &&& (#[trigger] out[i]).path == files[i].path
            &&& out[i].preserved@ == pass.kept[i]
            &&& out[i].signatures_only@.len() == 0
            &&& out[i].omitted@ == files[i].omitted@
            &&& out[i].original_tokens == files[i].original_tokens
            &&& out[i].compacted_tokens == pass.after[i]
        }
}

/// Whether the kept part of each file after the budget pass is no
/// larger than before it.
proof fn lemma_pass_shrinks(files: Seq<CompactFileResult>, budget: nat)
    ensures
        forall|i: int|
            0 <= i < files.len() ==> (#[trigger] budget_pass(files, budget).kept[i]).len()
                <= files[i].preserved@.len() + files[i].signatures_only@.len(),
        budget_pass(files, budget).kept.len() == files.len(),
    decreases files.len(),
{
    lemma_pass_bound(files, budget);
    if files.len() > 0 {
        lemma_pass_shrinks(files.drop_last(), budget);
        let f = files.last();
        lemma_kept_whole_len(f.signatures_only@);
        lemma_greedy_len(f.preserved@, budget_pass(files.drop_last(), budget).used, budget);
        let p = budget_pass(files, budget);
        let q = budget_pass(files.drop_last(), budget);
        assert forall|i: int| 0 <= i < files.len() implies (#[trigger] p.kept[i]).len()
            <= files[i].preserved@.len() + files[i].signatures_only@.len() by {
            if i < files.len() - 1 {
                assert(p.kept[i] == q.kept[i]);
                assert(files[i] == files.drop_last()[i]);
            }
        }
    }
}

/// Count the chunks of files.
fn count_chunks(files: &Vec<CompactFileResult>) -> (n: usize)
    requires
        chunk_total(files@) <= usize::MAX,
    ensures
        n == chunk_total(files@),
{
    let mut n: usize = 0;
    let mut i: usize = 0;
    while i < files.len()
        invariant
            i <= files@.len(),
            n == chunk_total(files@.take(i as int)),
            chunk_total(files@) <= usize::MAX,
        decreases files@.len() - i,
    {
        proof {
            assert(files@.take(i + 1).drop_last() =~= files@.take(i as int));
            lemma_chunk_total_prefix(files@, i + 1);
        }
        n = n + files[i].preserved.len() + files[i].signatures_only.len();
        i = i + 1;
    }
    assert(files@.take(files@.len() as int) =~= files@);
    n
}

proof fn lemma_chunk_total_prefix(files: Seq<CompactFileResult>, k: int)
    requires
        0 <= k <= files.len(),
    ensures
        chunk_total(files.take(k)) <= chunk_total(files),
    decreases files.len(),
{
    if k < files.len() {
        assert(files.drop_last().take(k) =~= files.take(k));
        lemma_chunk_total_prefix(files.drop_last(), k);
    } else {
        assert(files.take(k) =~= files);
    }
}

proof fn lemma_chunk_total_after(out: Seq<CompactFileResult>, files: Seq<CompactFileResult>, budget: nat)
    requires
        files_after_budget(out, files, budget),
    ensures
        chunk_total(out) <= chunk_total(files),
    decreases files.len(),
{
    lemma_pass_shrinks(files, budget);
    lemma_pass_bound(files, budget);
    if files.len() > 0 {
        let n = files.len() - 1;
        let fo = files.drop_last();
        lemma_pass_bound(fo, budget);
        let oo = out.drop_last();
        assert(budget_pass(files, budget).kept.drop_last() == budget_pass(fo, budget).kept);
        assert(budget_pass(files, budget).after.drop_last() == budget_pass(fo, budget).after);
        assert forall|i: int| 0 <= i < fo.len() implies {
            &&& (#[trigger] oo[i]).path == fo[i].path
            &&& oo[i].preserved@ == budget_pass(fo, budget).kept[i]
            &&& oo[i].signatures_only@.len() == 0
            &&& oo[i].omitted@ == fo[i].omitted@
            &&& oo[i].original_tokens == fo[i].original_tokens
            &&& oo[i].compacted_tokens == budget_pass(fo, budget).after[i]
        } by {
            assert(oo[i] == out[i]);
            assert(fo[i] == files[i]);
            assert(budget_pass(fo, budget).kept[i] == budget_pass(files, budget).kept[i]);
            assert(budget_pass(fo, budget).after[i] == budget_pass(files, budget).after[i]);
        }
        lemma_chunk_total_after(oo, fo, budget);
        assert(out[n].preserved@.len() <= files[n].preserved@.len() + files[n].signatures_only@.len());
    }
}

proof fn lemma_original_sum_after(out: Seq<CompactFileResult>, files: Seq<CompactFileResult>)
    requires
        out.len() == files.len(),
        forall|i: int| 0 <= i < files.len() ==> (#[trigger] out[i]).original_tokens == files[i].original_tokens,
    ensures
        original_sum(out) == original_sum(files),
    decreases files.len(),
{
    if files.len() > 0 {
        assert forall|i: int| 0 <= i < files.len() - 1 implies (#[trigger] out.drop_last()[i]).original_tokens
            == files.drop_last()[i].original_tokens by {
            assert(out.drop_last()[i] == out[i]);
        }
        lemma_original_sum_after(out.drop_last(), files.drop_last());
    }
}

/// Assemble the compaction of a set of files from what became of each:
/// the compacted files in order, an error diagnostic for each file that
/// could not be compacted and the chunking diagnostics of each that was.
/// When a budget is set and the compacted token count exceeds it, the
/// budget pass runs over the files and a note counts what it omitted.
pub fn compact_files(inputs: Vec<CompactInput>, opts: &CompactOptions) -> (r: Result<CompactOutput, CompactError>)
    requires
        original_sum(input_files(inputs@)) <= usize::MAX,
        compacted_sum(input_files(inputs@)) <= usize::MAX,
        chunk_total(input_files(inputs@)) <= usize::MAX,
    ensures
        r matches Ok(out) && (opts.budget matches Some(b) ==> out.compacted_tokens <= b),
        r matches Ok(out) && {
            let files = input_files(inputs@);
            let diags = input_diags(inputs@);
            &&& out.original_tokens == original_sum(files)
            &&& out.meta.schema_version@ == "0.1.0"@
            &&& out.meta.source_path is None
            &&& out.meta.total_chunks == chunk_total(out.files@)
            &&& out.meta.total_estimated_tokens == original_sum(files)
            &&& match opts.budget {
                Some(b) if compacted_sum(files) > b => {
                    let pass = budget_pass(files, b as nat);
                    &&& files_after_budget(out.files@, files, b as nat)
                    &&& out.compacted_tokens == pass.used
                    &&& omitted_are(out.omitted@, pass.omitted)
                    &&& out.diagnostics@.len() == diags.len() + 1
                    &&& forall|i: int| 0 <= i < diags.len() ==> diag_is(#[trigger] out.diagnostics@[i], diags[i])
                    &&& out.diagnostics@.last().level == DiagnosticLevel::Info
                    &&& utf8(out.diagnostics@.last().message@) == budget_note(pass.omitted.len(), b as nat)
                    &&& out.diagnostics@.last().context is None
                },
                _ => {
                    &&& out.files@ == files
                    &&& out.compacted_tokens == compacted_sum(files)
                    &&& out.omitted@.len() == 0
                    &&& out.diagnostics@.len() == diags.len()
                    &&& forall|i: int| 0 <= i < diags.len() ==> diag_is(#[trigger] out.diagnostics@[i], diags[i])
                },
            }
        },
{
    let ghost all = inputs@;
    assert(inputs@.len() == inputs.len());
    let mut files: Vec<CompactFileResult> = Vec::new();
    let mut diagnostics: Vec<Diagnostic> = Vec::new();
    let mut total_original: usize = 0;
    let mut total_compacted: usize = 0;
    let mut rest = inputs;
    let mut k: usize = 0;
    while rest.len() > 0
        invariant
            k + rest@.len() == all.len(),
            rest@ == all.subrange(k as int, all.len() as int),
            files@ == input_files(all.take(k as int)),
            diagnostics@.len() == input_diags(all.take(k as int)).len(),
            forall|i: int|
                0 <= i < diagnostics@.len() ==> diag_is(#[trigger] diagnostics@[i], input_diags(all.take(k as int))[i]),
            total_original == original_sum(files@),
            total_compacted == compacted_sum(files@),
            original_sum(input_files(all)) <= usize::MAX,
            compacted_sum(input_files(all)) <= usize::MAX,
            all.len() <= usize::MAX,
        decreases rest@.len(),
    {
        let input = rest.remove(0);
        assert(input == all[k as int]);
        proof {
            assert(all.take(k + 1).drop_last() =~= all.take(k as int));
            lemma_input_sums_prefix(all, k + 1);
        }
        let ghost prev_d = diagnostics@;
        let ghost pd = input_diags(all.take(k as int));
        match input {
            CompactInput::Compacted { file, diagnostics: file_diags } => {
                proof {
                    assert(input_files(all.take(k + 1)) =~= files@.push(file));
                    assert(files@.push(file).drop_last() =~= files@);
                }
                total_original = total_original + file.original_tokens;
                total_compacted = total_compacted + file.compacted_tokens;
                files.push(file);
                let mut d: usize = 0;
                while d < file_diags.len()
                    invariant
                        d <= file_diags@.len(),
                        diagnostics@.len() == prev_d.len() + d,
                        forall|i: int| 0 <= i < prev_d.len() ==> #[trigger] diagnostics@[i] == prev_d[i],
                        forall|i: int| 0 <= i < d ==> #[trigger] diagnostics@[prev_d.len() + i] == file_diags@[i],
                    decreases file_diags@.len() - d,
                {
                    diagnostics.push(crate::dup::Duplicate::dup(&file_diags[d]));
                    d = d + 1;
                }
                proof {
                    let nd = input_diags(all.take(k + 1));
                    assert(nd =~= pd + file_diags@.map_values(|x: Diagnostic| DiagView::Given(x)));
                    assert forall|i: int| 0 <= i < diagnostics@.len() implies diag_is(#[trigger] diagnostics@[i], nd[i]) by {
                        if i < prev_d.len() {
                            assert(nd[i] == pd[i]);
                        } else {
                            assert(diagnostics@[prev_d.len() + (i - prev_d.len())] == file_diags@[i - prev_d.len()]);
                        }
                    }
                    assert(files@.drop_last() == input_files(all.take(k as int)));
                }
            },
            _ => {
                diagnostics.push(error_diagnostic(&input));
                proof {
                    let nd = input_diags(all.take(k + 1));
                    assert(nd =~= pd.push(DiagView::Error(input_error(input))));
                    assert forall|i: int| 0 <= i < diagnostics@.len() implies diag_is(#[trigger] diagnostics@[i], nd[i]) by {
                        if i < prev_d.len() {
                            assert(nd[i] == pd[i]);
                        }
                    }
                }
            },
        }
        k = k + 1;
        assert(rest@ =~= all.subrange(k as int, all.len() as int));
    }
    assert(all.take(all.len() as int) =~= all);
    let ghost files0 = files@;
    assert(files@.len() == files.len());
    let mut omitted: Vec<CompactOmittedRecord> = Vec::new();
    let mut out_files = files;
    match opts.budget {
        Some(budget) => {
            if total_compacted > budget {
                let mut running: usize = 0;
                let mut done: Vec<CompactFileResult> = Vec::new();
                let mut pending = out_files;
                let mut f: usize = 0;
                proof {
                    lemma_pass_bound(files0, budget as nat);
                }
                while pending.len() > 0
                    invariant
                        f + pending@.len() == files0.len(),
                        files0.len() <= usize::MAX,
                        pending@ == files0.subrange(f as int, files0.len() as int),
                        running == budget_pass(files0.take(f as int), budget as nat).used,
                        running <= budget,
                        files_after_budget(done@, files0.take(f as int), budget as nat),
                        omitted_are(omitted@, budget_pass(files0.take(f as int), budget as nat).omitted),
                    decreases pending@.len(),
                {
                    let file = pending.remove(0);
                    assert(file == files0[f as int]);
                    let ghost prefix = files0.take(f as int);
                    let ghost next = files0.take(f + 1);
                    proof {
                        assert(next.drop_last() =~= prefix);
                        lemma_pass_bound(prefix, budget as nat);
                        lemma_greedy_bound(file.preserved@, running as nat, budget as nat);
                    }
                    let ghost before_om = omitted@;
                    let ghost prev_done = done@;
                    let (nf, nr) = budget_file(file, running, budget, &mut omitted);
                    done.push(nf);
                    running = nr;
                    proof {
                        let pass = budget_pass(next, budget as nat);
                        let pp = budget_pass(prefix, budget as nat);
                        lemma_pass_bound(next, budget as nat);
                        assert forall|i: int| 0 <= i < next.len() implies {
                            &&& (#[trigger] done@[i]).path == next[i].path
                            &&& done@[i].preserved@ == pass.kept[i]
                            &&& done@[i].signatures_only@.len() == 0
                            &&& done@[i].omitted@ == next[i].omitted@
                            &&& done@[i].original_tokens == next[i].original_tokens
                            &&& done@[i].compacted_tokens == pass.after[i]
                        } by {
                            if i < prefix.len() {
                                assert(done@[i] == prev_done[i]);
                                assert(next[i] == prefix[i]);
                                assert(pass.kept[i] == pp.kept[i]);
                                assert(pass.after[i] == pp.after[i]);
                            }
                        }
                        let om = omitted@;
                        let want = pass.omitted;
                        assert(want =~= pp.omitted + (signature_chunks(files0[f as int].signatures_only@)
                            + greedy(files0[f as int].preserved@, pp.used, budget as nat).2));
                        assert(om =~= before_om + om.skip(before_om.len() as int));
                        assert forall|i: int| 0 <= i < want.len() implies omitted_for_budget(#[trigger] om[i], want[i]) by {
                            if i < before_om.len() {
                                assert(om[i] == before_om[i]);
                            } else {
                                assert(om[i] == om.skip(before_om.len() as int)[i - before_om.len()]);
                            }
                        }
                    }
                    f = f + 1;
                    assert(pending@ =~= files0.subrange(f as int, files0.len() as int));
                }
                assert(files0.take(files0.len() as int) =~= files0);
                out_files = done;
                total_compacted = running;
                let note = budget_diagnostic(omitted.len(), budget);
                diagnostics.push(note);
                proof {
                    lemma_chunk_total_after(out_files@, files0, budget as nat);
                }
            }
        },
        None => {},
    }
    let total_chunks = count_chunks(&out_files);
    proof {
        if out_files@ != files0 {
            lemma_original_sum_after(out_files@, files0);
        }
    }
    let total_estimated = sum_original(&out_files);
    Ok(
        CompactOutput {
            files: out_files,
            original_tokens: total_original,
            compacted_tokens: total_compacted,
            omitted,
            diagnostics,
            meta: OutputMeta {
                schema_version: "0.1.0".to_owned(),
                source_path: None,
                total_chunks,
                total_estimated_tokens: total_estimated,
            },
        },
    )
}

fn sum_original(files: &Vec<CompactFileResult>) -> (n: usize)
    requires
        original_sum(files@) <= usize::MAX,
    ensures
        n == original_sum(files@),
{
    let mut n: usize = 0;
    let mut i: usize = 0;
    while i < files.len()
        invariant
            i <= files@.len(),
            n == original_sum(files@.take(i as int)),
            original_sum(files@) <= usize::MAX,
        decreases files@.len() - i,
    {
        proof {
            assert(files@.take(i + 1).drop_last() =~= files@.take(i as int));
            lemma_original_sum_prefix(files@, i + 1);
        }
        n = n + files[i].original_tokens;
        i = i + 1;
    }
    assert(files@.take(files@.len() as int) =~= files@);
    n
}

proof fn lemma_original_sum_prefix(files: Seq<CompactFileResult>, k: int)
    requires
        0 <= k <= files.len(),
    ensures
        original_sum(files.take(k)) <= original_sum(files),
    decreases files.len(),
{
    if k < files.len() {
        assert(files.drop_last().take(k) =~= files.take(k));
        lemma_original_sum_prefix(files.drop_last(), k);
    } else {
        assert(files.take(k) =~= files);
    }
}

proof fn lemma_input_sums_prefix(inputs: Seq<CompactInput>, k: int)
    requires
        0 <= k <= inputs.len(),
    ensures
        original_sum(input_files(inputs.take(k))) <= original_sum(input_files(inputs)),
        compacted_sum(input_files(inputs.take(k))) <= compacted_sum(input_files(inputs)),
    decreases inputs.len(),
{
    if k < inputs.len() {
        assert(inputs.drop_last().take(k) =~= inputs.take(k));
        lemma_input_sums_prefix(inputs.drop_last(), k);
        let a = input_files(inputs.drop_last());
        let b = input_files(inputs);
        if b.len() > a.len() {
            assert(b.drop_last() =~= a);
        } else {
            assert(b =~= a);
        }
    } else {
        assert(inputs.take(k) =~= inputs);
    }
}

fn budget_diagnostic(n: usize, budget: usize) -> (d: Diagnostic)
    ensures
        d.level == DiagnosticLevel::Info,
        utf8(d.message@) == budget_note(n as nat, budget as nat),
        d.context is None,
{
    let mut m: Vec<u8> = Vec::new();
    push_decimal(&mut m, n);
    push_str(&mut m, " chunk(s) omitted to fit within budget of ");
    push_decimal(&mut m, budget);
    push_str(&mut m, " tokens");
    proof {
        let a = decimal(n as nat);
        let b = lit(" chunk(s) omitted to fit within budget of ");
        let c = decimal(budget as nat);
        let e = lit(" tokens");
        lemma_decimal_valid_utf8(n as nat);
        lemma_decimal_valid_utf8(budget as nat);
        lemma_utf8_valid(" chunk(s) omitted to fit within budget of "@);
        lemma_utf8_valid(" tokens"@);
        vstd::utf8::valid_utf8_concat(a, b);
        vstd::utf8::valid_utf8_concat(a + b, c);
        vstd::utf8::valid_utf8_concat(a + b + c, e);
    }
    Diagnostic::with_level(DiagnosticLevel::Info, string_from_utf8(m))
}

} // verus!

verus! {

/// `r` is the compaction of the file at `path` from some tree of `os` to
/// some tree of `ns`, both fitting their sources, given some changed
/// ranges and, when the grammar has a tags query, some tags of the new
/// source whose ranges lie within it and are in order.
pub open spec fn is_source_compaction(
    r: (CompactFileResult, Vec<Diagnostic>),
    path: Seq<char>,
    os: Seq<u8>,
    ns: Seq<u8>,
    has_tags: bool,
) -> bool {
    exists|
        ot: SyntaxTree,
        nt: SyntaxTree,
        ranges: Seq<ByteRange>,
        tags: Option<Result<Vec<Result<TagInfo, String>>, String>>,
    |
        {
            &&& wf_node(ot.root, os.len(), 0)
            &&& wf_node(nt.root, ns.len(), 0)
            &&& (tags is Some) == has_tags
            &&& (tags matches Some(Ok(ts)) ==> name_ranges_within(ts@, ns.len())
                && crate::parsing::tag_ranges_in_order(ts@))
            &&& #[trigger] is_tree_compaction(r, path, ot, nt, os, ns, ranges, tags)
        }
}

/// Compact the file at `path` from its old to its new source: parse both
/// with `language` (the old one first), take the ranges that the parser
/// reports as changed, run the grammar's tags query on the new source
/// when there is one, and compact as `compact_single_file` does. When a
/// tag reports a range outside the source or out of order, which no record
/// can read, the query counts as failed with the message `tag range outside
/// the source`.
pub fn compact_sources(
    language: &tree_sitter::Language,
    tags_config: Option<&tree_sitter_tags::TagsConfiguration>,
    path: &str,
    old_source: &[u8],
    new_source: &[u8],
) -> (r: Result<(CompactFileResult, Vec<Diagnostic>), crate::parsing::SourceFailure>)
    requires
        1000 * (new_source@.len() + 1) <= usize::MAX,
    ensures
        r matches Ok(res) ==> is_source_compaction(res, path@, old_source@, new_source@, tags_config is Some),
{
    match crate::parsing::parse_pair(language, old_source, new_source, true) {
        Err(e) => Err(e),
        Ok((old_tree, ot, new_tree, nt)) => {
            let ranges = crate::parsing::changed_ranges(&old_tree, &new_tree);
            let tags = match tags_config {
                Some(tc) => {
                    let found = crate::parsing::generate_tags(tc, new_source);
                    if crate::parsing::tags_fit(&found, new_source.len()) && crate::parsing::tags_in_order(&found) {
                        Some(found)
                    } else {
                        Some(Err("tag range outside the source".to_owned()))
                    }
                },
                None => None,
            };
            let ghost t = tags;
            let res = compact_single_file(path, &ot, &nt, old_source, new_source, &ranges, tags);
            assert(is_tree_compaction(res, path@, ot, nt, old_source@, new_source@, ranges@, t));
            Ok(res)
        },
    }
}

} // verus!
