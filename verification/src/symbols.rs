//! Symbol extraction options and output.

use vstd::prelude::*;

use vstd::string::StringExecFns;

use crate::schema::{ByteRange, Confidence, Diagnostic, DiagnosticLevel, SymbolRecord};
use crate::text::{
    copy_opt_string, copy_string, decimal, lemma_decimal_valid_utf8, lemma_utf8_valid, lit, push_decimal, push_str,
    slice_range, str_from_utf8, string_from_utf8, utf8,
};

verus! {

/// Options for symbol extraction.
#[derive(Clone, Debug)]
pub struct SymbolOptions {
    pub max_docs_len: usize,
    /// Maximum number of symbols to extract. Additional tags are skipped.
    pub max_symbols: usize,
}

impl Default for SymbolOptions {
    fn default() -> (o: Self)
        ensures
            o.max_docs_len == 1000,
            o.max_symbols == 1000,
    {
        SymbolOptions { max_docs_len: 1_000, max_symbols: 1_000 }
    }
}

/// Output from a symbol extraction pass.
#[derive(Clone, Debug)]
pub struct SymbolsOutput {
    pub symbols: Vec<SymbolRecord>,
    pub diagnostics: Vec<Diagnostic>,
}

/// What the tags query reports of one tag, with its syntax type named.
#[derive(Clone, Debug)]
pub struct TagInfo {
    pub range: ByteRange,
    pub name_range: ByteRange,
    pub line_range: ByteRange,
    pub docs: Option<String>,
    pub is_definition: bool,
    pub syntax_type: String,
}

/// The name of a tag: the UTF-8 text of its name range, or empty when
/// that is not UTF-8.
pub open spec fn tag_name(source: Seq<u8>, t: TagInfo) -> Seq<char> {
    let b = source.subrange(t.name_range.start as int, t.name_range.end as int);
    if vstd::utf8::valid_utf8(b) {
        vstd::utf8::decode_utf8(b)
    } else {
        seq![]
    }
}

/// Whether `r` is the symbol record of tag `t` in the file at `path`.
pub open spec fn is_record_of(r: SymbolRecord, t: TagInfo, source: Seq<u8>, path: Seq<char>) -> bool {
    &&& r.name@ == tag_name(source, t)
    &&& r.syntax_type == t.syntax_type
    &&& r.byte_range == t.range
    &&& r.lines == t.line_range
    &&& r.docs == t.docs
    &&& r.is_definition == t.is_definition
    &&& r.path@ == path
    &&& r.confidence == Confidence::Exact
}

/// The tags before the symbol limit is reached: the number of tags
/// looked at, the positions of the well-formed ones kept, and whether the
/// limit stopped the walk.
pub open spec fn tags_taken(tags: Seq<Result<TagInfo, String>>, max: nat) -> (nat, Seq<int>, bool)
    decreases tags.len(),
{
    if tags.len() == 0 {
        (0, seq![], false)
    } else {
        let (n, kept, stopped) = tags_taken(tags.drop_last(), max);
        if stopped {
            (n, kept, true)
        } else if kept.len() >= max {
            (n, kept, true)
        } else if tags.last() is Ok {
            (n + 1, kept.push(tags.len() - 1), false)
        } else {
            (n + 1, kept, false)
        }
    }
}

/// Symbol `k` is the record of the `k`-th kept tag.
pub open spec fn records_at(
    tags: Seq<Result<TagInfo, String>>,
    kept: Seq<int>,
    r: SymbolRecord,
    k: int,
    source: Seq<u8>,
    path: Seq<char>,
) -> bool {
    tags[kept[k]] is Ok && is_record_of(r, tags[kept[k]]->Ok_0, source, path)
}

/// The message of a malformed tag.
pub open spec fn malformed_message(e: Seq<char>) -> Seq<char> {
    "skipping malformed tag: "@ + e
}

/// The message of the symbol limit.
pub open spec fn limit_message(max: nat) -> Seq<u8> {
    lit("symbol limit (") + decimal(max) + lit(") reached; additional tags were skipped")
}

fn limit_diagnostic(max: usize) -> (d: Diagnostic)
    ensures
        d.level == DiagnosticLevel::Warning,
        utf8(d.message@) == limit_message(max as nat),
        d.context is None,
{
    let mut m: Vec<u8> = Vec::new();
    push_str(&mut m, "symbol limit (");
    push_decimal(&mut m, max);
    push_str(&mut m, ") reached; additional tags were skipped");
    proof {
        let a = lit("symbol limit (");
        let b = decimal(max as nat);
        let c = lit(") reached; additional tags were skipped");
        lemma_utf8_valid("symbol limit ("@);
        lemma_utf8_valid(") reached; additional tags were skipped"@);
        lemma_decimal_valid_utf8(max as nat);
        vstd::utf8::valid_utf8_concat(a, b);
        vstd::utf8::valid_utf8_concat(a + b, c);
    }
    Diagnostic::with_level(DiagnosticLevel::Warning, string_from_utf8(m))
}

/// Every name range lies within the source.
pub open spec fn name_ranges_within(tags: Seq<Result<TagInfo, String>>, len: nat) -> bool {
    forall|i: int|
        0 <= i < tags.len() ==> (#[trigger] tags[i] matches Ok(t) ==> t.name_range.start <= t.name_range.end
            && t.name_range.end <= len)
}

fn record_of(t: &TagInfo, source: &[u8], path: &str) -> (r: SymbolRecord)
    requires
        t.name_range.start <= t.name_range.end <= source@.len(),
    ensures
        is_record_of(r, *t, source@, path@),
{
    let bytes = slice_range(source, t.name_range.start, t.name_range.end);
    let name = match str_from_utf8(bytes.as_slice()) {
        Some(s) => {
            proof {
                vstd::utf8::encode_utf8_decode_utf8(s@);
            }
            s
        },
        None => String::new(),
    };
    SymbolRecord {
        name,
        syntax_type: copy_string(&t.syntax_type),
        byte_range: t.range,
        lines: t.line_range,
        docs: copy_opt_string(&t.docs),
        is_definition: t.is_definition,
        path: path.to_owned(),
        confidence: Confidence::Exact,
    }
}

/// `out` is what the tags give for the file at `path`: a failed query
/// gives no symbol and an error; otherwise the records of the tags taken.
pub open spec fn is_symbols_of(
    out: SymbolsOutput,
    path: Seq<char>,
    source: Seq<u8>,
    tags: Result<Vec<Result<TagInfo, String>>, String>,
    opts: SymbolOptions,
) -> bool {
    match tags {
        Err(e) => out.symbols@.len() == 0 && out.diagnostics@.len() == 1 && out.diagnostics@[0].level
            == DiagnosticLevel::Error && out.diagnostics@[0].message@ == "tags query failed: "@ + e@
            && out.diagnostics@[0].context is None,
        Ok(ts) => {
            let (n, kept, stopped) = tags_taken(ts@, opts.max_symbols as nat);
            &&& out.symbols@.len() == kept.len()
            &&& forall|k: int| 0 <= k < kept.len() ==> 0 <= #[trigger] kept[k] < ts@.len()
            &&& forall|k: int| 0 <= k < out.symbols@.len() ==> records_at(ts@, kept, #[trigger] out.symbols@[k], k, source, path)
            &&& out.diagnostics@.len() == (n - kept.len()) + if stopped { 1int } else { 0 }
        },
    }
}

/// Turn the tags of the file at `path` into symbol records: a failed
/// query gives no symbol and an error; otherwise tags are taken in order
/// until `max_symbols` symbols are kept, when a warning notes the limit,
/// and a malformed tag is skipped with a warning.
pub fn symbols_from_tags(
    path: &str,
    source: &[u8],
    tags: Result<Vec<Result<TagInfo, String>>, String>,
    opts: &SymbolOptions,
) -> (out: SymbolsOutput)
    requires
        tags matches Ok(ts) ==> name_ranges_within(ts@, source@.len()),
    ensures
        is_symbols_of(out, path@, source@, tags, *opts),
        match tags {
            Err(e) => out.symbols@.len() == 0 && out.diagnostics@.len() == 1 && out.diagnostics@[0].level
                == DiagnosticLevel::Error && out.diagnostics@[0].message@ == "tags query failed: "@ + e@
                && out.diagnostics@[0].context is None,
            Ok(ts) => {
                let (n, kept, stopped) = tags_taken(ts@, opts.max_symbols as nat);
                &&& out.symbols@.len() == kept.len()
                &&& forall|k: int| 0 <= k < kept.len() ==> 0 <= #[trigger] kept[k] < ts@.len()
                &&& forall|k: int| 0 <= k < out.symbols@.len() ==> records_at(ts@, kept, #[trigger] out.symbols@[k], k, source@, path@)
                &&& out.diagnostics@.len() == (n - kept.len()) + if stopped { 1int } else { 0 }
            },
        },
{
    match tags {
        Err(e) => {
            let message = "tags query failed: ".to_owned().concat(e.as_str());
            let mut diagnostics: Vec<Diagnostic> = Vec::new();
            diagnostics.push(Diagnostic::with_level(DiagnosticLevel::Error, message));
            SymbolsOutput { symbols: Vec::new(), diagnostics }
        },
        Ok(ts) => {
            let ghost all = ts@;
            let mut symbols: Vec<SymbolRecord> = Vec::new();
            let mut diagnostics: Vec<Diagnostic> = Vec::new();
            let mut i: usize = 0;
            let mut stopped = false;
            while i < ts.len() && !stopped
                invariant
                    i <= all.len(),
                    ts@ == all,
                    name_ranges_within(all, source@.len()),
                    stopped == tags_taken(all.take(i as int), opts.max_symbols as nat).2,
                    symbols@.len() == tags_taken(all.take(i as int), opts.max_symbols as nat).1.len(),
                    forall|k: int|
                        0 <= k < tags_taken(all.take(i as int), opts.max_symbols as nat).1.len() ==> 0
                            <= #[trigger] tags_taken(all.take(i as int), opts.max_symbols as nat).1[k] < i,
                    forall|k: int|
                        0 <= k < symbols@.len() ==> records_at(
                            all,
                            tags_taken(all.take(i as int), opts.max_symbols as nat).1,
                            #[trigger] symbols@[k],
                            k,
                            source@,
                            path@,
                        ),
                    diagnostics@.len() == (tags_taken(all.take(i as int), opts.max_symbols as nat).0
                        - tags_taken(all.take(i as int), opts.max_symbols as nat).1.len()) + if stopped {
                        1int
                    } else {
                        0
                    },
                decreases all.len() - i,
            {
                proof {
                    assert(all.take(i + 1).drop_last() =~= all.take(i as int));
                    assert(all.take(i + 1).last() == all[i as int]);
                    assert(all.take(i + 1).len() == i + 1);
                }
                let ghost prev = tags_taken(all.take(i as int), opts.max_symbols as nat);
                let ghost next = tags_taken(all.take(i + 1), opts.max_symbols as nat);
                let ghost prev_syms = symbols@;
                if symbols.len() >= opts.max_symbols {
                    diagnostics.push(limit_diagnostic(opts.max_symbols));
                    stopped = true;
                    assert(next == (prev.0, prev.1, true));
                } else {
                    match &ts[i] {
                        Ok(t) => {
                            proof {
                                assert(all[i as int] matches Ok(tt) ==> tt.name_range.start <= tt.name_range.end
                                    && tt.name_range.end <= source@.len());
                            }
                            symbols.push(record_of(t, source, path));
                            proof {
                                assert(next == (prev.0 + 1, prev.1.push(i as int), false));
                                let (n2, kept2, st2) = tags_taken(all.take(i + 1), opts.max_symbols as nat);
                                assert forall|k: int| 0 <= k < symbols@.len() implies records_at(all, kept2, #[trigger] symbols@[k], k, source@, path@) by {
                                    if k < prev.1.len() {
                                        assert(symbols@[k] == prev_syms[k]);
                                    }
                                }
                            }
                        },
                        Err(e) => {
                            diagnostics.push(
                                Diagnostic::with_level(
                                    DiagnosticLevel::Warning,
                                    "skipping malformed tag: ".to_owned().concat(e.as_str()),
                                ),
                            );
                            assert(next == (prev.0 + 1, prev.1, false));
                        },
                    }
                }
                i = i + 1;
            }
            proof {
                if stopped {
                    lemma_tags_taken_stops(all, opts.max_symbols as nat, i as int);
                } else {
                    assert(all.take(all.len() as int) =~= all);
                }
            }
            SymbolsOutput { symbols, diagnostics }
        },
    }
}

/// Once the walk stops, the tags after it change nothing.
proof fn lemma_tags_taken_stops(tags: Seq<Result<TagInfo, String>>, max: nat, i: int)
    requires
        0 <= i <= tags.len(),
        tags_taken(tags.take(i), max).2,
    ensures
        tags_taken(tags, max) == tags_taken(tags.take(i), max),
    decreases tags.len() - i,
{
    if i < tags.len() {
        assert(tags.take(i + 1).drop_last() =~= tags.take(i));
        lemma_tags_taken_stops(tags, max, i + 1);
    } else {
        assert(tags.take(i) =~= tags);
    }
}

} // verus!

verus! {

/// `out` is what `symbols_from_tags` makes of some tags whose name ranges
/// lie within the source.
pub open spec fn is_tagged_symbols(out: SymbolsOutput, path: Seq<char>, source: Seq<u8>, opts: SymbolOptions) -> bool {
    exists|tags: Result<Vec<Result<TagInfo, String>>, String>|
        (tags matches Ok(ts) ==> name_ranges_within(ts@, source.len())) && #[trigger] is_symbols_of(
            out,
            path,
            source,
            tags,
            opts,
        )
}

/// Extract the symbols of the file at `path` with a grammar's tags query
/// run on `source`. When a tag names a range outside the source, which no
/// record can read, the query counts as failed with the message `tag range
/// outside the source`. Whatever tags the query gives, the output is what
/// `symbols_from_tags` makes of them.
pub fn symbols_for_tree(
    path: &str,
    source: &[u8],
    config: &tree_sitter_tags::TagsConfiguration,
    opts: &SymbolOptions,
) -> (out: SymbolsOutput)
    ensures
        is_tagged_symbols(out, path@, source@, *opts),
{
    let found = crate::parsing::generate_tags(config, source);
    let tags = if crate::parsing::tags_fit(&found, source.len()) {
        found
    } else {
        Err("tag range outside the source".to_owned())
    };
    let ghost t = tags;
    let out = symbols_from_tags(path, source, tags, opts);
    assert(is_symbols_of(out, path@, source@, t, *opts));
    out
}

} // verus!
