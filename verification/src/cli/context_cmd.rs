//! The decisions of the `context` command: a budgeted bundle or the full
//! context output of a file, with its symbols when asked for.

use vstd::prelude::*;

use crate::bundle::{bundle_chunks, bundle_fold, omission_message, total_tokens, BundleOptions, BundleOutput, ByTokens};
use crate::chunk::ChunkOutput;
use crate::dup::Duplicate;
use crate::schema::{ChunkRecord, ContextOutput, Diagnostic, DiagnosticLevel, SymbolRecord};
use crate::sort::sort_by_key;
use crate::symbols::SymbolsOutput;
use crate::text::utf8;

verus! {

/// The schema version of context outputs.
pub const CONTEXT_SCHEMA_VERSION: &'static str = "0.1.0";

/// What the context command renders.
#[derive(Debug)]
pub enum ContextRender {
    /// The chunks that fit the budget.
    Budgeted(BundleOutput),
    /// Every chunk, with symbols when asked for.
    Full(ContextOutput),
}

/// Whether `d` is a warning with this message and no context.
pub open spec fn is_warning(d: Diagnostic, m: Seq<char>) -> bool {
    d.level == DiagnosticLevel::Warning && d.message@ == m && d.context is None
}

/// The diagnostics a full context output ends with, after the chunking
/// diagnostics: the symbol diagnostics, or a warning that the language
/// has no tags, when symbols were asked for; then a warning when the file
/// gave no chunk.
pub open spec fn full_tail_ok(
    tail: Seq<Diagnostic>,
    symbols_requested: bool,
    symbols: Option<SymbolsOutput>,
    no_chunks: bool,
) -> bool {
    let s: Seq<Diagnostic> = if symbols_requested {
        match symbols {
            Some(o) => o.diagnostics@,
            None => seq![],
        }
    } else {
        seq![]
    };
    let t: int = if symbols_requested && symbols is None { 1 } else { 0 };
    let e: int = if no_chunks { 1 } else { 0 };
    &&& tail.len() == s.len() + t + e
    &&& tail.take(s.len() as int) == s
    &&& t == 1 ==> is_warning(tail[s.len() as int], "no tags configuration found for this language; symbols omitted"@)
    &&& e == 1 ==> is_warning(
        tail[s.len() + t],
        "no chunk boundaries found; file may be empty or use an unsupported grammar"@,
    )
}

/// Render the context of the file at `path` from its chunking. With a
/// budget, the chunks are bundled under it (at most 100 chunks) and the
/// chunking diagnostics follow the bundle's, with a warning when symbols
/// were asked for, since a budgeted output leaves them out. Without one,
/// every chunk is listed with its totals, then the symbols when they were
/// asked for and the language has tags.
pub fn render_chunks(
    path: &str,
    chunks: ChunkOutput,
    symbols_requested: bool,
    symbols: Option<SymbolsOutput>,
    budget: Option<usize>,
) -> (r: ContextRender)
    requires
        total_tokens(chunks.chunks@) <= usize::MAX,
    ensures
        match budget {
            Some(b) => r matches ContextRender::Budgeted(out) && {
                let st = bundle_fold(sort_by_key::<ChunkRecord, ByTokens>(chunks.chunks@), b as nat, 100);
                let k: int = if st.omitted.len() == 0 { 0 } else { 1 };
                &&& out.included@ == st.included
                &&& out.omitted@ == st.omitted
                &&& out.total_included_tokens == st.total_included
                &&& out.total_omitted_tokens == st.total_omitted
                &&& out.budget == b
                &&& out.diagnostics@.len() == k + chunks.diagnostics@.len() + if symbols_requested { 1int } else { 0 }
                &&& k == 1 ==> out.diagnostics@[0].level == DiagnosticLevel::Info && out.diagnostics@[0].context is None
                    && utf8(out.diagnostics@[0].message@) == omission_message(st.omitted.len(), st.total_included, b as nat)
                &&& out.diagnostics@.subrange(k, k + chunks.diagnostics@.len()) == chunks.diagnostics@
                &&& symbols_requested ==> is_warning(
                    out.diagnostics@.last(),
                    "symbols are omitted from budgeted context output"@,
                )
            },
            None => r matches ContextRender::Full(o) && {
                &&& o.chunks@ == chunks.chunks@
                &&& o.meta.schema_version@ == CONTEXT_SCHEMA_VERSION@
                &&& o.meta.source_path matches Some(p) && p@ == path@
                &&& o.meta.total_chunks == chunks.chunks@.len()
                &&& o.meta.total_estimated_tokens == total_tokens(chunks.chunks@)
                &&& o.symbols@ == if symbols_requested {
                    match symbols {
                        Some(s) => s.symbols@,
                        None => seq![],
                    }
                } else {
                    seq![]
                }
                &&& o.diagnostics@.take(chunks.diagnostics@.len() as int) == chunks.diagnostics@
                &&& full_tail_ok(
                    o.diagnostics@.skip(chunks.diagnostics@.len() as int),
                    symbols_requested,
                    symbols,
                    chunks.chunks@.len() == 0,
                )
            },
        },
{
    let ghost syms0 = symbols;
    let ChunkOutput { chunks: cs, diagnostics: chunk_diags } = chunks;
    let ghost cd = chunk_diags@;
    match budget {
        Some(b) => {
            let mut out = bundle_chunks(cs, &BundleOptions { max_tokens: b, max_chunks: 100 });
            let ghost d0 = out.diagnostics@;
            let ghost i0 = out.included@;
            let ghost o0 = out.omitted@;
            let ghost ti = out.total_included_tokens;
            let ghost tom = out.total_omitted_tokens;
            let ghost bb = out.budget;
            let mut i: usize = 0;
            while i < chunk_diags.len()
                invariant
                    i <= cd.len(),
                    chunk_diags@ == cd,
                    out.included@ == i0,
                    out.omitted@ == o0,
                    out.total_included_tokens == ti,
                    out.total_omitted_tokens == tom,
                    out.budget == bb,
                    out.diagnostics@ == d0 + cd.take(i as int),
                decreases cd.len() - i,
            {
                out.diagnostics.push(chunk_diags[i].dup());
                i = i + 1;
                assert(out.diagnostics@ =~= d0 + cd.take(i as int));
            }
            assert(cd.take(cd.len() as int) =~= cd);
            if symbols_requested {
                out.diagnostics.push(Diagnostic::warn("symbols are omitted from budgeted context output"));
            }
            assert(out.diagnostics@.subrange(d0.len() as int, (d0.len() + cd.len()) as int) =~= cd);
            proof {
                if d0.len() == 1 {
                    assert(out.diagnostics@[0] == d0[0]);
                }
            }
            ContextRender::Budgeted(out)
        },
        None => {
            let mut o = ContextOutput::new(CONTEXT_SCHEMA_VERSION).with_source_path(path);
            let ghost all = cs@;
            let mut rest = cs;
            let mut k: usize = 0;
            let n = rest.len();
            while rest.len() > 0
                invariant
                    k + rest@.len() == all.len(),
                    n == all.len(),
                    rest@ == all.subrange(k as int, all.len() as int),
                    o.chunks@ == all.take(k as int),
                    o.meta.total_chunks == k,
                    o.meta.total_estimated_tokens == total_tokens(all.take(k as int)),
                    o.meta.schema_version@ == CONTEXT_SCHEMA_VERSION@,
                    o.meta.source_path matches Some(p) && p@ == path@,
                    o.symbols@.len() == 0,
                    o.diagnostics@.len() == 0,
                    total_tokens(all) <= usize::MAX,
                decreases rest@.len(),
            {
                let c = rest.remove(0);
                assert(c == all[k as int]);
                proof {
                    assert(all.take(k + 1).drop_last() =~= all.take(k as int));
                    crate::bundle::lemma_total_tokens_take(all, k + 1);
                }
                o.push_chunk(c);
                k = k + 1;
                assert(rest@ =~= all.subrange(k as int, all.len() as int));
                assert(o.chunks@ =~= all.take(k as int));
            }
            assert(all.take(all.len() as int) =~= all);
            let mut i: usize = 0;
            while i < chunk_diags.len()
                invariant
                    i <= cd.len(),
                    chunk_diags@ == cd,
                    o.diagnostics@ == cd.take(i as int),
                    o.chunks@ == all,
                    o.symbols@.len() == 0,
                    o.meta.total_chunks == all.len(),
                    o.meta.total_estimated_tokens == total_tokens(all),
                    o.meta.schema_version@ == CONTEXT_SCHEMA_VERSION@,
                    o.meta.source_path matches Some(p) && p@ == path@,
                decreases cd.len() - i,
            {
                o.push_diagnostic(chunk_diags[i].dup());
                i = i + 1;
                assert(o.diagnostics@ =~= cd.take(i as int));
            }
            assert(cd.take(cd.len() as int) =~= cd);
            let ghost before_symbols = o.diagnostics@;
            if symbols_requested {
                match symbols {
                    Some(s) => {
                        let ghost sv = s.symbols@;
                        let SymbolsOutput { symbols: syms, diagnostics: sym_diags } = s;
                        o.symbols = syms;
                        let mut j: usize = 0;
                        while j < sym_diags.len()
                            invariant
                                j <= sym_diags@.len(),
                                o.diagnostics@ == before_symbols + sym_diags@.take(j as int),
                                o.chunks@ == all,
                                o.symbols@ == sv,
                                o.meta.total_chunks == all.len(),
                                o.meta.total_estimated_tokens == total_tokens(all),
                                o.meta.schema_version@ == CONTEXT_SCHEMA_VERSION@,
                                o.meta.source_path matches Some(p) && p@ == path@,
                            decreases sym_diags@.len() - j,
                        {
                            o.push_diagnostic(sym_diags[j].dup());
                            j = j + 1;
                            assert(o.diagnostics@ =~= before_symbols + sym_diags@.take(j as int));
                        }
                        assert(sym_diags@.take(sym_diags@.len() as int) =~= sym_diags@);
                    },
                    None => {
                        o.push_diagnostic(Diagnostic::warn("no tags configuration found for this language; symbols omitted"));
                    },
                }
            }
            if o.meta.total_chunks == 0 {
                o.push_diagnostic(
                    Diagnostic::warn("no chunk boundaries found; file may be empty or use an unsupported grammar"),
                );
            }
            proof {
                let tail = o.diagnostics@.skip(cd.len() as int);
                assert(o.diagnostics@.take(cd.len() as int) =~= cd);
                let s: Seq<Diagnostic> = if symbols_requested {
                    match syms0 {
                        Some(x) => x.diagnostics@,
                        None => seq![],
                    }
                } else {
                    seq![]
                };
                assert(tail.take(s.len() as int) =~= s);
            }
            ContextRender::Full(o)
        },
    }
}

} // verus!
