//! The outline of a file: one symbol per chunk, and its canonical
//! S-expression form.

use vstd::prelude::*;

use crate::bundle::total_tokens;
use crate::chunk::ChunkOutput;
use crate::schema::{ChunkRecord, Diagnostic, OutputMeta};
use crate::sexpr::{
    close, name_line, nl, nline, open_form, push_close, push_indent, push_name_line, push_nl, push_nline,
    push_open_form, push_qline, push_range_line, qline, range_line, ind,
};
use crate::sort::{lemma_sort_len, sort_by_key, sort_stable, KeyOrder};
use crate::text::{copy_opt_string, copy_string, lit, push_str, str_less, str_lt};

verus! {

/// The outline schema version.
pub const OUTLINE_SCHEMA_VERSION: &'static str = "0.2.0";

/// A single symbol in the outline.
#[derive(Debug, PartialEq, Eq)]
pub struct OutlineSymbol {
    pub stable_id: String,
    pub kind: String,
    pub name: Option<String>,
    pub byte_range: (usize, usize),
    pub signature_hash: String,
    pub body_hash: String,
}

/// The outline of a file.
#[derive(Debug)]
pub struct OutlineOutput {
    pub schema_version: String,
    pub snapshot_id: String,
    pub symbols: Vec<OutlineSymbol>,
    pub diagnostics: Vec<Diagnostic>,
    pub meta: OutputMeta,
}

/// The outline symbol of a chunk.
pub open spec fn symbol_of(c: ChunkRecord) -> OutlineSymbol {
    OutlineSymbol {
        stable_id: c.stable_id.0,
        kind: c.kind,
        name: c.name,
        byte_range: (c.byte_range.start, c.byte_range.end),
        signature_hash: c.signature_hash,
        body_hash: c.body_hash,
    }
}

impl OutlineSymbol {
    /// A copy of this symbol.
    pub fn copy(&self) -> (r: Self)
        ensures
            r == *self,
    {
        OutlineSymbol {
            stable_id: copy_string(&self.stable_id),
            kind: copy_string(&self.kind),
            name: copy_opt_string(&self.name),
            byte_range: self.byte_range,
            signature_hash: copy_string(&self.signature_hash),
            body_hash: copy_string(&self.body_hash),
        }
    }
}

/// The outline of a file at `path` whose chunking gave `chunks`, under
/// the snapshot identifier it was cached with: one symbol per chunk, in
/// chunk order, with the chunking diagnostics.
pub fn build_outline(snapshot_id: String, path: &str, chunks: ChunkOutput) -> (o: OutlineOutput)
    requires
        total_tokens(chunks.chunks@) <= usize::MAX,
    ensures
        o.schema_version@ == OUTLINE_SCHEMA_VERSION@,
        o.snapshot_id == snapshot_id,
        o.symbols@ == chunks.chunks@.map_values(|c: ChunkRecord| symbol_of(c)),
        o.diagnostics@ == chunks.diagnostics@,
        o.meta.schema_version@ == OUTLINE_SCHEMA_VERSION@,
        o.meta.source_path matches Some(p) && p@ == path@,
        o.meta.total_chunks == chunks.chunks@.len(),
        o.meta.total_estimated_tokens == total_tokens(chunks.chunks@),
{
    let ChunkOutput { chunks: cs, diagnostics } = chunks;
    let mut symbols: Vec<OutlineSymbol> = Vec::new();
    let mut tokens: usize = 0;
    let mut i: usize = 0;
    while i < cs.len()
        invariant
            i <= cs@.len(),
            symbols@ == cs@.take(i as int).map_values(|c: ChunkRecord| symbol_of(c)),
            tokens == total_tokens(cs@.take(i as int)),
            total_tokens(cs@) <= usize::MAX,
        decreases cs@.len() - i,
    {
        let c = &cs[i];
        proof {
            assert(cs@.take(i + 1).drop_last() =~= cs@.take(i as int));
            crate::bundle::lemma_total_tokens_take(cs@, i + 1);
        }
        symbols.push(
            OutlineSymbol {
                stable_id: copy_string(&c.stable_id.0),
                kind: copy_string(&c.kind),
                name: copy_opt_string(&c.name),
                byte_range: (c.byte_range.start, c.byte_range.end),
                signature_hash: copy_string(&c.signature_hash),
                body_hash: copy_string(&c.body_hash),
            },
        );
        tokens = tokens + c.estimated_tokens;
        i = i + 1;
        assert(symbols@ =~= cs@.take(i as int).map_values(|c: ChunkRecord| symbol_of(c)));
    }
    assert(cs@.take(cs@.len() as int) =~= cs@);
    let total = cs.len();
    OutlineOutput {
        schema_version: OUTLINE_SCHEMA_VERSION.to_owned(),
        snapshot_id,
        symbols,
        diagnostics,
        meta: OutputMeta {
            schema_version: OUTLINE_SCHEMA_VERSION.to_owned(),
            source_path: Some(path.to_owned()),
            total_chunks: total,
            total_estimated_tokens: tokens,
        },
    }
}

/// Order symbols by stable identifier.
pub struct SymbolsById;

impl KeyOrder<OutlineSymbol> for SymbolsById {
    open spec fn before(a: OutlineSymbol, b: OutlineSymbol) -> bool {
        !str_lt(b.stable_id@, a.stable_id@)
    }

    fn before_exec(a: &OutlineSymbol, b: &OutlineSymbol) -> (r: bool) {
        !str_less(b.stable_id.as_str(), a.stable_id.as_str())
    }
}

/// One outline symbol.
#[verifier::opaque]
pub open spec fn symbol_sexpr(s: OutlineSymbol, d: nat) -> Seq<u8> {
    open_form(d, "(symbol") + qline(d + 1, "(stable_id ", s.stable_id@) + qline(d + 1, "(kind ", s.kind@)
        + name_line(d + 1, s.name) + range_line(d + 1, "(byte_range ", s.byte_range.0 as nat, s.byte_range.1 as nat)
        + qline(d + 1, "(signature_hash ", s.signature_hash@) + qline(d + 1, "(body_hash ", s.body_hash@) + close(d)
}

/// Symbols, each on its own line after a newline.
pub open spec fn symbol_items(s: Seq<OutlineSymbol>, d: nat) -> Seq<u8>
    decreases s.len(),
{
    if s.len() == 0 {
        seq![]
    } else {
        symbol_items(s.drop_last(), d) + nl() + symbol_sexpr(s.last(), d)
    }
}

/// The symbols list, sorted by stable identifier.
#[verifier::opaque]
pub open spec fn symbols_form(s: Seq<OutlineSymbol>, d: nat) -> Seq<u8> {
    if s.len() == 0 {
        ind(d) + lit("(symbols)")
    } else {
        ind(d) + lit("(symbols") + symbol_items(sort_by_key::<OutlineSymbol, SymbolsById>(s), d + 1) + nl() + ind(d)
            + lit(")")
    }
}

/// The meta form of an outline.
#[verifier::opaque]
pub open spec fn outline_meta(m: OutputMeta, d: nat) -> Seq<u8> {
    open_form(d, "(meta") + match m.source_path {
        Some(p) => qline(d + 1, "(source_path ", p@),
        None => seq![],
    } + nline(d + 1, "(total_symbols ", m.total_chunks as nat) + close(d)
}

/// The canonical form of an outline.
pub open spec fn outline_sexpr(o: OutlineOutput, d: nat) -> Seq<u8> {
    open_form(d, "(outline") + qline(d + 1, "(schema_version ", o.schema_version@) + qline(
        d + 1,
        "(snapshot_id ",
        o.snapshot_id@,
    ) + symbols_form(o.symbols@, d + 1) + nl() + outline_meta(o.meta, d + 1) + nl() + close(d)
}

fn push_symbol(out: &mut Vec<u8>, s: &OutlineSymbol, d: usize)
    requires
        d < usize::MAX,
    ensures
        final(out)@ == old(out)@ + symbol_sexpr(*s, d as nat),
{
    reveal(symbol_sexpr);
    push_open_form(out, d, "(symbol");
    push_qline(out, d + 1, "(stable_id ", s.stable_id.as_str());
    push_qline(out, d + 1, "(kind ", s.kind.as_str());
    push_name_line(out, d + 1, &s.name);
    push_range_line(out, d + 1, "(byte_range ", s.byte_range.0, s.byte_range.1);
    push_qline(out, d + 1, "(signature_hash ", s.signature_hash.as_str());
    push_qline(out, d + 1, "(body_hash ", s.body_hash.as_str());
    push_close(out, d);
    assert(out@ =~= old(out)@ + symbol_sexpr(*s, d as nat));
}

fn copy_symbols(s: &Vec<OutlineSymbol>) -> (r: Vec<OutlineSymbol>)
    ensures
        r@ == s@,
{
    let mut r: Vec<OutlineSymbol> = Vec::new();
    let mut i: usize = 0;
    while i < s.len()
        invariant
            i <= s@.len(),
            r@ == s@.take(i as int),
        decreases s@.len() - i,
    {
        r.push(s[i].copy());
        i = i + 1;
        assert(r@ =~= s@.take(i as int));
    }
    assert(s@.take(s@.len() as int) =~= s@);
    r
}

fn push_symbols_form(out: &mut Vec<u8>, s: &Vec<OutlineSymbol>, d: usize)
    requires
        d + 2 < usize::MAX,
    ensures
        final(out)@ == old(out)@ + symbols_form(s@, d as nat),
{
    reveal(symbols_form);
    push_indent(out, d);
    if s.len() == 0 {
        push_str(out, "(symbols)");
    } else {
        push_str(out, "(symbols");
        let sorted = sort_stable::<OutlineSymbol, SymbolsById>(copy_symbols(s));
        let ghost pre = out@;
        let mut i: usize = 0;
        while i < sorted.len()
            invariant
                i <= sorted@.len(),
                d + 2 < usize::MAX,
                out@ == pre + symbol_items(sorted@.take(i as int), (d + 1) as nat),
            decreases sorted@.len() - i,
        {
            push_nl(out);
            push_symbol(out, &sorted[i], d + 1);
            proof {
                assert(sorted@.take(i + 1).drop_last() =~= sorted@.take(i as int));
            }
            i = i + 1;
        }
        assert(sorted@.take(sorted@.len() as int) =~= sorted@);
        push_nl(out);
        push_indent(out, d);
        push_str(out, ")");
    }
    assert(out@ =~= old(out)@ + symbols_form(s@, d as nat));
}

fn push_outline_meta(out: &mut Vec<u8>, m: &OutputMeta, d: usize)
    requires
        d < usize::MAX,
    ensures
        final(out)@ == old(out)@ + outline_meta(*m, d as nat),
{
    reveal(outline_meta);
    push_open_form(out, d, "(meta");
    if let Some(p) = &m.source_path {
        push_qline(out, d + 1, "(source_path ", p.as_str());
    }
    push_nline(out, d + 1, "(total_symbols ", m.total_chunks);
    push_close(out, d);
    assert(out@ =~= old(out)@ + outline_meta(*m, d as nat));
}

/// Serialize an outline to canonical S-expression bytes, ending in a
/// newline. Symbols are listed by stable identifier.
pub fn outline_to_sexpr(output: &OutlineOutput) -> (r: std::io::Result<Vec<u8>>)
    ensures
        r matches Ok(bytes) && bytes@ == outline_sexpr(*output, 0) + nl(),
{
    let mut buf: Vec<u8> = Vec::new();
    push_open_form(&mut buf, 0, "(outline");
    push_qline(&mut buf, 1, "(schema_version ", output.schema_version.as_str());
    push_qline(&mut buf, 1, "(snapshot_id ", output.snapshot_id.as_str());
    push_symbols_form(&mut buf, &output.symbols, 1);
    push_nl(&mut buf);
    push_outline_meta(&mut buf, &output.meta, 1);
    push_nl(&mut buf);
    push_close(&mut buf, 0);
    push_nl(&mut buf);
    assert(buf@ =~= outline_sexpr(*output, 0) + nl());
    Ok(buf)
}

} // verus!
