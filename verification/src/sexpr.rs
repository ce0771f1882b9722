//! Canonical S-expression serializer: deterministic, byte-stable output
//! for bundle results, invalidation outputs and orientation blocks.

use vstd::prelude::*;

pub mod invalidation;
pub mod orientation;

pub use self::invalidation::invalidation_to_sexpr;
pub use self::orientation::orientation_to_sexpr;

use crate::dup::dup_vec;
use crate::protocol::{
    confidence_name, AmbiguousStableId, AstCell, Bundle, BundleResult, Candidate, Exhausted,
    NotFound, OmittedChunk, Provenance, UnknownCrossFile,
};
use crate::sort::{lemma_sort_sorted, sort_by_key, sort_stable, sorted_by, total_preorder, KeyOrder};
use crate::text::{decimal, escape_body, lemma_bytes_not_after, lemma_escape_no_control, lemma_utf8_ascii_first, lit, push_decimal, push_quoted, push_str, quoted, str_less, str_lt, utf8};

verus! {

/// A newline.
pub open spec fn nl() -> Seq<u8> {
    seq![10u8]
}

/// Two spaces per level of depth.
pub open spec fn ind(d: nat) -> Seq<u8>
    decreases d,
{
    if d == 0 {
        seq![]
    } else {
        ind((d - 1) as nat) + lit("  ")
    }
}

/// `(key "value")` at a depth, with the value quoted and escaped; `key`
/// holds the opening parenthesis, the name and a space.
pub open spec fn qfield(d: nat, key: &str, value: Seq<char>) -> Seq<u8> {
    ind(d) + lit(key) + quoted(value) + lit(")")
}

/// `(key n)` at a depth.
pub open spec fn nfield(d: nat, key: &str, n: nat) -> Seq<u8> {
    ind(d) + lit(key) + decimal(n) + lit(")")
}

/// A parenthesized list: `head`, then each item on a line of its own and
/// the closing parenthesis on a line at the head's depth; when `compact`
/// holds and there is no item, the list closes on the head's line.
#[verifier::opaque]
pub open spec fn list(d: nat, head: &str, items: Seq<u8>, compact: bool) -> Seq<u8> {
    if compact {
        ind(d) + lit(head) + lit(")")
    } else {
        ind(d) + lit(head) + items + nl() + ind(d) + lit(")")
    }
}

pub fn push_indent(out: &mut Vec<u8>, d: usize)
    ensures
        final(out)@ == old(out)@ + ind(d as nat),
{
    let mut i: usize = 0;
    while i < d
        invariant
            i <= d,
            out@ == old(out)@ + ind(i as nat),
        decreases d - i,
    {
        push_str(out, "  ");
        i = i + 1;
    }
}

pub fn push_nl(out: &mut Vec<u8>)
    ensures
        final(out)@ == old(out)@ + nl(),
{
    out.push(10u8);
}

pub fn push_qfield(out: &mut Vec<u8>, d: usize, key: &str, value: &str)
    ensures
        final(out)@ == old(out)@ + qfield(d as nat, key, value@),
{
    push_indent(out, d);
    push_str(out, key);
    push_quoted(out, value);
    push_str(out, ")");
    assert(out@ =~= old(out)@ + qfield(d as nat, key, value@));
}

pub fn push_nfield(out: &mut Vec<u8>, d: usize, key: &str, n: usize)
    ensures
        final(out)@ == old(out)@ + nfield(d as nat, key, n as nat),
{
    push_indent(out, d);
    push_str(out, key);
    push_decimal(out, n);
    push_str(out, ")");
    assert(out@ =~= old(out)@ + nfield(d as nat, key, n as nat));
}

/// A line closing a form: indentation and `)`.
#[verifier::opaque]
pub open spec fn close(d: nat) -> Seq<u8> {
    ind(d) + lit(")")
}

pub fn push_close(out: &mut Vec<u8>, d: usize)
    ensures
        final(out)@ == old(out)@ + close(d as nat),
{
    reveal(close);
    push_indent(out, d);
    push_str(out, ")");
}

/// The opening of a form: indentation, `head`, newline.
#[verifier::opaque]
pub open spec fn open_form(d: nat, head: &str) -> Seq<u8> {
    ind(d) + lit(head) + nl()
}

pub fn push_open_form(out: &mut Vec<u8>, d: usize, head: &str)
    ensures
        final(out)@ == old(out)@ + open_form(d as nat, head),
{
    reveal(open_form);
    push_indent(out, d);
    push_str(out, head);
    push_nl(out);
}

/// A quoted field followed by a newline.
#[verifier::opaque]
pub open spec fn qline(d: nat, key: &str, value: Seq<char>) -> Seq<u8> {
    qfield(d, key, value) + nl()
}

pub fn push_qline(out: &mut Vec<u8>, d: usize, key: &str, value: &str)
    ensures
        final(out)@ == old(out)@ + qline(d as nat, key, value@),
{
    reveal(qline);
    push_qfield(out, d, key, value);
    push_nl(out);
}

/// A numeric field followed by a newline.
#[verifier::opaque]
pub open spec fn nline(d: nat, key: &str, n: nat) -> Seq<u8> {
    nfield(d, key, n) + nl()
}

pub fn push_nline(out: &mut Vec<u8>, d: usize, key: &str, n: usize)
    ensures
        final(out)@ == old(out)@ + nline(d as nat, key, n as nat),
{
    reveal(nline);
    push_nfield(out, d, key, n);
    push_nl(out);
}

/// An unquoted field `(key word)` followed by a newline.
#[verifier::opaque]
pub open spec fn wline(d: nat, key: &str, word: Seq<char>) -> Seq<u8> {
    ind(d) + lit(key) + utf8(word) + lit(")") + nl()
}

pub fn push_wline(out: &mut Vec<u8>, d: usize, key: &str, word: &str)
    ensures
        final(out)@ == old(out)@ + wline(d as nat, key, word@),
{
    reveal(wline);
    push_indent(out, d);
    push_str(out, key);
    push_str(out, word);
    push_str(out, ")");
    push_nl(out);
    assert(out@ =~= old(out)@ + wline(d as nat, key, word@));
}

/// A line `(key a b)`.
#[verifier::opaque]
pub open spec fn range_line(d: nat, key: &str, a: nat, b: nat) -> Seq<u8> {
    ind(d) + lit(key) + decimal(a) + lit(" ") + decimal(b) + lit(")") + nl()
}

pub fn push_range_line(out: &mut Vec<u8>, d: usize, key: &str, a: usize, b: usize)
    ensures
        final(out)@ == old(out)@ + range_line(d as nat, key, a as nat, b as nat),
{
    reveal(range_line);
    push_indent(out, d);
    push_str(out, key);
    push_decimal(out, a);
    push_str(out, " ");
    push_decimal(out, b);
    push_str(out, ")");
    push_nl(out);
    assert(out@ =~= old(out)@ + range_line(d as nat, key, a as nat, b as nat));
}

/// Order by stable identifier (string order).
pub struct CellsByStableId;

impl KeyOrder<AstCell> for CellsByStableId {
    open spec fn before(a: AstCell, b: AstCell) -> bool {
        !str_lt(b.stable_id@, a.stable_id@)
    }

    fn before_exec(a: &AstCell, b: &AstCell) -> (r: bool) {
        !str_less(b.stable_id.as_str(), a.stable_id.as_str())
    }
}

/// Order by stable identifier (string order).
pub struct OmittedByStableId;

impl KeyOrder<OmittedChunk> for OmittedByStableId {
    open spec fn before(a: OmittedChunk, b: OmittedChunk) -> bool {
        !str_lt(b.stable_id@, a.stable_id@)
    }

    fn before_exec(a: &OmittedChunk, b: &OmittedChunk) -> (r: bool) {
        !str_less(b.stable_id.as_str(), a.stable_id.as_str())
    }
}

/// Order by anchor byte, then by kind.
pub struct CandidatesByAnchor;

impl KeyOrder<Candidate> for CandidatesByAnchor {
    open spec fn before(a: Candidate, b: Candidate) -> bool {
        a.anchor_byte < b.anchor_byte || (a.anchor_byte == b.anchor_byte && !str_lt(b.kind@, a.kind@))
    }

    fn before_exec(a: &Candidate, b: &Candidate) -> (r: bool) {
        a.anchor_byte < b.anchor_byte || (a.anchor_byte == b.anchor_byte && !str_less(
            b.kind.as_str(),
            a.kind.as_str(),
        ))
    }
}

/// Cells, omitted chunks and candidates are each ordered by a total preorder.
pub proof fn lemma_bundle_orders_total()
    ensures
        total_preorder::<AstCell, CellsByStableId>(),
        total_preorder::<OmittedChunk, OmittedByStableId>(),
        total_preorder::<Candidate, CandidatesByAnchor>(),
{
    assert forall|a: AstCell, b: AstCell| #[trigger] CellsByStableId::before(a, b) || CellsByStableId::before(b, a) by {
        lemma_bytes_not_after(utf8(a.stable_id@), utf8(b.stable_id@), utf8(b.stable_id@));
    }
    assert forall|a: AstCell, b: AstCell, c: AstCell|
        #[trigger] CellsByStableId::before(a, b) && #[trigger] CellsByStableId::before(b, c) implies CellsByStableId::before(
        a,
        c,
    ) by {
        lemma_bytes_not_after(utf8(a.stable_id@), utf8(b.stable_id@), utf8(c.stable_id@));
    }
    assert forall|a: OmittedChunk, b: OmittedChunk|
        #[trigger] OmittedByStableId::before(a, b) || OmittedByStableId::before(b, a) by {
        lemma_bytes_not_after(utf8(a.stable_id@), utf8(b.stable_id@), utf8(b.stable_id@));
    }
    assert forall|a: OmittedChunk, b: OmittedChunk, c: OmittedChunk|
        #[trigger] OmittedByStableId::before(a, b) && #[trigger] OmittedByStableId::before(b, c) implies OmittedByStableId::before(
        a,
        c,
    ) by {
        lemma_bytes_not_after(utf8(a.stable_id@), utf8(b.stable_id@), utf8(c.stable_id@));
    }
    assert forall|a: Candidate, b: Candidate|
        #[trigger] CandidatesByAnchor::before(a, b) || CandidatesByAnchor::before(b, a) by {
        lemma_bytes_not_after(utf8(a.kind@), utf8(b.kind@), utf8(b.kind@));
    }
    assert forall|a: Candidate, b: Candidate, c: Candidate|
        #[trigger] CandidatesByAnchor::before(a, b) && #[trigger] CandidatesByAnchor::before(b, c) implies CandidatesByAnchor::before(
        a,
        c,
    ) by {
        lemma_bytes_not_after(utf8(a.kind@), utf8(b.kind@), utf8(c.kind@));
    }
}

/// A bundle prints its cells and its omitted chunks in stable-identifier
/// order, and ambiguous candidates by anchor byte, then kind: each of
/// these sorted sequences is in order.
pub proof fn lemma_printed_orders(cells: Seq<AstCell>, omitted: Seq<OmittedChunk>, candidates: Seq<Candidate>)
    ensures
        sorted_by::<AstCell, CellsByStableId>(sort_by_key::<AstCell, CellsByStableId>(cells)),
        sorted_by::<OmittedChunk, OmittedByStableId>(sort_by_key::<OmittedChunk, OmittedByStableId>(omitted)),
        sorted_by::<Candidate, CandidatesByAnchor>(sort_by_key::<Candidate, CandidatesByAnchor>(candidates)),
{
    lemma_bundle_orders_total();
    lemma_sort_sorted::<AstCell, CellsByStableId>(cells);
    lemma_sort_sorted::<OmittedChunk, OmittedByStableId>(omitted);
    lemma_sort_sorted::<Candidate, CandidatesByAnchor>(candidates);
}

/// An optional `(name "…")` line.
#[verifier::opaque]
pub open spec fn name_line(d: nat, name: Option<String>) -> Seq<u8> {
    match name {
        Some(n) => qfield(d, "(name ", n@) + nl(),
        None => seq![],
    }
}

pub fn push_name_line(out: &mut Vec<u8>, d: usize, name: &Option<String>)
    ensures
        final(out)@ == old(out)@ + name_line(d as nat, *name),
{
    reveal(name_line);
    match name {
        Some(n) => {
            push_qfield(out, d, "(name ", n.as_str());
            push_nl(out);
        },
        None => {
            assert(out@ =~= old(out)@ + name_line(d as nat, *name));
        },
    }
}

/// A bundle cell.
#[verifier::opaque]
pub open spec fn cell_sexpr(c: AstCell, d: nat) -> Seq<u8> {
    open_form(d, "(cell") + qline(d + 1, "(stable_id ", c.stable_id@) + qline(d + 1, "(kind ", c.kind@)
        + name_line(d + 1, c.name) + range_line(
        d + 1,
        "(range ",
        c.byte_range.0 as nat,
        c.byte_range.1 as nat,
    ) + nline(d + 1, "(estimated_tokens ", c.estimated_tokens as nat) + wline(
        d + 1,
        "(confidence ",
        confidence_name(c.confidence),
    ) + close(d)
}

fn push_cell(out: &mut Vec<u8>, c: &AstCell, d: usize)
    requires
        d < usize::MAX,
    ensures
        final(out)@ == old(out)@ + cell_sexpr(*c, d as nat),
{
    reveal(cell_sexpr);
    push_open_form(out, d, "(cell");
    push_qline(out, d + 1, "(stable_id ", c.stable_id.as_str());
    push_qline(out, d + 1, "(kind ", c.kind.as_str());
    push_name_line(out, d + 1, &c.name);
    push_range_line(out, d + 1, "(range ", c.byte_range.0, c.byte_range.1);
    push_nline(out, d + 1, "(estimated_tokens ", c.estimated_tokens);
    push_wline(out, d + 1, "(confidence ", c.confidence.as_str());
    push_close(out, d);
    assert(out@ =~= old(out)@ + cell_sexpr(*c, d as nat));
}

/// The cells of a list, each on a line of its own.
pub open spec fn cell_items(s: Seq<AstCell>, d: nat) -> Seq<u8>
    decreases s.len(),
{
    if s.len() == 0 {
        seq![]
    } else {
        cell_items(s.drop_last(), d) + nl() + cell_sexpr(s.last(), d)
    }
}

fn push_cell_items(out: &mut Vec<u8>, s: &Vec<AstCell>, d: usize)
    requires
        d < usize::MAX,
    ensures
        final(out)@ == old(out)@ + cell_items(s@, d as nat),
{
    let mut i: usize = 0;
    while i < s.len()
        invariant
            i <= s@.len(),
            d < usize::MAX,
            out@ == old(out)@ + cell_items(s@.take(i as int), d as nat),
        decreases s@.len() - i,
    {
        push_nl(out);
        push_cell(out, &s[i], d);
        proof {
            assert(s@.take(i + 1).drop_last() =~= s@.take(i as int));
        }
        i = i + 1;
    }
    assert(s@.take(s@.len() as int) =~= s@);
}

/// An omitted chunk.
#[verifier::opaque]
pub open spec fn omitted_sexpr(o: OmittedChunk, d: nat) -> Seq<u8> {
    open_form(d, "(omitted_chunk") + qline(d + 1, "(stable_id ", o.stable_id@) + qline(
        d + 1,
        "(reason ",
        o.reason@,
    ) + close(d)
}

fn push_omitted(out: &mut Vec<u8>, o: &OmittedChunk, d: usize)
    requires
        d < usize::MAX,
    ensures
        final(out)@ == old(out)@ + omitted_sexpr(*o, d as nat),
{
    reveal(omitted_sexpr);
    push_open_form(out, d, "(omitted_chunk");
    push_qline(out, d + 1, "(stable_id ", o.stable_id.as_str());
    push_qline(out, d + 1, "(reason ", o.reason.as_str());
    push_close(out, d);
    assert(out@ =~= old(out)@ + omitted_sexpr(*o, d as nat));
}

/// The omitted chunks of a list, each on a line of its own.
pub open spec fn omitted_items(s: Seq<OmittedChunk>, d: nat) -> Seq<u8>
    decreases s.len(),
{
    if s.len() == 0 {
        seq![]
    } else {
        omitted_items(s.drop_last(), d) + nl() + omitted_sexpr(s.last(), d)
    }
}

fn push_omitted_items(out: &mut Vec<u8>, s: &Vec<OmittedChunk>, d: usize)
    requires
        d < usize::MAX,
    ensures
        final(out)@ == old(out)@ + omitted_items(s@, d as nat),
{
    let mut i: usize = 0;
    while i < s.len()
        invariant
            i <= s@.len(),
            d < usize::MAX,
            out@ == old(out)@ + omitted_items(s@.take(i as int), d as nat),
        decreases s@.len() - i,
    {
        push_nl(out);
        push_omitted(out, &s[i], d);
        proof {
            assert(s@.take(i + 1).drop_last() =~= s@.take(i as int));
        }
        i = i + 1;
    }
    assert(s@.take(s@.len() as int) =~= s@);
}

/// A candidate of an ambiguous identifier.
#[verifier::opaque]
pub open spec fn candidate_sexpr(c: Candidate, d: nat) -> Seq<u8> {
    open_form(d, "(candidate") + nline(d + 1, "(anchor_byte ", c.anchor_byte as nat) + qline(
        d + 1,
        "(kind ",
        c.kind@,
    ) + name_line(d + 1, c.name) + close(d)
}

fn push_candidate(out: &mut Vec<u8>, c: &Candidate, d: usize)
    requires
        d < usize::MAX,
    ensures
        final(out)@ == old(out)@ + candidate_sexpr(*c, d as nat),
{
    reveal(candidate_sexpr);
    push_open_form(out, d, "(candidate");
    push_nline(out, d + 1, "(anchor_byte ", c.anchor_byte);
    push_qline(out, d + 1, "(kind ", c.kind.as_str());
    push_name_line(out, d + 1, &c.name);
    push_close(out, d);
    assert(out@ =~= old(out)@ + candidate_sexpr(*c, d as nat));
}

/// The candidates of a list, each on a line of its own.
pub open spec fn candidate_items(s: Seq<Candidate>, d: nat) -> Seq<u8>
    decreases s.len(),
{
    if s.len() == 0 {
        seq![]
    } else {
        candidate_items(s.drop_last(), d) + nl() + candidate_sexpr(s.last(), d)
    }
}

fn push_candidate_items(out: &mut Vec<u8>, s: &Vec<Candidate>, d: usize)
    requires
        d < usize::MAX,
    ensures
        final(out)@ == old(out)@ + candidate_items(s@, d as nat),
{
    let mut i: usize = 0;
    while i < s.len()
        invariant
            i <= s@.len(),
            d < usize::MAX,
            out@ == old(out)@ + candidate_items(s@.take(i as int), d as nat),
        decreases s@.len() - i,
    {
        push_nl(out);
        push_candidate(out, &s[i], d);
        proof {
            assert(s@.take(i + 1).drop_last() =~= s@.take(i as int));
        }
        i = i + 1;
    }
    assert(s@.take(s@.len() as int) =~= s@);
}

/// Provenance of a result.
#[verifier::opaque]
pub open spec fn provenance_sexpr(p: Provenance, d: nat) -> Seq<u8> {
    open_form(d, "(provenance") + qline(d + 1, "(strategy ", p.strategy@) + wline(
        d + 1,
        "(confidence ",
        confidence_name(p.confidence),
    ) + qline(d + 1, "(graph_snapshot_id ", p.graph_snapshot_id@) + qline(
        d + 1,
        "(orientation_freshness ",
        p.orientation_freshness@,
    ) + close(d)
}

fn push_provenance(out: &mut Vec<u8>, p: &Provenance, d: usize)
    requires
        d < usize::MAX,
    ensures
        final(out)@ == old(out)@ + provenance_sexpr(*p, d as nat),
{
    reveal(provenance_sexpr);
    push_open_form(out, d, "(provenance");
    push_qline(out, d + 1, "(strategy ", p.strategy.as_str());
    push_wline(out, d + 1, "(confidence ", p.confidence.as_str());
    push_qline(out, d + 1, "(graph_snapshot_id ", p.graph_snapshot_id.as_str());
    push_qline(out, d + 1, "(orientation_freshness ", p.orientation_freshness.as_str());
    push_close(out, d);
    assert(out@ =~= old(out)@ + provenance_sexpr(*p, d as nat));
}

/// A successful bundle: cells and omitted chunks sorted by stable identifier.
pub open spec fn bundle_sexpr(b: Bundle, d: nat) -> Seq<u8> {
    let cells = sort_by_key::<AstCell, CellsByStableId>(b.cells@);
    let omitted = sort_by_key::<OmittedChunk, OmittedByStableId>(b.omitted@);
    open_form(d, "(bundle") + nline(d + 1, "(version ", b.version as nat) + qline(d + 1, "(path ", b.path@)
        + list(d + 1, "(cells", cell_items(cells, d + 2), cells.len() == 0) + nl() + list(
        d + 1,
        "(omitted",
        omitted_items(omitted, d + 2),
        omitted.len() == 0,
    ) + nl() + provenance_sexpr(b.provenance, d + 1) + nl() + close(d)
}

fn push_cell_list(out: &mut Vec<u8>, cells: &Vec<AstCell>, d: usize)
    requires
        d + 1 < usize::MAX,
    ensures
        final(out)@ == old(out)@ + list(d as nat, "(cells", cell_items(cells@, (d + 1) as nat), cells@.len() == 0),
{
    reveal(list);
    push_indent(out, d);
    push_str(out, "(cells");
    if cells.len() == 0 {
        push_str(out, ")");
    } else {
        push_cell_items(out, cells, d + 1);
        push_nl(out);
        push_indent(out, d);
        push_str(out, ")");
    }
    assert(out@ =~= old(out)@ + list(d as nat, "(cells", cell_items(cells@, (d + 1) as nat), cells@.len() == 0));
}

fn push_omitted_list(out: &mut Vec<u8>, omitted: &Vec<OmittedChunk>, d: usize, compact: bool)
    requires
        d + 1 < usize::MAX,
    ensures
        final(out)@ == old(out)@ + list(
            d as nat,
            "(omitted",
            omitted_items(omitted@, (d + 1) as nat),
            compact && omitted@.len() == 0,
        ),
{
    reveal(list);
    push_indent(out, d);
    push_str(out, "(omitted");
    if compact && omitted.len() == 0 {
        push_str(out, ")");
    } else {
        push_omitted_items(out, omitted, d + 1);
        push_nl(out);
        push_indent(out, d);
        push_str(out, ")");
    }
    assert(out@ =~= old(out)@ + list(
        d as nat,
        "(omitted",
        omitted_items(omitted@, (d + 1) as nat),
        compact && omitted@.len() == 0,
    ));
}

fn push_bundle(out: &mut Vec<u8>, b: &Bundle, d: usize)
    requires
        d + 2 < usize::MAX,
    ensures
        final(out)@ == old(out)@ + bundle_sexpr(*b, d as nat),
{
    let cells = sort_stable::<AstCell, CellsByStableId>(dup_vec(&b.cells));
    let omitted = sort_stable::<OmittedChunk, OmittedByStableId>(dup_vec(&b.omitted));
    push_open_form(out, d, "(bundle");
    push_nline(out, d + 1, "(version ", b.version as usize);
    push_qline(out, d + 1, "(path ", b.path.as_str());
    push_cell_list(out, &cells, d + 1);
    push_nl(out);
    push_omitted_list(out, &omitted, d + 1, true);
    push_nl(out);
    push_provenance(out, &b.provenance, d + 1);
    push_nl(out);
    push_close(out, d);
    assert(out@ =~= old(out)@ + bundle_sexpr(*b, d as nat));
}

/// A not-found result.
#[verifier::opaque]
pub open spec fn not_found_sexpr(n: NotFound, d: nat) -> Seq<u8> {
    open_form(d, "(not_found") + qline(d + 1, "(path ", n.path@) + qline(d + 1, "(stable_id ", n.stable_id@)
        + qline(d + 1, "(reason ", n.reason@) + provenance_sexpr(n.provenance, d + 1) + nl() + close(d)
}

fn push_not_found(out: &mut Vec<u8>, n: &NotFound, d: usize)
    requires
        d + 1 < usize::MAX,
    ensures
        final(out)@ == old(out)@ + not_found_sexpr(*n, d as nat),
{
    reveal(not_found_sexpr);
    push_open_form(out, d, "(not_found");
    push_qline(out, d + 1, "(path ", n.path.as_str());
    push_qline(out, d + 1, "(stable_id ", n.stable_id.as_str());
    push_qline(out, d + 1, "(reason ", n.reason.as_str());
    push_provenance(out, &n.provenance, d + 1);
    push_nl(out);
    push_close(out, d);
    assert(out@ =~= old(out)@ + not_found_sexpr(*n, d as nat));
}

/// An ambiguous-identifier result: candidates sorted by anchor byte, then kind.
#[verifier::opaque]
pub open spec fn ambiguous_sexpr(a: AmbiguousStableId, d: nat) -> Seq<u8> {
    let cands = sort_by_key::<Candidate, CandidatesByAnchor>(a.candidates@);
    open_form(d, "(ambiguous_stable_id") + qline(d + 1, "(path ", a.path@) + qline(
        d + 1,
        "(stable_id ",
        a.stable_id@,
    ) + list(d + 1, "(candidates", candidate_items(cands, d + 2), false) + nl() + qline(
        d + 1,
        "(reason ",
        a.reason@,
    ) + provenance_sexpr(a.provenance, d + 1) + nl() + close(d)
}

fn push_candidate_list(out: &mut Vec<u8>, cands: &Vec<Candidate>, d: usize)
    requires
        d + 1 < usize::MAX,
    ensures
        final(out)@ == old(out)@ + list(d as nat, "(candidates", candidate_items(cands@, (d + 1) as nat), false),
{
    reveal(list);
    push_indent(out, d);
    push_str(out, "(candidates");
    push_candidate_items(out, cands, d + 1);
    push_nl(out);
    push_indent(out, d);
    push_str(out, ")");
    assert(out@ =~= old(out)@ + list(d as nat, "(candidates", candidate_items(cands@, (d + 1) as nat), false));
}

fn push_ambiguous(out: &mut Vec<u8>, a: &AmbiguousStableId, d: usize)
    requires
        d + 2 < usize::MAX,
    ensures
        final(out)@ == old(out)@ + ambiguous_sexpr(*a, d as nat),
{
    reveal(ambiguous_sexpr);
    let cands = sort_stable::<Candidate, CandidatesByAnchor>(dup_vec(&a.candidates));
    push_open_form(out, d, "(ambiguous_stable_id");
    push_qline(out, d + 1, "(path ", a.path.as_str());
    push_qline(out, d + 1, "(stable_id ", a.stable_id.as_str());
    push_candidate_list(out, &cands, d + 1);
    push_nl(out);
    push_qline(out, d + 1, "(reason ", a.reason.as_str());
    push_provenance(out, &a.provenance, d + 1);
    push_nl(out);
    push_close(out, d);
    assert(out@ =~= old(out)@ + ambiguous_sexpr(*a, d as nat));
}

/// An exhausted-budget result: omitted chunks sorted by stable identifier.
#[verifier::opaque]
pub open spec fn exhausted_sexpr(e: Exhausted, d: nat) -> Seq<u8> {
    let omitted = sort_by_key::<OmittedChunk, OmittedByStableId>(e.omitted@);
    open_form(d, "(exhausted") + qline(d + 1, "(path ", e.path@) + qline(d + 1, "(stable_id ", e.stable_id@)
        + list(d + 1, "(omitted", omitted_items(omitted, d + 2), false) + nl() + provenance_sexpr(
        e.provenance,
        d + 1,
    ) + nl() + close(d)
}

fn push_exhausted(out: &mut Vec<u8>, e: &Exhausted, d: usize)
    requires
        d + 2 < usize::MAX,
    ensures
        final(out)@ == old(out)@ + exhausted_sexpr(*e, d as nat),
{
    reveal(exhausted_sexpr);
    let omitted = sort_stable::<OmittedChunk, OmittedByStableId>(dup_vec(&e.omitted));
    push_open_form(out, d, "(exhausted");
    push_qline(out, d + 1, "(path ", e.path.as_str());
    push_qline(out, d + 1, "(stable_id ", e.stable_id.as_str());
    push_omitted_list(out, &omitted, d + 1, false);
    push_nl(out);
    push_provenance(out, &e.provenance, d + 1);
    push_nl(out);
    push_close(out, d);
    assert(out@ =~= old(out)@ + exhausted_sexpr(*e, d as nat));
}

/// An unknown cross-file result.
#[verifier::opaque]
pub open spec fn unknown_cross_file_sexpr(u: UnknownCrossFile, d: nat) -> Seq<u8> {
    open_form(d, "(unknown_cross_file") + qline(d + 1, "(path ", u.path@) + qline(
        d + 1,
        "(stable_id ",
        u.stable_id@,
    ) + qline(d + 1, "(reason ", u.reason@) + close(d)
}

fn push_unknown_cross_file(out: &mut Vec<u8>, u: &UnknownCrossFile, d: usize)
    requires
        d + 1 < usize::MAX,
    ensures
        final(out)@ == old(out)@ + unknown_cross_file_sexpr(*u, d as nat),
{
    reveal(unknown_cross_file_sexpr);
    push_open_form(out, d, "(unknown_cross_file");
    push_qline(out, d + 1, "(path ", u.path.as_str());
    push_qline(out, d + 1, "(stable_id ", u.stable_id.as_str());
    push_qline(out, d + 1, "(reason ", u.reason.as_str());
    push_close(out, d);
    assert(out@ =~= old(out)@ + unknown_cross_file_sexpr(*u, d as nat));
}

/// The canonical form of any bundle result.
pub open spec fn result_sexpr(r: BundleResult, d: nat) -> Seq<u8> {
    match r {
        BundleResult::Bundle(b) => bundle_sexpr(b, d),
        BundleResult::NotFound(n) => not_found_sexpr(n, d),
        BundleResult::AmbiguousStableId(a) => ambiguous_sexpr(a, d),
        BundleResult::Exhausted(e) => exhausted_sexpr(e, d),
        BundleResult::UnknownCrossFile(u) => unknown_cross_file_sexpr(u, d),
    }
}

/// The head that the form of a bundle result opens with.
pub open spec fn result_head(r: BundleResult) -> Seq<u8> {
    match r {
        BundleResult::Bundle(_) => lit("(bundle"),
        BundleResult::NotFound(_) => lit("(not_found"),
        BundleResult::AmbiguousStableId(_) => lit("(ambiguous_stable_id"),
        BundleResult::Exhausted(_) => lit("(exhausted"),
        BundleResult::UnknownCrossFile(_) => lit("(unknown_cross_file"),
    }
}

/// The form of a bundle result opens with its head on a line of its own
/// and, with its final newline, ends in `)` and a newline.
pub proof fn lemma_result_frame(r: BundleResult)
    ensures
        ({
            let b = result_sexpr(r, 0) + nl();
            let head = result_head(r) + nl();
            let tail = lit(")") + nl();
            &&& b.len() >= head.len() + tail.len()
            &&& b.take(head.len() as int) == head
            &&& b.skip(b.len() - tail.len()) == tail
        }),
{
    reveal(open_form);
    reveal(close);
    reveal(not_found_sexpr);
    reveal(ambiguous_sexpr);
    reveal(exhausted_sexpr);
    reveal(unknown_cross_file_sexpr);
    assert(ind(0) =~= Seq::<u8>::empty());
    let x = result_sexpr(r, 0);
    let b = x + nl();
    let head = result_head(r) + nl();
    let tail = lit(")") + nl();
    assert(x.take(head.len() as int) =~= head);
    assert(x.skip(x.len() - lit(")").len()) =~= lit(")"));
    assert(b.take(head.len() as int) =~= head);
    assert(b.skip(b.len() - tail.len()) =~= tail);
}

/// The first byte of a head, and the whole of `)`, in UTF-8.
proof fn lemma_frame_bytes(r: BundleResult)
    ensures
        result_head(r).len() > 0,
        result_head(r)[0] == 0x28u8,
        lit(")") == seq![0x29u8],
{
    reveal_strlit("(bundle");
    reveal_strlit("(not_found");
    reveal_strlit("(ambiguous_stable_id");
    reveal_strlit("(exhausted");
    reveal_strlit("(unknown_cross_file");
    reveal_strlit(")");
    match r {
        BundleResult::Bundle(_) => lemma_utf8_ascii_first("(bundle"@, 0x28u8),
        BundleResult::NotFound(_) => lemma_utf8_ascii_first("(not_found"@, 0x28u8),
        BundleResult::AmbiguousStableId(_) => lemma_utf8_ascii_first("(ambiguous_stable_id"@, 0x28u8),
        BundleResult::Exhausted(_) => lemma_utf8_ascii_first("(exhausted"@, 0x28u8),
        BundleResult::UnknownCrossFile(_) => lemma_utf8_ascii_first("(unknown_cross_file"@, 0x28u8),
    }
    lemma_utf8_ascii_first(")"@, 0x29u8);
    assert(")"@.drop_first().len() == 0);
    assert(utf8(")"@.drop_first()) == Seq::<u8>::empty());
    assert(lit(")") =~= seq![0x29u8]);
}

/// The rendered form of a bundle result, whatever the order of its
/// lists: it starts with `(` and ends with `)` and a newline; a bundle
/// prints its cells and omitted chunks in stable-identifier order, an
/// exhausted result its omitted chunks likewise, and an ambiguous one its
/// candidates by anchor byte, then kind; and every string value is
/// quoted with its escapes (`quoted`), which leave no control byte in it.
pub proof fn lemma_rendering(r: BundleResult)
    ensures
        ({
            let b = result_sexpr(r, 0) + nl();
            &&& b.len() >= 2
            &&& b[0] == 0x28u8
            &&& b[b.len() - 2] == 0x29u8
            &&& b[b.len() - 1] == 0x0au8
        }),
        r matches BundleResult::Bundle(x) ==> sorted_by::<AstCell, CellsByStableId>(
            sort_by_key::<AstCell, CellsByStableId>(x.cells@),
        ) && sorted_by::<OmittedChunk, OmittedByStableId>(sort_by_key::<OmittedChunk, OmittedByStableId>(x.omitted@)),
        r matches BundleResult::Exhausted(x) ==> sorted_by::<OmittedChunk, OmittedByStableId>(
            sort_by_key::<OmittedChunk, OmittedByStableId>(x.omitted@),
        ),
        r matches BundleResult::AmbiguousStableId(x) ==> sorted_by::<Candidate, CandidatesByAnchor>(
            sort_by_key::<Candidate, CandidatesByAnchor>(x.candidates@),
        ),
        forall|s: Seq<char>, i: int|
            0 < i < quoted(s).len() - 1 ==> #[trigger] quoted(s)[i] >= 0x20u8 && quoted(s)[i] != 0x7fu8,
{
    lemma_result_frame(r);
    lemma_frame_bytes(r);
    let b = result_sexpr(r, 0) + nl();
    let head = result_head(r) + nl();
    let tail = lit(")") + nl();
    assert(b[0] == b.take(head.len() as int)[0]);
    assert(b[b.len() - 2] == b.skip(b.len() - tail.len())[0]);
    assert(b[b.len() - 1] == b.skip(b.len() - tail.len())[1]);
    match r {
        BundleResult::Bundle(x) => lemma_printed_orders(x.cells@, x.omitted@, seq![]),
        BundleResult::Exhausted(x) => lemma_printed_orders(seq![], x.omitted@, seq![]),
        BundleResult::AmbiguousStableId(x) => lemma_printed_orders(seq![], seq![], x.candidates@),
        _ => {},
    }
    assert forall|s: Seq<char>, i: int| 0 < i < quoted(s).len() - 1 implies #[trigger] quoted(s)[i] >= 0x20u8
        && quoted(s)[i] != 0x7fu8 by {
        let e = escape_body(utf8(s));
        lemma_escape_no_control(utf8(s));
        assert(quoted(s)[i] == e[i - 1]);
    }
}

/// An I/O error of the standard library.
#[verifier::external_type_specification]
#[verifier::external_body]
pub struct ExIoError(std::io::Error);

/// Serialize a bundle result to canonical S-expression bytes, ending in a newline.
pub fn serialize(result: &BundleResult) -> (r: std::io::Result<Vec<u8>>)
    ensures
        r matches Ok(bytes) && bytes@ == result_sexpr(*result, 0) + nl(),
{
    let mut buf: Vec<u8> = Vec::new();
    match result {
        BundleResult::Bundle(b) => push_bundle(&mut buf, b, 0),
        BundleResult::NotFound(n) => push_not_found(&mut buf, n, 0),
        BundleResult::AmbiguousStableId(a) => push_ambiguous(&mut buf, a, 0),
        BundleResult::Exhausted(e) => push_exhausted(&mut buf, e, 0),
        BundleResult::UnknownCrossFile(u) => push_unknown_cross_file(&mut buf, u, 0),
    }
    push_nl(&mut buf);
    assert(buf@ =~= result_sexpr(*result, 0) + nl());
    Ok(buf)
}

} // verus!
