//! Canonical S-expression form of orientation blocks.

use vstd::prelude::*;

use crate::graph::postprocess::GodNode;
use crate::orientation::{BudgetTruncated, EntryPoint, OrientationBlock, OrientationField, TopReferenced};
use crate::sexpr::{
    close, ind, nl, nline, open_form, push_close, push_indent, push_nl, push_nline, push_open_form, push_qline,
    qline,
};
use crate::text::{decimal, lit, push_decimal, push_quoted, push_str, quoted};

verus! {

/// A most referenced symbol, on its own line after a newline.
#[verifier::opaque]
pub open spec fn top_item(t: TopReferenced, d: nat) -> Seq<u8> {
    nl() + ind(d) + lit("((symbol_path ") + quoted(t.symbol_path@) + lit(")") + lit(" (path ") + quoted(t.path@)
        + lit(")") + lit(" (stable_id ") + quoted(t.stable_id@) + lit(")") + lit(" (inbound_refs ") + decimal(
        t.inbound_refs as nat,
    ) + lit("))")
}

/// An entry point, on its own line after a newline.
#[verifier::opaque]
pub open spec fn entry_item(e: EntryPoint, d: nat) -> Seq<u8> {
    nl() + ind(d) + lit("((symbol_path ") + quoted(e.symbol_path@) + lit(")") + lit(" (path ") + quoted(e.path@)
        + lit(")") + lit(" (stable_id ") + quoted(e.stable_id@) + lit("))")
}

/// A god-node, on its own line after a newline.
#[verifier::opaque]
pub open spec fn god_item(g: GodNode, d: nat) -> Seq<u8> {
    nl() + ind(d) + lit("((rank ") + decimal(g.rank as nat) + lit(") (stable_id ") + quoted(g.stable_id@) + lit(
        ") (path ",
    ) + quoted(g.path@) + lit("))")
}

/// The items of a list, in order.
pub open spec fn top_items(s: Seq<TopReferenced>, d: nat) -> Seq<u8>
    decreases s.len(),
{
    if s.len() == 0 {
        seq![]
    } else {
        top_items(s.drop_last(), d) + top_item(s.last(), d)
    }
}

/// The items of a list, in order.
pub open spec fn entry_items(s: Seq<EntryPoint>, d: nat) -> Seq<u8>
    decreases s.len(),
{
    if s.len() == 0 {
        seq![]
    } else {
        entry_items(s.drop_last(), d) + entry_item(s.last(), d)
    }
}

/// The items of a list, in order.
pub open spec fn god_items(s: Seq<GodNode>, d: nat) -> Seq<u8>
    decreases s.len(),
{
    if s.len() == 0 {
        seq![]
    } else {
        god_items(s.drop_last(), d) + god_item(s.last(), d)
    }
}

/// A list that closes on its head line when empty, and otherwise on a
/// line of its own.
pub open spec fn block_list(d: nat, head: &str, items: Seq<u8>, empty: bool) -> Seq<u8> {
    if empty {
        ind(d) + lit(head) + lit(")")
    } else {
        ind(d) + lit(head) + items + nl() + ind(d) + lit(")")
    }
}

/// The god-node field.
#[verifier::opaque]
pub open spec fn god_field(f: OrientationField, d: nat) -> Seq<u8> {
    match f {
        OrientationField::PostprocessUnavailable => ind(d) + lit("(god_nodes postprocess_unavailable)"),
        OrientationField::Computed { status, nodes } => ind(d) + lit("(god_nodes (computation_status ") + quoted(
            status@,
        ) + lit(")") + god_items(nodes@, d + 1) + lit(")"),
    }
}

/// The omitted parts, each after a space.
pub open spec fn omitted_words(s: Seq<String>) -> Seq<u8>
    decreases s.len(),
{
    if s.len() == 0 {
        seq![]
    } else {
        omitted_words(s.drop_last()) + lit(" ") + quoted(s.last()@)
    }
}

/// The budget truncation line, after a newline, when there is one.
#[verifier::opaque]
pub open spec fn truncation_part(t: Option<BudgetTruncated>, d: nat) -> Seq<u8> {
    match t {
        Some(bt) => nl() + ind(d) + lit("(budget_truncated true (reason ") + quoted(bt.reason@) + lit(") (omitted")
            + omitted_words(bt.omitted@) + lit("))"),
        None => seq![],
    }
}

/// The stats form.
#[verifier::opaque]
pub open spec fn stats_form(b: OrientationBlock, d: nat) -> Seq<u8> {
    open_form(d, "(stats") + nline(d + 1, "(file_count ", b.stats.file_count as nat) + nline(
        d + 1,
        "(symbol_count ",
        b.stats.symbol_count as nat,
    ) + nline(d + 1, "(language_count ", b.stats.language_count as nat) + nline(
        d + 1,
        "(edge_count ",
        b.stats.edge_count as nat,
    ) + close(d) + nl()
}

/// The canonical form of an orientation block. The communities and
/// architecture summary are always written as unavailable.
pub open spec fn orientation_sexpr(b: OrientationBlock, d: nat) -> Seq<u8> {
    open_form(d, "(orientation") + qline(d + 1, "(schema_version ", b.schema_version@) + qline(
        d + 1,
        "(graph_snapshot_id ",
        b.graph_snapshot_id.0@,
    ) + stats_form(b, d + 1) + block_list(
        d + 1,
        "(top_referenced",
        top_items(b.top_referenced@, d + 2),
        b.top_referenced@.len() == 0,
    ) + nl() + block_list(d + 1, "(entry_points", entry_items(b.entry_points@, d + 2), b.entry_points@.len() == 0)
        + nl() + god_field(b.god_nodes, d + 1) + nl() + ind(d + 1) + lit("(communities postprocess_unavailable)")
        + nl() + ind(d + 1) + lit("(architecture_summary postprocess_unavailable)") + truncation_part(
        b.budget_truncated,
        d + 1,
    ) + nl() + ind(d) + lit(")")
}

fn push_top_items(out: &mut Vec<u8>, s: &Vec<TopReferenced>, d: usize)
    ensures
        final(out)@ == old(out)@ + top_items(s@, d as nat),
{
    let mut i: usize = 0;
    while i < s.len()
        invariant
            i <= s@.len(),
            out@ == old(out)@ + top_items(s@.take(i as int), d as nat),
        decreases s@.len() - i,
    {
        let t = &s[i];
        let ghost pre = out@;
        push_nl(out);
        push_indent(out, d);
        push_str(out, "((symbol_path ");
        push_quoted(out, t.symbol_path.as_str());
        push_str(out, ")");
        push_str(out, " (path ");
        push_quoted(out, t.path.as_str());
        push_str(out, ")");
        push_str(out, " (stable_id ");
        push_quoted(out, t.stable_id.as_str());
        push_str(out, ")");
        push_str(out, " (inbound_refs ");
        push_decimal(out, t.inbound_refs);
        push_str(out, "))");
        proof {
            reveal(top_item);
            assert(out@ =~= pre + top_item(*t, d as nat));
            assert(s@.take(i + 1).drop_last() =~= s@.take(i as int));
        }
        i = i + 1;
    }
    assert(s@.take(s@.len() as int) =~= s@);
}

fn push_entry_items(out: &mut Vec<u8>, s: &Vec<EntryPoint>, d: usize)
    ensures
        final(out)@ == old(out)@ + entry_items(s@, d as nat),
{
    let mut i: usize = 0;
    while i < s.len()
        invariant
            i <= s@.len(),
            out@ == old(out)@ + entry_items(s@.take(i as int), d as nat),
        decreases s@.len() - i,
    {
        let e = &s[i];
        let ghost pre = out@;
        push_nl(out);
        push_indent(out, d);
        push_str(out, "((symbol_path ");
        push_quoted(out, e.symbol_path.as_str());
        push_str(out, ")");
        push_str(out, " (path ");
        push_quoted(out, e.path.as_str());
        push_str(out, ")");
        push_str(out, " (stable_id ");
        push_quoted(out, e.stable_id.as_str());
        push_str(out, "))");
        proof {
            reveal(entry_item);
            assert(out@ =~= pre + entry_item(*e, d as nat));
            assert(s@.take(i + 1).drop_last() =~= s@.take(i as int));
        }
        i = i + 1;
    }
    assert(s@.take(s@.len() as int) =~= s@);
}

fn push_god_items(out: &mut Vec<u8>, s: &Vec<GodNode>, d: usize)
    ensures
        final(out)@ == old(out)@ + god_items(s@, d as nat),
{
    let mut i: usize = 0;
    while i < s.len()
        invariant
            i <= s@.len(),
            out@ == old(out)@ + god_items(s@.take(i as int), d as nat),
        decreases s@.len() - i,
    {
        let g = &s[i];
        let ghost pre = out@;
        push_nl(out);
        push_indent(out, d);
        push_str(out, "((rank ");
        push_decimal(out, g.rank);
        push_str(out, ") (stable_id ");
        push_quoted(out, g.stable_id.as_str());
        push_str(out, ") (path ");
        push_quoted(out, g.path.as_str());
        push_str(out, "))");
        proof {
            reveal(god_item);
            assert(out@ =~= pre + god_item(*g, d as nat));
            assert(s@.take(i + 1).drop_last() =~= s@.take(i as int));
        }
        i = i + 1;
    }
    assert(s@.take(s@.len() as int) =~= s@);
}

fn push_omitted_words(out: &mut Vec<u8>, s: &Vec<String>)
    ensures
        final(out)@ == old(out)@ + omitted_words(s@),
{
    let mut i: usize = 0;
    while i < s.len()
        invariant
            i <= s@.len(),
            out@ == old(out)@ + omitted_words(s@.take(i as int)),
        decreases s@.len() - i,
    {
        push_str(out, " ");
        push_quoted(out, s[i].as_str());
        proof {
            assert(s@.take(i + 1).drop_last() =~= s@.take(i as int));
        }
        i = i + 1;
    }
    assert(s@.take(s@.len() as int) =~= s@);
}

fn push_god_field(out: &mut Vec<u8>, f: &OrientationField, d: usize)
    requires
        d < usize::MAX,
    ensures
        final(out)@ == old(out)@ + god_field(*f, d as nat),
{
    reveal(god_field);
    push_indent(out, d);
    match f {
        OrientationField::PostprocessUnavailable => {
            push_str(out, "(god_nodes postprocess_unavailable)");
        },
        OrientationField::Computed { status, nodes } => {
            push_str(out, "(god_nodes (computation_status ");
            push_quoted(out, status.as_str());
            push_str(out, ")");
            push_god_items(out, nodes, d + 1);
            push_str(out, ")");
        },
    }
    assert(out@ =~= old(out)@ + god_field(*f, d as nat));
}

fn push_truncation(out: &mut Vec<u8>, t: &Option<BudgetTruncated>, d: usize)
    ensures
        final(out)@ == old(out)@ + truncation_part(*t, d as nat),
{
    reveal(truncation_part);
    match t {
        Some(bt) => {
            push_nl(out);
            push_indent(out, d);
            push_str(out, "(budget_truncated true (reason ");
            push_quoted(out, bt.reason.as_str());
            push_str(out, ") (omitted");
            push_omitted_words(out, &bt.omitted);
            push_str(out, "))");
        },
        None => {},
    }
    assert(out@ =~= old(out)@ + truncation_part(*t, d as nat));
}

fn push_stats(out: &mut Vec<u8>, b: &OrientationBlock, d: usize)
    requires
        d < usize::MAX,
    ensures
        final(out)@ == old(out)@ + stats_form(*b, d as nat),
{
    reveal(stats_form);
    push_open_form(out, d, "(stats");
    push_nline(out, d + 1, "(file_count ", b.stats.file_count);
    push_nline(out, d + 1, "(symbol_count ", b.stats.symbol_count);
    push_nline(out, d + 1, "(language_count ", b.stats.language_count);
    push_nline(out, d + 1, "(edge_count ", b.stats.edge_count);
    push_close(out, d);
    push_nl(out);
    assert(out@ =~= old(out)@ + stats_form(*b, d as nat));
}

fn push_top_list(out: &mut Vec<u8>, s: &Vec<TopReferenced>, d: usize)
    requires
        d < usize::MAX,
    ensures
        final(out)@ == old(out)@ + block_list(d as nat, "(top_referenced", top_items(s@, (d + 1) as nat), s@.len() == 0),
{
    push_indent(out, d);
    push_str(out, "(top_referenced");
    if s.len() == 0 {
        push_str(out, ")");
    } else {
        push_top_items(out, s, d + 1);
        push_nl(out);
        push_indent(out, d);
        push_str(out, ")");
    }
    assert(out@ =~= old(out)@ + block_list(d as nat, "(top_referenced", top_items(s@, (d + 1) as nat), s@.len() == 0));
}

fn push_entry_list(out: &mut Vec<u8>, s: &Vec<EntryPoint>, d: usize)
    requires
        d < usize::MAX,
    ensures
        final(out)@ == old(out)@ + block_list(d as nat, "(entry_points", entry_items(s@, (d + 1) as nat), s@.len() == 0),
{
    push_indent(out, d);
    push_str(out, "(entry_points");
    if s.len() == 0 {
        push_str(out, ")");
    } else {
        push_entry_items(out, s, d + 1);
        push_nl(out);
        push_indent(out, d);
        push_str(out, ")");
    }
    assert(out@ =~= old(out)@ + block_list(d as nat, "(entry_points", entry_items(s@, (d + 1) as nat), s@.len() == 0));
}

/// Serialize an orientation block to canonical S-expression bytes,
/// ending in a newline.
pub fn orientation_to_sexpr(block: &OrientationBlock) -> (r: std::io::Result<Vec<u8>>)
    ensures
        r matches Ok(bytes) && bytes@ == orientation_sexpr(*block, 0) + nl(),
{
    let mut buf: Vec<u8> = Vec::new();
    push_open_form(&mut buf, 0, "(orientation");
    push_qline(&mut buf, 1, "(schema_version ", block.schema_version.as_str());
    push_qline(&mut buf, 1, "(graph_snapshot_id ", block.graph_snapshot_id.0.as_str());
    push_stats(&mut buf, block, 1);
    push_top_list(&mut buf, &block.top_referenced, 1);
    push_nl(&mut buf);
    push_entry_list(&mut buf, &block.entry_points, 1);
    push_nl(&mut buf);
    push_god_field(&mut buf, &block.god_nodes, 1);
    push_nl(&mut buf);
    push_indent(&mut buf, 1);
    push_str(&mut buf, "(communities postprocess_unavailable)");
    push_nl(&mut buf);
    push_indent(&mut buf, 1);
    push_str(&mut buf, "(architecture_summary postprocess_unavailable)");
    push_truncation(&mut buf, &block.budget_truncated, 1);
    push_nl(&mut buf);
    push_indent(&mut buf, 0);
    push_str(&mut buf, ")");
    push_nl(&mut buf);
    assert(buf@ =~= orientation_sexpr(*block, 0) + nl());
    Ok(buf)
}

} // verus!
