//! Chunking of a parsed syntax tree: which nodes become chunks, with
//! what identity, nesting and hashes.

use vstd::prelude::*;

use crate::chunk::{estimate_tokens, is_boundary_kind, is_chunk_boundary_kind, token_estimate, ChunkOptions, ChunkOutput};
use crate::graph::extract::ranges_within;
use crate::identity::{field, fnv_absorb, opt_str_view, stable_id_text, StableDigest, StableId, FNV_OFFSET};
use crate::schema::{copy_opt_chunk_id, ByteRange, ChunkId, ChunkRecord, Confidence, Diagnostic, DiagnosticLevel};
use crate::text::{decimal, lemma_decimal_valid_utf8, lemma_utf8_valid, push_decimal, push_str, bytes_eq, copy_opt_string, copy_string, opt_view, bytes_ends_with, ends_with, hex32, hex32_bytes, lemma_ascii_valid_utf8, lemma_hex_fixed_ascii, lit, push_bytes, slice_range, str_from_utf8, string_from_utf8, utf8};

verus! {

/// A node of a concrete syntax tree, as the parser produced it.
#[derive(Debug)]
pub struct SyntaxNode {
    /// The grammar kind of the node.
    pub kind: String,
    /// First byte of the node in the source.
    pub start_byte: usize,
    /// One past the last byte of the node in the source.
    pub end_byte: usize,
    /// Whether the node is named in the grammar (not punctuation).
    pub is_named: bool,
    /// The field under which the node sits in its parent, if any.
    pub field_name: Option<String>,
    /// All children, named and anonymous, in source order.
    pub children: Vec<SyntaxNode>,
}

/// A parsed source file.
#[derive(Debug)]
pub struct SyntaxTree {
    pub root: SyntaxNode,
    /// Whether the tree holds a syntax error or a missing node.
    pub has_error: bool,
}

/// The node's range lies within a source of `len` bytes, and each child
/// lies within the node, the children in source order.
pub open spec fn spans_ok(n: SyntaxNode, len: nat) -> bool {
    &&& n.start_byte <= n.end_byte <= len
    &&& forall|i: int|
        0 <= i < n.children@.len() ==> n.start_byte <= (#[trigger] n.children@[i]).start_byte
            <= n.children@[i].end_byte <= n.end_byte
    &&& forall|i: int, j: int|
        0 <= i < j < n.children@.len() ==> (#[trigger] n.children@[i]).end_byte
            <= (#[trigger] n.children@[j]).start_byte
}

/// A node at nesting `depth` is well formed for a source of `len` bytes:
/// its spans are in order, the nesting stays below `usize::MAX`, and so
/// on down the tree.
pub open spec fn wf_node(n: SyntaxNode, len: nat, depth: nat) -> bool
    decreases n,
{
    &&& spans_ok(n, len)
    &&& depth < usize::MAX
    &&& forall|i: int|
        0 <= i < n.children@.len() ==> wf_node(#[trigger] n.children@[i], len, depth + 1)
}

/// Whether a node at nesting `depth` is well formed for a source of `len`
/// bytes.
pub fn node_well_formed(n: &SyntaxNode, len: usize, depth: usize) -> (r: bool)
    ensures
        r == wf_node(*n, len as nat, depth as nat),
    decreases *n,
{
    if n.start_byte > n.end_byte || n.end_byte > len || depth == usize::MAX {
        return false;
    }
    let mut i: usize = 0;
    while i < n.children.len()
        invariant
            i <= n.children@.len(),
            n.start_byte <= n.end_byte <= len,
            depth < usize::MAX,
            forall|k: int|
                0 <= k < i ==> n.start_byte <= (#[trigger] n.children@[k]).start_byte <= n.children@[k].end_byte
                    <= n.end_byte,
            forall|k: int, l: int|
                0 <= k < l < i ==> (#[trigger] n.children@[k]).end_byte <= (#[trigger] n.children@[l]).start_byte,
            forall|k: int| 0 <= k < i ==> wf_node(#[trigger] n.children@[k], len as nat, (depth + 1) as nat),
        decreases n.children@.len() - i,
    {
        let c = &n.children[i];
        if c.start_byte < n.start_byte || c.start_byte > c.end_byte || c.end_byte > n.end_byte {
            return false;
        }
        if i > 0 && n.children[i - 1].end_byte > c.start_byte {
            return false;
        }
        if !node_well_formed(c, len, depth + 1) {
            return false;
        }
        i = i + 1;
    }
    assert(spans_ok(*n, len as nat));
    true
}

impl SyntaxTree {
    /// Whether the tree is well formed for a source of `len` bytes, as the
    /// chunker asks of the trees it walks.
    pub fn fits(&self, len: usize) -> (r: bool)
        ensures
            r == wf_node(self.root, len as nat, 0),
    {
        node_well_formed(&self.root, len, 0)
    }
}

/// Whether a child holds the body of its parent: it sits under the field
/// `body`, or its kind ends in `_body`, or is `block` or `statement_block`.
pub open spec fn is_body_child(c: SyntaxNode) -> bool {
    ||| (c.field_name matches Some(f) && utf8(f@) == lit("body"))
    ||| ends_with(utf8(c.kind@), lit("_body"))
    ||| utf8(c.kind@) == lit("block")
    ||| utf8(c.kind@) == lit("statement_block")
}

/// The ranges of the body children among `cs`, in order.
pub open spec fn body_ranges(cs: Seq<SyntaxNode>) -> Seq<ByteRange>
    decreases cs.len(),
{
    if cs.len() == 0 {
        seq![]
    } else {
        let rest = body_ranges(cs.drop_last());
        if is_body_child(cs.last()) {
            rest.push(ByteRange { start: cs.last().start_byte, end: cs.last().end_byte })
        } else {
            rest
        }
    }
}

/// Where the last of `rs` ends, or `start` when there is none.
pub open spec fn end_of(rs: Seq<ByteRange>, start: int) -> int {
    if rs.len() == 0 {
        start
    } else {
        rs.last().end as int
    }
}

/// The source bytes from `start` up to each of `rs`, skipping each range.
pub open spec fn gaps_before(rs: Seq<ByteRange>, start: int, source: Seq<u8>) -> Seq<u8>
    decreases rs.len(),
{
    if rs.len() == 0 {
        seq![]
    } else {
        gaps_before(rs.drop_last(), start, source) + source.subrange(
            end_of(rs.drop_last(), start),
            rs.last().start as int,
        )
    }
}

/// The source bytes of each of `rs`, concatenated.
pub open spec fn ranges_text(rs: Seq<ByteRange>, source: Seq<u8>) -> Seq<u8>
    decreases rs.len(),
{
    if rs.len() == 0 {
        seq![]
    } else {
        ranges_text(rs.drop_last(), source) + source.subrange(rs.last().start as int, rs.last().end as int)
    }
}

/// The node's text without its body children; the whole text when it has none.
pub open spec fn signature_text(n: SyntaxNode, source: Seq<u8>) -> Seq<u8> {
    let b = body_ranges(n.children@);
    if b.len() == 0 {
        source.subrange(n.start_byte as int, n.end_byte as int)
    } else {
        gaps_before(b, n.start_byte as int, source) + source.subrange(
            end_of(b, n.start_byte as int),
            n.end_byte as int,
        )
    }
}

/// The text of the node's body children; the whole text when it has none.
pub open spec fn body_text(n: SyntaxNode, source: Seq<u8>) -> Seq<u8> {
    let b = body_ranges(n.children@);
    if b.len() == 0 {
        source.subrange(n.start_byte as int, n.end_byte as int)
    } else {
        ranges_text(b, source)
    }
}

/// The 32 hex digits of the FNV-1a digest of `bytes` as one field.
pub open spec fn text_hash(bytes: Seq<u8>) -> Seq<u8> {
    hex32(fnv_absorb(FNV_OFFSET, field(bytes)))
}

fn is_body_node(c: &SyntaxNode) -> (r: bool)
    ensures
        r == is_body_child(*c),
{
    let by_field = match &c.field_name {
        Some(f) => bytes_eq(f.as_str().as_bytes(), "body".as_bytes()),
        None => false,
    };
    let k = c.kind.as_str().as_bytes();
    by_field || bytes_ends_with(k, "_body".as_bytes()) || bytes_eq(k, "block".as_bytes()) || bytes_eq(
        k,
        "statement_block".as_bytes(),
    )
}

fn hash_text(bytes: &[u8]) -> (s: String)
    ensures
        utf8(s@) == text_hash(bytes@),
{
    let mut d = StableDigest::new();
    d.write_field(bytes);
    let v = d.finish();
    let h = hex32_bytes(v);
    proof {
        lemma_hex_fixed_ascii(v as nat, 32);
        lemma_ascii_valid_utf8(h@);
    }
    string_from_utf8(h)
}

/// The ranges of the node's body children.
fn collect_body_ranges(node: &SyntaxNode, len: Ghost<nat>) -> (r: Vec<ByteRange>)
    requires
        spans_ok(*node, len@),
    ensures
        r@ == body_ranges(node.children@),
        forall|k: int|
            0 <= k < r@.len() ==> node.start_byte <= (#[trigger] r@[k]).start <= r@[k].end <= node.end_byte,
        forall|k1: int, k2: int|
            0 <= k1 < k2 < r@.len() ==> (#[trigger] r@[k1]).end <= (#[trigger] r@[k2]).start,
{
    let mut r: Vec<ByteRange> = Vec::new();
    let mut i: usize = 0;
    while i < node.children.len()
        invariant
            i <= node.children@.len(),
            spans_ok(*node, len@),
            r@ == body_ranges(node.children@.take(i as int)),
            forall|k: int|
                0 <= k < r@.len() ==> node.start_byte <= (#[trigger] r@[k]).start <= r@[k].end <= node.end_byte,
            forall|k1: int, k2: int|
                0 <= k1 < k2 < r@.len() ==> (#[trigger] r@[k1]).end <= (#[trigger] r@[k2]).start,
            forall|k: int, j: int|
                0 <= k < r@.len() && i <= j < node.children@.len() ==> (#[trigger] r@[k]).end
                    <= (#[trigger] node.children@[j]).start_byte,
        decreases node.children@.len() - i,
    {
        let c = &node.children[i];
        let ghost before = r@;
        assert(node.children@.take(i + 1).drop_last() =~= node.children@.take(i as int));
        assert(node.children@.take(i + 1).last() == node.children@[i as int]);
        if is_body_node(c) {
            r.push(ByteRange { start: c.start_byte, end: c.end_byte });
            assert forall|k: int, j: int|
                0 <= k < r@.len() && i + 1 <= j < node.children@.len() implies (#[trigger] r@[k]).end
                <= (#[trigger] node.children@[j]).start_byte by {
                if k < before.len() {
                    assert(before[k] == r@[k]);
                    assert(before[k].end <= node.children@[j].start_byte);
                } else {
                    assert(node.children@[i as int].end_byte <= node.children@[j].start_byte);
                }
            }
            assert forall|k1: int, k2: int|
                0 <= k1 < k2 < r@.len() implies (#[trigger] r@[k1]).end <= (#[trigger] r@[k2]).start by {
                if k2 < before.len() {
                    assert(before[k1] == r@[k1] && before[k2] == r@[k2]);
                } else {
                    assert(before[k1] == r@[k1]);
                    assert(before[k1].end <= node.children@[i as int].start_byte);
                }
            }
        }
        i = i + 1;
    }
    assert(node.children@.take(i as int) =~= node.children@);
    r
}

/// The signature hash and body hash of a node: the hash of its text
/// without the body children, and the hash of the body children's text
/// (the whole text for both when it has no body child).
fn compute_signature_body_hashes(node: &SyntaxNode, source: &[u8]) -> (r: (String, String))
    requires
        spans_ok(*node, source@.len()),
    ensures
        utf8(r.0@) == text_hash(signature_text(*node, source@)),
        utf8(r.1@) == text_hash(body_text(*node, source@)),
{
    let bodies = collect_body_ranges(node, Ghost(source@.len()));
    if bodies.len() == 0 {
        let full = slice_range(source, node.start_byte, node.end_byte);
        let h = hash_text(full.as_slice());
        let h2 = hash_text(full.as_slice());
        return (h, h2);
    }
    let ghost start = node.start_byte as int;
    let mut sig: Vec<u8> = Vec::new();
    let mut body: Vec<u8> = Vec::new();
    let mut last_end: usize = node.start_byte;
    let mut k: usize = 0;
    while k < bodies.len()
        invariant
            k <= bodies@.len(),
            bodies@ == body_ranges(node.children@),
            spans_ok(*node, source@.len()),
            start == node.start_byte,
            forall|q: int|
                0 <= q < bodies@.len() ==> node.start_byte <= (#[trigger] bodies@[q]).start <= bodies@[q].end
                    <= node.end_byte,
            forall|k1: int, k2: int|
                0 <= k1 < k2 < bodies@.len() ==> (#[trigger] bodies@[k1]).end <= (#[trigger] bodies@[k2]).start,
            last_end == end_of(bodies@.take(k as int), start),
            node.start_byte <= last_end <= node.end_byte,
            k < bodies@.len() ==> last_end <= bodies@[k as int].start,
            sig@ == gaps_before(bodies@.take(k as int), start, source@),
            body@ == ranges_text(bodies@.take(k as int), source@),
        decreases bodies@.len() - k,
    {
        let br = bodies[k];
        let gap = slice_range(source, last_end, br.start);
        push_bytes(&mut sig, gap.as_slice());
        let inner = slice_range(source, br.start, br.end);
        push_bytes(&mut body, inner.as_slice());
        assert(bodies@.take(k + 1).drop_last() =~= bodies@.take(k as int));
        assert(bodies@.take(k + 1).last() == bodies@[k as int]);
        last_end = br.end;
        k = k + 1;
        if k < bodies.len() {
            assert(bodies@[k - 1].end <= bodies@[k as int].start);
        }
    }
    assert(bodies@.take(k as int) =~= bodies@);
    let tail = slice_range(source, last_end, node.end_byte);
    push_bytes(&mut sig, tail.as_slice());
    (hash_text(sig.as_slice()), hash_text(body.as_slice()))
}

/// The first of `cs` that sits under the field `name`.
pub open spec fn first_name_field(cs: Seq<SyntaxNode>) -> Option<SyntaxNode>
    decreases cs.len(),
{
    if cs.len() == 0 {
        None
    } else if cs[0].field_name matches Some(f) && utf8(f@) == lit("name") {
        Some(cs[0])
    } else {
        first_name_field(cs.drop_first())
    }
}

/// Whether a node is a named identifier of one of the kinds that name a
/// declaration.
pub open spec fn is_identifier(c: SyntaxNode) -> bool {
    &&& c.is_named
    &&& {
        ||| utf8(c.kind@) == lit("identifier")
        ||| utf8(c.kind@) == lit("property_identifier")
        ||| utf8(c.kind@) == lit("type_identifier")
    }
}

/// The first named identifier among `cs`.
pub open spec fn first_identifier(cs: Seq<SyntaxNode>) -> Option<SyntaxNode>
    decreases cs.len(),
{
    if cs.len() == 0 {
        None
    } else if is_identifier(cs[0]) {
        Some(cs[0])
    } else {
        first_identifier(cs.drop_first())
    }
}

/// The child that names a node: its `name` field, else its first named identifier.
pub open spec fn name_node(n: SyntaxNode) -> Option<SyntaxNode> {
    match first_name_field(n.children@) {
        Some(c) => Some(c),
        None => first_identifier(n.children@),
    }
}

/// `name` is the name of node `n`: the text of its naming child when that
/// text is UTF-8, and none otherwise.
pub open spec fn is_name_of(name: Option<String>, n: SyntaxNode, source: Seq<u8>) -> bool {
    match name_node(n) {
        Some(c) => {
            let t = source.subrange(c.start_byte as int, c.end_byte as int);
            if vstd::utf8::valid_utf8(t) {
                name matches Some(s) && utf8(s@) == t
            } else {
                name is None
            }
        },
        None => name is None,
    }
}

fn is_name_field(c: &SyntaxNode) -> (r: bool)
    ensures
        r == (c.field_name matches Some(f) && utf8(f@) == lit("name")),
{
    match &c.field_name {
        Some(f) => bytes_eq(f.as_str().as_bytes(), "name".as_bytes()),
        None => false,
    }
}

fn is_identifier_node(c: &SyntaxNode) -> (r: bool)
    ensures
        r == is_identifier(*c),
{
    let k = c.kind.as_str().as_bytes();
    c.is_named && (bytes_eq(k, "identifier".as_bytes()) || bytes_eq(k, "property_identifier".as_bytes())
        || bytes_eq(k, "type_identifier".as_bytes()))
}

/// The position of the child that names `node`, as `name_node` picks it.
fn name_child(node: &SyntaxNode) -> (r: Option<usize>)
    ensures
        match name_node(*node) {
            Some(c) => r matches Some(i) && i < node.children@.len() && node.children@[i as int] == c,
            None => r is None,
        },
{
    let n = node.children.len();
    let mut i: usize = 0;
    assert(node.children@.skip(0) =~= node.children@);
    while i < n
        invariant
            n == node.children@.len(),
            i <= n,
            first_name_field(node.children@) == first_name_field(node.children@.skip(i as int)),
        decreases n - i,
    {
        assert(node.children@.skip(i as int).drop_first() =~= node.children@.skip(i + 1));
        assert(node.children@.skip(i as int)[0] == node.children@[i as int]);
        if is_name_field(&node.children[i]) {
            return Some(i);
        }
        i = i + 1;
    }
    assert(node.children@.skip(i as int).len() == 0);
    let mut j: usize = 0;
    assert(node.children@.skip(0) =~= node.children@);
    while j < n
        invariant
            n == node.children@.len(),
            j <= n,
            first_name_field(node.children@) is None,
            first_identifier(node.children@) == first_identifier(node.children@.skip(j as int)),
        decreases n - j,
    {
        assert(node.children@.skip(j as int).drop_first() =~= node.children@.skip(j + 1));
        assert(node.children@.skip(j as int)[0] == node.children@[j as int]);
        if is_identifier_node(&node.children[j]) {
            return Some(j);
        }
        j = j + 1;
    }
    assert(node.children@.skip(j as int).len() == 0);
    None
}

/// The name of a node: the UTF-8 text of its `name` field, or of its
/// first named identifier.
fn node_name(node: &SyntaxNode, source: &[u8]) -> (r: Option<String>)
    requires
        spans_ok(*node, source@.len()),
    ensures
        is_name_of(r, *node, source@),
{
    match name_child(node) {
        Some(i) => {
            let c = &node.children[i];
            let text = slice_range(source, c.start_byte, c.end_byte);
            str_from_utf8(text.as_slice())
        },
        None => None,
    }
}

/// The chunks that a walk of `n` at nesting `depth` adds to `acc`, each as
/// its node, its nesting and the position of its parent chunk: `n` itself
/// when it starts a chunk and the limit `max` is not reached, then the
/// chunks of its named children, in order.
pub open spec fn visit_spec(
    n: SyntaxNode,
    depth: nat,
    parent: Option<nat>,
    acc: Seq<(SyntaxNode, nat, Option<nat>)>,
    max: nat,
) -> Seq<(SyntaxNode, nat, Option<nat>)>
    decreases n, 0nat,
{
    let take = is_boundary_kind(utf8(n.kind@)) && acc.len() < max;
    let acc1 = if take {
        acc.push((n, depth, parent))
    } else {
        acc
    };
    let child_parent = if take {
        Some(acc.len())
    } else {
        parent
    };
    proof {
        assert(decreases_to!(n => n.children));
    }
    visit_children(n.children@, depth + 1, child_parent, acc1, max)
}

/// The chunks that walks of the named nodes among `cs`, in order, add to `acc`.
pub open spec fn visit_children(
    cs: Seq<SyntaxNode>,
    depth: nat,
    parent: Option<nat>,
    acc: Seq<(SyntaxNode, nat, Option<nat>)>,
    max: nat,
) -> Seq<(SyntaxNode, nat, Option<nat>)>
    decreases cs, 1nat,
{
    if cs.len() == 0 {
        acc
    } else {
        let before = visit_children(cs.drop_last(), depth, parent, acc, max);
        if cs.last().is_named {
            visit_spec(cs.last(), depth, parent, before, max)
        } else {
            before
        }
    }
}

/// A walk never takes the chunk count past the limit, nor lowers it.
pub proof fn lemma_visit_len(
    n: SyntaxNode,
    depth: nat,
    parent: Option<nat>,
    acc: Seq<(SyntaxNode, nat, Option<nat>)>,
    max: nat,
)
    requires
        acc.len() <= max,
    ensures
        acc.len() <= visit_spec(n, depth, parent, acc, max).len() <= max,
    decreases n, 0nat,
{
    let take = is_boundary_kind(utf8(n.kind@)) && acc.len() < max;
    let acc1 = if take {
        acc.push((n, depth, parent))
    } else {
        acc
    };
    let child_parent = if take {
        Some(acc.len())
    } else {
        parent
    };
    assert(decreases_to!(n => n.children));
    lemma_visit_children_len(n.children@, depth + 1, child_parent, acc1, max);
}

/// Walks of a node's children never take the chunk count past the limit,
/// nor lower it.
pub proof fn lemma_visit_children_len(
    cs: Seq<SyntaxNode>,
    depth: nat,
    parent: Option<nat>,
    acc: Seq<(SyntaxNode, nat, Option<nat>)>,
    max: nat,
)
    requires
        acc.len() <= max,
    ensures
        acc.len() <= visit_children(cs, depth, parent, acc, max).len() <= max,
    decreases cs, 1nat,
{
    if cs.len() > 0 {
        lemma_visit_children_len(cs.drop_last(), depth, parent, acc, max);
        let before = visit_children(cs.drop_last(), depth, parent, acc, max);
        if cs.last().is_named {
            lemma_visit_len(cs.last(), depth, parent, before, max);
        }
    }
}

/// Every entry from position `from` on is a node that lies within `[lo, hi]`.
pub open spec fn entries_within(es: Seq<(SyntaxNode, nat, Option<nat>)>, from: int, lo: int, hi: int) -> bool {
    forall|i: int|
        from <= i < es.len() ==> lo <= (#[trigger] es[i]).0.start_byte <= es[i].0.end_byte <= hi
}

/// A walk keeps what came before it and adds only nodes that lie within
/// the walked node.
proof fn lemma_visit_within(
    n: SyntaxNode,
    depth: nat,
    parent: Option<nat>,
    acc: Seq<(SyntaxNode, nat, Option<nat>)>,
    max: nat,
    len: nat,
    lo: int,
    hi: int,
)
    requires
        wf_node(n, len, depth),
        lo <= n.start_byte,
        n.end_byte <= hi,
    ensures
        acc.len() <= visit_spec(n, depth, parent, acc, max).len(),
        visit_spec(n, depth, parent, acc, max).take(acc.len() as int) == acc,
        entries_within(visit_spec(n, depth, parent, acc, max), acc.len() as int, lo, hi),
    decreases n, 0nat,
{
    let take = is_boundary_kind(utf8(n.kind@)) && acc.len() < max;
    let acc1 = if take {
        acc.push((n, depth, parent))
    } else {
        acc
    };
    let child_parent = if take {
        Some(acc.len())
    } else {
        parent
    };
    assert(decreases_to!(n => n.children));
    assert forall|i: int| 0 <= i < n.children@.len() implies wf_node(#[trigger] n.children@[i], len, depth + 1)
        && lo <= n.children@[i].start_byte && n.children@[i].end_byte <= hi by {}
    lemma_children_within(n.children@, depth + 1, child_parent, acc1, max, len, lo, hi);
    let r = visit_spec(n, depth, parent, acc, max);
    assert(r.take(acc1.len() as int).take(acc.len() as int) =~= r.take(acc.len() as int));
    assert(acc1.take(acc.len() as int) =~= acc);
    if take {
        assert(r[acc.len() as int] == r.take(acc1.len() as int)[acc.len() as int]);
    }
}

/// Walks of children that lie within `[lo, hi]` keep what came before
/// them and add only nodes within it.
proof fn lemma_children_within(
    cs: Seq<SyntaxNode>,
    depth: nat,
    parent: Option<nat>,
    acc: Seq<(SyntaxNode, nat, Option<nat>)>,
    max: nat,
    len: nat,
    lo: int,
    hi: int,
)
    requires
        forall|i: int|
            0 <= i < cs.len() ==> wf_node(#[trigger] cs[i], len, depth) && lo <= cs[i].start_byte
                && cs[i].end_byte <= hi,
    ensures
        acc.len() <= visit_children(cs, depth, parent, acc, max).len(),
        visit_children(cs, depth, parent, acc, max).take(acc.len() as int) == acc,
        entries_within(visit_children(cs, depth, parent, acc, max), acc.len() as int, lo, hi),
    decreases cs, 1nat,
{
    if cs.len() > 0 {
        let init = cs.drop_last();
        assert forall|i: int| 0 <= i < init.len() implies wf_node(#[trigger] init[i], len, depth) && lo
            <= init[i].start_byte && init[i].end_byte <= hi by {
            assert(init[i] == cs[i]);
        }
        lemma_children_within(init, depth, parent, acc, max, len, lo, hi);
        let before = visit_children(init, depth, parent, acc, max);
        if cs.last().is_named {
            lemma_visit_within(cs.last(), depth, parent, before, max, len, lo, hi);
            let r = visit_children(cs, depth, parent, acc, max);
            assert(r.take(before.len() as int).take(acc.len() as int) =~= r.take(acc.len() as int));
            assert(before.take(acc.len() as int) =~= acc);
            assert forall|i: int| acc.len() <= i < r.len() implies lo <= (#[trigger] r[i]).0.start_byte
                <= r[i].0.end_byte <= hi by {
                if i < before.len() {
                    assert(r[i] == r.take(before.len() as int)[i]);
                    assert(before[i] == r[i]);
                }
            }
        }
    }
}

/// The entries' nodes start in document order.
#[verifier::opaque]
pub open spec fn starts_sorted(es: Seq<(SyntaxNode, nat, Option<nat>)>) -> bool {
    forall|i: int, k: int| 0 <= i < k < es.len() ==> (#[trigger] es[i]).0.start_byte <= (#[trigger] es[k]).0.start_byte
}

/// Entry `outer` encloses entry `inner`: its node's range holds the
/// other's, and it is less deeply nested.
pub open spec fn encloses(outer: (SyntaxNode, nat, Option<nat>), inner: (SyntaxNode, nat, Option<nat>)) -> bool {
    &&& outer.0.start_byte <= inner.0.start_byte
    &&& inner.0.end_byte <= outer.0.end_byte
    &&& outer.1 < inner.1
}

/// Entry `i` has no parent, or one that comes before it and encloses it.
pub open spec fn parent_ok(es: Seq<(SyntaxNode, nat, Option<nat>)>, i: int) -> bool {
    es[i].2 matches Some(j) ==> j < i && encloses(es[j as int], es[i])
}

/// Each entry's parent comes before it, encloses it and is less deeply nested.
#[verifier::opaque]
pub open spec fn parents_enclose(es: Seq<(SyntaxNode, nat, Option<nat>)>) -> bool {
    forall|i: int| 0 <= i < es.len() ==> #[trigger] parent_ok(es, i)
}

/// Appending an entry that starts no earlier than any other and whose
/// parent encloses it keeps both orders.
proof fn lemma_push_shape(acc: Seq<(SyntaxNode, nat, Option<nat>)>, x: (SyntaxNode, nat, Option<nat>))
    requires
        starts_sorted(acc),
        parents_enclose(acc),
        forall|i: int| 0 <= i < acc.len() ==> (#[trigger] acc[i]).0.start_byte <= x.0.start_byte,
        x.2 matches Some(j) ==> j < acc.len() && encloses(acc[j as int], x),
    ensures
        starts_sorted(acc.push(x)),
        parents_enclose(acc.push(x)),
{
    reveal(starts_sorted);
    reveal(parents_enclose);
    let r = acc.push(x);
    assert forall|i: int| 0 <= i < r.len() implies #[trigger] parent_ok(r, i) by {
        if i < acc.len() {
            assert(parent_ok(acc, i));
            assert(r[i] == acc[i]);
            if let Some(j) = acc[i].2 {
                assert(r[j as int] == acc[j as int]);
            }
        } else if let Some(j) = x.2 {
            assert(r[j as int] == acc[j as int]);
        }
    }
    assert forall|i: int, k: int| 0 <= i < k < r.len() implies (#[trigger] r[i]).0.start_byte
        <= (#[trigger] r[k]).0.start_byte by {
        if k < acc.len() {
            assert(r[i] == acc[i] && r[k] == acc[k]);
        } else {
            assert(r[i] == acc[i]);
        }
    }
}

/// A walk keeps the entries in document order with enclosing parents.
proof fn lemma_visit_shape(
    n: SyntaxNode,
    depth: nat,
    parent: Option<nat>,
    acc: Seq<(SyntaxNode, nat, Option<nat>)>,
    max: nat,
    len: nat,
)
    requires
        wf_node(n, len, depth),
        starts_sorted(acc),
        parents_enclose(acc),
        forall|i: int| 0 <= i < acc.len() ==> (#[trigger] acc[i]).0.start_byte <= n.start_byte,
        parent matches Some(j) ==> j < acc.len() && acc[j as int].0.start_byte <= n.start_byte && n.end_byte
            <= acc[j as int].0.end_byte && acc[j as int].1 < depth,
    ensures
        starts_sorted(visit_spec(n, depth, parent, acc, max)),
        parents_enclose(visit_spec(n, depth, parent, acc, max)),
    decreases n, 0nat,
{
    let take = is_boundary_kind(utf8(n.kind@)) && acc.len() < max;
    let e = (n, depth, parent);
    let acc1 = if take {
        acc.push(e)
    } else {
        acc
    };
    let child_parent = if take {
        Some(acc.len())
    } else {
        parent
    };
    assert(decreases_to!(n => n.children));
    if take {
        lemma_push_shape(acc, e);
        assert(acc1[acc.len() as int] == e);
    }
    assert forall|i: int| 0 <= i < acc1.len() implies (#[trigger] acc1[i]).0.start_byte <= n.start_byte by {
        if i < acc.len() {
            assert(acc1[i] == acc[i]);
        }
    }
    if let Some(j) = child_parent {
        if !take {
            assert(acc1[j as int] == acc[j as int]);
        }
    }
    assert forall|i: int| 0 <= i < n.children@.len() implies wf_node(#[trigger] n.children@[i], len, depth + 1)
        && n.start_byte <= n.children@[i].start_byte && n.children@[i].end_byte <= n.end_byte by {}
    lemma_children_shape(
        n.children@,
        depth + 1,
        child_parent,
        acc1,
        max,
        len,
        n.start_byte as int,
        n.end_byte as int,
    );
}

/// Walks of ordered children within `[lo, hi]` keep the entries in
/// document order with enclosing parents, and add only entries that end
/// by the end of the last child.
proof fn lemma_children_shape(
    cs: Seq<SyntaxNode>,
    depth: nat,
    parent: Option<nat>,
    acc: Seq<(SyntaxNode, nat, Option<nat>)>,
    max: nat,
    len: nat,
    lo: int,
    hi: int,
)
    requires
        forall|i: int|
            0 <= i < cs.len() ==> wf_node(#[trigger] cs[i], len, depth) && lo <= cs[i].start_byte
                && cs[i].end_byte <= hi,
        forall|i: int, j: int| 0 <= i < j < cs.len() ==> (#[trigger] cs[i]).end_byte <= (#[trigger] cs[j]).start_byte,
        starts_sorted(acc),
        parents_enclose(acc),
        forall|i: int| 0 <= i < acc.len() ==> (#[trigger] acc[i]).0.start_byte <= lo,
        parent matches Some(j) ==> j < acc.len() && acc[j as int].0.start_byte <= lo && hi <= acc[j as int].0.end_byte
            && acc[j as int].1 < depth,
    ensures
        starts_sorted(visit_children(cs, depth, parent, acc, max)),
        parents_enclose(visit_children(cs, depth, parent, acc, max)),
        cs.len() > 0 ==> forall|i: int|
            acc.len() <= i < visit_children(cs, depth, parent, acc, max).len() ==> (#[trigger] visit_children(
                cs,
                depth,
                parent,
                acc,
                max,
            )[i]).0.end_byte <= cs.last().end_byte,
    decreases cs, 1nat,
{
    if cs.len() > 0 {
        let init = cs.drop_last();
        let last = cs.last();
        assert forall|i: int| 0 <= i < init.len() implies wf_node(#[trigger] init[i], len, depth) && lo
            <= init[i].start_byte && init[i].end_byte <= hi by {
            assert(init[i] == cs[i]);
        }
        assert forall|i: int, j: int| 0 <= i < j < init.len() implies (#[trigger] init[i]).end_byte
            <= (#[trigger] init[j]).start_byte by {
            assert(init[i] == cs[i] && init[j] == cs[j]);
        }
        lemma_children_shape(init, depth, parent, acc, max, len, lo, hi);
        lemma_children_within(init, depth, parent, acc, max, len, lo, hi);
        let before = visit_children(init, depth, parent, acc, max);
        if init.len() > 0 {
            assert(init.last() == cs[cs.len() - 2]);
            assert(cs[cs.len() - 2].end_byte <= cs[cs.len() - 1].start_byte);
        }
        assert forall|i: int| acc.len() <= i < before.len() implies (#[trigger] before[i]).0.end_byte
            <= last.start_byte by {}
        if last.is_named {
            assert(wf_node(cs[cs.len() - 1], len, depth));
            assert forall|i: int| 0 <= i < before.len() implies (#[trigger] before[i]).0.start_byte
                <= last.start_byte by {
                if i < acc.len() {
                    assert(before[i] == before.take(acc.len() as int)[i]);
                } else {
                    assert(lo <= before[i].0.start_byte <= before[i].0.end_byte);
                }
            }
            if let Some(j) = parent {
                assert(before[j as int] == before.take(acc.len() as int)[j as int]);
            }
            lemma_visit_shape(last, depth, parent, before, max, len);
            lemma_visit_within(last, depth, parent, before, max, len, last.start_byte as int, last.end_byte as int);
            let r = visit_children(cs, depth, parent, acc, max);
            assert forall|i: int| acc.len() <= i < r.len() implies (#[trigger] r[i]).0.end_byte
                <= cs.last().end_byte by {
                if i < before.len() {
                    assert(r[i] == r.take(before.len() as int)[i]);
                }
            }
        }
    }
}

/// The chunks of a tree come in document order, and each nested chunk
/// lies within its parent chunk, which comes before it, at a lesser depth.
pub proof fn lemma_chunk_entries_shape(root: SyntaxNode, len: nat, max: nat)
    requires
        wf_node(root, len, 0),
    ensures
        starts_sorted(chunk_entries(root, max)),
        parents_enclose(chunk_entries(root, max)),
{
    let empty: Seq<(SyntaxNode, nat, Option<nat>)> = seq![];
    assert(starts_sorted(empty)) by {
        reveal(starts_sorted);
    }
    assert(parents_enclose(empty)) by {
        reveal(parents_enclose);
    }
    lemma_visit_shape(root, 0, None, empty, max, len);
    if visit_spec(root, 0, None, empty, max).len() == 0 && max > 0 {
        lemma_push_shape(empty, (root, 0nat, None));
        assert(seq![(root, 0nat, None::<nat>)] =~= empty.push((root, 0nat, None)));
    }
}

/// The node kinds that start a chunk in the supported grammars: Rust's
/// items, JavaScript's and TypeScript's declarations, Python's module,
/// and any kind whose name ends in `_function` or `_method`.
pub open spec fn declaration_kind(k: Seq<char>) -> bool {
    ||| k == "class_declaration"@
    ||| k == "const_item"@
    ||| k == "enum_declaration"@
    ||| k == "enum_item"@
    ||| k == "function_declaration"@
    ||| k == "function_item"@
    ||| k == "generator_function_declaration"@
    ||| k == "impl_item"@
    ||| k == "interface_declaration"@
    ||| k == "macro_definition"@
    ||| k == "method_definition"@
    ||| k == "mod_item"@
    ||| k == "module"@
    ||| k == "static_item"@
    ||| k == "struct_declaration"@
    ||| k == "struct_item"@
    ||| k == "trait_item"@
    ||| k == "type_alias_declaration"@
    ||| k == "type_item"@
    ||| exists|p: Seq<char>| k == p + "_function"@
    ||| exists|p: Seq<char>| k == p + "_method"@
}

/// A node of a declaration kind starts a chunk: a walk that reaches such
/// a node, at any nesting and with fewer chunks than the limit so far,
/// keeps the chunks found before and records the node next, at its
/// nesting and under its parent chunk.
pub proof fn lemma_declaration_starts_chunk(
    n: SyntaxNode,
    len: nat,
    depth: nat,
    parent: Option<nat>,
    acc: Seq<(SyntaxNode, nat, Option<nat>)>,
    max: nat,
)
    requires
        wf_node(n, len, depth),
        acc.len() < max,
        declaration_kind(n.kind@),
    ensures
        visit_spec(n, depth, parent, acc, max).len() > acc.len(),
        visit_spec(n, depth, parent, acc, max).take(acc.len() as int) == acc,
        visit_spec(n, depth, parent, acc, max)[acc.len() as int] == (n, depth, parent),
{
    let k = n.kind@;
    if exists|p: Seq<char>| k == p + "_function"@ {
        let p = choose|p: Seq<char>| k == p + "_function"@;
        crate::text::lemma_utf8_concat(p, "_function"@);
        let b = utf8(k);
        assert(b.subrange(b.len() - lit("_function").len(), b.len() as int) =~= lit("_function"));
    } else if exists|p: Seq<char>| k == p + "_method"@ {
        let p = choose|p: Seq<char>| k == p + "_method"@;
        crate::text::lemma_utf8_concat(p, "_method"@);
        let b = utf8(k);
        assert(b.subrange(b.len() - lit("_method").len(), b.len() as int) =~= lit("_method"));
    }
    assert(is_boundary_kind(utf8(k)));
    let acc1 = acc.push((n, depth, parent));
    assert(decreases_to!(n => n.children));
    assert forall|i: int| 0 <= i < n.children@.len() implies wf_node(#[trigger] n.children@[i], len, depth + 1)
        && n.start_byte <= n.children@[i].start_byte && n.children@[i].end_byte <= n.end_byte by {}
    lemma_children_within(
        n.children@,
        depth + 1,
        Some(acc.len()),
        acc1,
        max,
        len,
        n.start_byte as int,
        n.end_byte as int,
    );
    let v = visit_spec(n, depth, parent, acc, max);
    assert(v.take(acc1.len() as int)[acc.len() as int] == v[acc.len() as int]);
    assert(v.take(acc1.len() as int).take(acc.len() as int) =~= v.take(acc.len() as int));
    assert(acc1.take(acc.len() as int) =~= acc);
}

/// A tree whose root is of a declaration kind has the root as its first
/// chunk, at depth 0 with no parent, found by the walk itself rather than
/// by the whole-file fallback.
pub proof fn lemma_declaration_root_first_chunk(root: SyntaxNode, len: nat, max: nat)
    requires
        wf_node(root, len, 0),
        max > 0,
        declaration_kind(root.kind@),
    ensures
        visit_spec(root, 0, None, seq![], max).len() >= 1,
        visit_spec(root, 0, None, seq![], max)[0] == (root, 0nat, None::<nat>),
        chunk_entries(root, max)[0] == (root, 0nat, None::<nat>),
{
    lemma_declaration_starts_chunk(root, len, 0, None, seq![], max);
}

/// The chunks of a well-formed tree are nodes within the source.
pub proof fn lemma_entries_within_source(root: SyntaxNode, len: nat, max: nat)
    requires
        wf_node(root, len, 0),
    ensures
        entries_within(chunk_entries(root, max), 0, 0, len as int),
{
    let empty: Seq<(SyntaxNode, nat, Option<nat>)> = seq![];
    lemma_visit_within(root, 0, None, empty, max, len, 0, len as int);
}

/// The identifier of the chunk at position `idx`, if there is one.
pub open spec fn parent_of(recs: Seq<ChunkRecord>, idx: Option<nat>) -> Option<ChunkId> {
    match idx {
        Some(j) => Some(recs[j as int].id),
        None => None,
    }
}

/// Record `i` of `recs` is the chunk of entry `e` (node, nesting, parent
/// position) in the file at `path`, with confidence `conf`.
pub open spec fn record_is(
    recs: Seq<ChunkRecord>,
    i: int,
    e: (SyntaxNode, nat, Option<nat>),
    path: Seq<char>,
    source: Seq<u8>,
    conf: Confidence,
) -> bool {
    let r = recs[i];
    let n = e.0;
    &&& (e.2 matches Some(j) ==> j < i)
    &&& r.id.path@ == path
    &&& r.id.kind == n.kind
    &&& r.kind == n.kind
    &&& r.id.name == r.name
    &&& is_name_of(r.name, n, source)
    &&& r.id.anchor_byte == n.start_byte
    &&& r.byte_range == ByteRange { start: n.start_byte, end: n.end_byte }
    &&& r.estimated_tokens == token_estimate(r.byte_range.spec_len())
    &&& r.confidence == conf
    &&& r.depth == e.1
    &&& r.parent == parent_of(recs, e.2)
    &&& utf8(r.stable_id.0@) == stable_id_text(path, n.kind@, opt_view(r.name), r.parent, source, r.byte_range)
    &&& utf8(r.signature_hash@) == text_hash(signature_text(n, source))
    &&& utf8(r.body_hash@) == text_hash(body_text(n, source))
}

/// The records are the chunks of the entries, one for one.
pub open spec fn chunks_match(
    recs: Seq<ChunkRecord>,
    entries: Seq<(SyntaxNode, nat, Option<nat>)>,
    path: Seq<char>,
    source: Seq<u8>,
    conf: Confidence,
) -> bool {
    &&& recs.len() == entries.len()
    &&& forall|i: int| 0 <= i < recs.len() ==> record_is(recs, i, #[trigger] entries[i], path, source, conf)
}

/// Records past the end of `recs` leave the first ones what they were.
proof fn lemma_match_extends(
    recs: Seq<ChunkRecord>,
    recs2: Seq<ChunkRecord>,
    entries: Seq<(SyntaxNode, nat, Option<nat>)>,
    path: Seq<char>,
    source: Seq<u8>,
    conf: Confidence,
)
    requires
        chunks_match(recs, entries, path, source, conf),
        recs.len() <= recs2.len(),
        forall|k: int| 0 <= k < recs.len() ==> recs2[k] == recs[k],
    ensures
        forall|i: int| 0 <= i < recs.len() ==> record_is(recs2, i, #[trigger] entries[i], path, source, conf),
{
    assert forall|i: int| 0 <= i < recs.len() implies record_is(recs2, i, #[trigger] entries[i], path, source, conf) by {
        assert(record_is(recs, i, entries[i], path, source, conf));
        assert(recs2[i] == recs[i]);
        if let Some(j) = entries[i].2 {
            assert(recs2[j as int] == recs[j as int]);
        }
    }
}

struct Chunker<'a> {
    path: &'a str,
    source: &'a [u8],
    chunks: Vec<ChunkRecord>,
    options: &'a ChunkOptions,
    confidence: Confidence,
}

impl<'a> Chunker<'a> {
    /// Add the chunk of `node` unless the chunk limit is reached; its
    /// identifier when it was added.
    fn push_chunk(
        &mut self,
        node: &SyntaxNode,
        depth: usize,
        parent: Option<ChunkId>,
        Ghost(parent_idx): Ghost<Option<nat>>,
    ) -> (r: Option<ChunkId>)
        requires
            spans_ok(*node, old(self).source@.len()),
            parent == parent_of(old(self).chunks@, parent_idx),
            parent_idx matches Some(j) ==> j < old(self).chunks@.len(),
        ensures
            final(self).path == old(self).path,
            final(self).source == old(self).source,
            final(self).options == old(self).options,
            final(self).confidence == old(self).confidence,
            old(self).chunks@.len() >= old(self).options.max_chunks ==> final(self).chunks@ == old(self).chunks@
                && r is None,
            old(self).chunks@.len() < old(self).options.max_chunks ==> {
                &&& final(self).chunks@ == old(self).chunks@.push(final(self).chunks@.last())
                &&& record_is(
                    final(self).chunks@,
                    old(self).chunks@.len() as int,
                    (*node, depth as nat, parent_idx),
                    old(self).path@,
                    old(self).source@,
                    old(self).confidence,
                )
                &&& r == Some(final(self).chunks@.last().id)
            },
    {
        if self.chunks.len() >= self.options.max_chunks {
            return None;
        }
        let byte_range = ByteRange { start: node.start_byte, end: node.end_byte };
        let byte_len = byte_range.len();
        let name = node_name(node, self.source);
        let id = ChunkId {
            path: self.path.to_owned(),
            kind: copy_string(&node.kind),
            name: copy_opt_string(&name),
            anchor_byte: byte_range.start,
        };
        let name_ref: Option<&str> = match &name {
            Some(n) => Some(n.as_str()),
            None => None,
        };
        let parent_ref: Option<&ChunkId> = match &parent {
            Some(p) => Some(p),
            None => None,
        };
        let stable_id = StableId::compute(
            self.path,
            node.kind.as_str(),
            name_ref,
            parent_ref,
            self.source,
            &byte_range,
        );
        let (signature_hash, body_hash) = compute_signature_body_hashes(node, self.source);
        let record = ChunkRecord {
            id: id.copy(),
            stable_id,
            kind: copy_string(&node.kind),
            name,
            byte_range,
            estimated_tokens: estimate_tokens(byte_len),
            confidence: self.confidence,
            depth,
            parent,
            signature_hash,
            body_hash,
        };
        let ghost before = self.chunks@;
        self.chunks.push(record);
        proof {
            assert(self.chunks@.last() == record);
            assert(self.chunks@ == before.push(record));
            if let Some(j) = parent_idx {
                assert(self.chunks@[j as int] == before[j as int]);
            }
            assert(opt_view(record.name) == opt_str_view(name_ref));
        }
        Some(id)
    }

    /// Add the chunks of `node` and its named descendants, in document order.
    fn visit(
        &mut self,
        node: &SyntaxNode,
        depth: usize,
        parent: Option<ChunkId>,
        Ghost(parent_idx): Ghost<Option<nat>>,
        Ghost(acc): Ghost<Seq<(SyntaxNode, nat, Option<nat>)>>,
    )
        requires
            wf_node(*node, old(self).source@.len(), depth as nat),
            chunks_match(old(self).chunks@, acc, old(self).path@, old(self).source@, old(self).confidence),
            parent == parent_of(old(self).chunks@, parent_idx),
            parent_idx matches Some(j) ==> j < acc.len(),
        ensures
            final(self).path == old(self).path,
            final(self).source == old(self).source,
            final(self).options == old(self).options,
            final(self).confidence == old(self).confidence,
            old(self).chunks@.len() <= final(self).chunks@.len(),
            forall|k: int| 0 <= k < old(self).chunks@.len() ==> final(self).chunks@[k] == old(self).chunks@[k],
            chunks_match(
                final(self).chunks@,
                visit_spec(*node, depth as nat, parent_idx, acc, old(self).options.max_chunks as nat),
                old(self).path@,
                old(self).source@,
                old(self).confidence,
            ),
        decreases *node,
    {
        let ghost max = self.options.max_chunks as nat;
        let ghost path = self.path@;
        let ghost source = self.source@;
        let ghost conf = self.confidence;
        let ghost start = self.chunks@;
        let ghost take = is_boundary_kind(utf8(node.kind@)) && acc.len() < max;
        let this_id = if is_chunk_boundary_kind(node.kind.as_str()) {
            self.push_chunk(node, depth, copy_opt_chunk_id(&parent), Ghost(parent_idx))
        } else {
            None
        };
        let ghost acc1 = if take {
            acc.push((*node, depth as nat, parent_idx))
        } else {
            acc
        };
        let ghost cpi = if take {
            Some(acc.len())
        } else {
            parent_idx
        };
        proof {
            if take {
                lemma_match_extends(start, self.chunks@, acc, path, source, conf);
                assert(chunks_match(self.chunks@, acc1, path, source, conf)) by {
                    assert forall|i: int| 0 <= i < self.chunks@.len() implies record_is(
                        self.chunks@,
                        i,
                        #[trigger] acc1[i],
                        path,
                        source,
                        conf,
                    ) by {
                        if i < acc.len() {
                            assert(acc1[i] == acc[i]);
                        }
                    }
                }
            }
        }
        let child_parent = match this_id {
            Some(id) => Some(id),
            None => parent,
        };
        let ghost after_self = self.chunks@;
        let mut i: usize = 0;
        while i < node.children.len()
            invariant
                i <= node.children@.len(),
                wf_node(*node, source.len(), depth as nat),
                self.path == old(self).path,
                self.source == old(self).source,
                self.options == old(self).options,
                self.confidence == old(self).confidence,
                max == self.options.max_chunks,
                path == self.path@,
                source == self.source@,
                conf == self.confidence,
                after_self.len() == acc1.len(),
                start.len() <= after_self.len(),
                start == old(self).chunks@,
                forall|k: int| 0 <= k < start.len() ==> after_self[k] == start[k],
                after_self.len() <= self.chunks@.len(),
                forall|k: int| 0 <= k < after_self.len() ==> self.chunks@[k] == after_self[k],
                child_parent == parent_of(after_self, cpi),
                cpi matches Some(j) ==> j < acc1.len(),
                chunks_match(
                    self.chunks@,
                    visit_children(node.children@.take(i as int), (depth + 1) as nat, cpi, acc1, max),
                    path,
                    source,
                    conf,
                ),
            decreases node.children@.len() - i,
        {
            let c = &node.children[i];
            assert(node.children@.take(i + 1).drop_last() =~= node.children@.take(i as int));
            assert(node.children@.take(i + 1).last() == node.children@[i as int]);
            let ghost cur = visit_children(node.children@.take(i as int), (depth + 1) as nat, cpi, acc1, max);
            if c.is_named {
                assert(wf_node(node.children@[i as int], source.len(), (depth + 1) as nat));
                proof {
                    if let Some(j) = cpi {
                        assert(self.chunks@[j as int] == after_self[j as int]);
                    }
                }
                let ghost before_call = self.chunks@;
                self.visit(c, depth + 1, copy_opt_chunk_id(&child_parent), Ghost(cpi), Ghost(cur));
                assert forall|k: int| 0 <= k < after_self.len() implies self.chunks@[k] == after_self[k] by {
                    assert(self.chunks@[k] == before_call[k]);
                }
            }
            i = i + 1;
        }
        assert(node.children@.take(i as int) =~= node.children@);
        assert forall|k: int| 0 <= k < start.len() implies self.chunks@[k] == start[k] by {
            assert(self.chunks@[k] == after_self[k]);
        }
    }
}

/// The confidence of the chunks of a tree: low when it holds errors.
pub open spec fn tree_confidence(has_error: bool) -> Confidence {
    if has_error {
        Confidence::Low
    } else {
        Confidence::Exact
    }
}

/// The chunks of a tree under a limit of `max`: those of a walk from the
/// root, or the root alone when the walk finds none and the limit allows one.
pub open spec fn chunk_entries(root: SyntaxNode, max: nat) -> Seq<(SyntaxNode, nat, Option<nat>)> {
    let v = visit_spec(root, 0, None, seq![], max);
    if v.len() == 0 && max > 0 {
        seq![(root, 0nat, None)]
    } else {
        v
    }
}

/// The chunks start in document order.
#[verifier::opaque]
pub open spec fn in_document_order(recs: Seq<ChunkRecord>) -> bool {
    forall|i: int, k: int|
        0 <= i < k < recs.len() ==> (#[trigger] recs[i]).byte_range.start <= (#[trigger] recs[k]).byte_range.start
}

/// Each chunk with a parent names an earlier chunk that encloses it and is
/// less deeply nested.
#[verifier::opaque]
pub open spec fn nested_in_parents(recs: Seq<ChunkRecord>) -> bool {
    forall|i: int|
        0 <= i < recs.len() && (#[trigger] recs[i]).parent is Some ==> exists|j: int|
            0 <= j < i && recs[i].parent == Some(#[trigger] recs[j].id) && recs[j].byte_range.start
                <= recs[i].byte_range.start && recs[i].byte_range.end <= recs[j].byte_range.end && recs[j].depth
                < recs[i].depth
}

/// The message when the chunk limit is reached.
pub open spec fn chunk_limit_message(max: nat) -> Seq<u8> {
    lit("chunk limit (") + decimal(max) + lit(") reached; some boundaries were omitted")
}

/// The diagnostics of a chunking pass, as level and message: a warning
/// when the tree has errors, a note when the walk found no chunk, and a
/// warning when `count` chunks reach the limit.
pub open spec fn chunk_diagnostics(has_error: bool, found_none: bool, count: nat, max: nat) -> Seq<
    (DiagnosticLevel, Seq<u8>),
> {
    (if has_error {
        seq![(DiagnosticLevel::Warning, lit("parse tree contains syntax errors; chunk confidence downgraded"))]
    } else {
        seq![]
    }) + (if found_none {
        seq![
            (
                DiagnosticLevel::Info,
                lit("no recognized chunk boundaries found; falling back to entire file as single chunk"),
            ),
        ]
    } else {
        seq![]
    }) + (if count >= max {
        seq![(DiagnosticLevel::Warning, chunk_limit_message(max))]
    } else {
        seq![]
    })
}

/// The diagnostics have the given levels and messages, and no context.
pub open spec fn diagnostics_are(ds: Seq<Diagnostic>, expected: Seq<(DiagnosticLevel, Seq<u8>)>) -> bool {
    &&& ds.len() == expected.len()
    &&& forall|i: int|
        0 <= i < ds.len() ==> {
            &&& (#[trigger] ds[i]).level == expected[i].0
            &&& utf8(ds[i].message@) == expected[i].1
            &&& ds[i].context is None
        }
}

fn chunk_limit_diagnostic(max: usize) -> (d: Diagnostic)
    ensures
        d.level == DiagnosticLevel::Warning,
        utf8(d.message@) == chunk_limit_message(max as nat),
        d.context is None,
{
    let mut m: Vec<u8> = Vec::new();
    push_str(&mut m, "chunk limit (");
    push_decimal(&mut m, max);
    push_str(&mut m, ") reached; some boundaries were omitted");
    proof {
        let a = lit("chunk limit (");
        let b = decimal(max as nat);
        let c = lit(") reached; some boundaries were omitted");
        lemma_utf8_valid("chunk limit ("@);
        lemma_utf8_valid(") reached; some boundaries were omitted"@);
        lemma_decimal_valid_utf8(max as nat);
        vstd::utf8::valid_utf8_concat(a, b);
        vstd::utf8::valid_utf8_concat(a + b, c);
    }
    Diagnostic::with_level(DiagnosticLevel::Warning, string_from_utf8(m))
}

/// The records of a tree's chunks lie within the source and cost at most
/// one token more than the source has bytes.
proof fn lemma_records_within(
    recs: Seq<ChunkRecord>,
    root: SyntaxNode,
    max: nat,
    path: Seq<char>,
    source: Seq<u8>,
    conf: Confidence,
)
    requires
        wf_node(root, source.len(), 0),
        chunks_match(recs, chunk_entries(root, max), path, source, conf),
    ensures
        ranges_within(recs, source.len()),
        forall|i: int| 0 <= i < recs.len() ==> (#[trigger] recs[i]).estimated_tokens <= source.len() + 1,
{
    lemma_entries_within_source(root, source.len(), max);
    let es = chunk_entries(root, max);
    assert forall|i: int| 0 <= i < recs.len() implies (#[trigger] recs[i]).byte_range.start
        <= recs[i].byte_range.end && recs[i].byte_range.end <= source.len() && recs[i].estimated_tokens
        <= source.len() + 1 by {
        assert(record_is(recs, i, es[i], path, source, conf));
        let n = recs[i].byte_range.spec_len();
        assert(n <= source.len());
        assert(token_estimate(n) <= n + 1);
    }
}

/// The records of a tree's chunks come in document order.
proof fn lemma_records_ordered(
    recs: Seq<ChunkRecord>,
    root: SyntaxNode,
    max: nat,
    path: Seq<char>,
    source: Seq<u8>,
    conf: Confidence,
)
    requires
        wf_node(root, source.len(), 0),
        chunks_match(recs, chunk_entries(root, max), path, source, conf),
    ensures
        in_document_order(recs),
{
    let es = chunk_entries(root, max);
    lemma_chunk_entries_shape(root, source.len(), max);
    reveal(starts_sorted);
    reveal(in_document_order);
    assert forall|i: int, k: int| 0 <= i < k < recs.len() implies (#[trigger] recs[i]).byte_range.start
        <= (#[trigger] recs[k]).byte_range.start by {
        assert(record_is(recs, i, es[i], path, source, conf));
        assert(record_is(recs, k, es[k], path, source, conf));
    }
}

/// The records of a tree's chunks sit within their parents.
proof fn lemma_records_nested(
    recs: Seq<ChunkRecord>,
    root: SyntaxNode,
    max: nat,
    path: Seq<char>,
    source: Seq<u8>,
    conf: Confidence,
)
    requires
        wf_node(root, source.len(), 0),
        chunks_match(recs, chunk_entries(root, max), path, source, conf),
    ensures
        nested_in_parents(recs),
{
    let es = chunk_entries(root, max);
    lemma_chunk_entries_shape(root, source.len(), max);
    reveal(parents_enclose);
    reveal(nested_in_parents);
    assert forall|i: int| 0 <= i < recs.len() && (#[trigger] recs[i]).parent is Some implies exists|j: int|
        0 <= j < i && recs[i].parent == Some(#[trigger] recs[j].id) && recs[j].byte_range.start
            <= recs[i].byte_range.start && recs[i].byte_range.end <= recs[j].byte_range.end && recs[j].depth
            < recs[i].depth by {
        assert(record_is(recs, i, es[i], path, source, conf));
        assert(parent_ok(es, i));
        let j = es[i].2->Some_0 as int;
        assert(record_is(recs, j, es[j], path, source, conf));
    }
}

/// `out` is the chunking of `tree` for the file at `path`: what
/// `chunks_for_tree` gives.
pub open spec fn is_chunking(out: ChunkOutput, tree: SyntaxTree, path: Seq<char>, source: Seq<u8>, options: ChunkOptions) -> bool {
    &&& out.chunks@.len() <= options.max_chunks
    &&& ranges_within(out.chunks@, source.len())
    &&& in_document_order(out.chunks@)
    &&& nested_in_parents(out.chunks@)
    &&& forall|i: int| 0 <= i < out.chunks@.len() ==> (#[trigger] out.chunks@[i]).estimated_tokens <= source.len() + 1
    &&& chunks_match(
        out.chunks@,
        chunk_entries(tree.root, options.max_chunks as nat),
        path,
        source,
        tree_confidence(tree.has_error),
    )
    &&& diagnostics_are(
        out.diagnostics@,
        chunk_diagnostics(
            tree.has_error,
            visit_spec(tree.root, 0, None, seq![], options.max_chunks as nat).len() == 0,
            out.chunks@.len(),
            options.max_chunks as nat,
        ),
    )
}

/// Produce chunks for a parsed source file: each node of a chunk kind
/// becomes a chunk, up to `options.max_chunks`, nested under the nearest
/// chunk above it; a file without any becomes one chunk.
pub fn chunks_for_tree(tree: &SyntaxTree, path: &str, source: &[u8], options: &ChunkOptions) -> (out: ChunkOutput)
    requires
        wf_node(tree.root, source@.len(), 0),
    ensures
        out.chunks@.len() <= options.max_chunks,
        ranges_within(out.chunks@, source@.len()),
        in_document_order(out.chunks@),
        nested_in_parents(out.chunks@),
        forall|i: int| 0 <= i < out.chunks@.len() ==> (#[trigger] out.chunks@[i]).estimated_tokens <= source@.len() + 1,
        chunks_match(
            out.chunks@,
            chunk_entries(tree.root, options.max_chunks as nat),
            path@,
            source@,
            tree_confidence(tree.has_error),
        ),
        diagnostics_are(
            out.diagnostics@,
            chunk_diagnostics(
                tree.has_error,
                visit_spec(tree.root, 0, None, seq![], options.max_chunks as nat).len() == 0,
                out.chunks@.len(),
                options.max_chunks as nat,
            ),
        ),
        is_chunking(out, *tree, path@, source@, *options),
{
    let mut chunker = Chunker {
        path,
        source,
        chunks: Vec::new(),
        options,
        confidence: if tree.has_error {
            Confidence::Low
        } else {
            Confidence::Exact
        },
    };
    let ghost max = options.max_chunks as nat;
    let ghost conf = chunker.confidence;
    let ghost empty: Seq<(SyntaxNode, nat, Option<nat>)> = seq![];
    assert(chunks_match(chunker.chunks@, empty, path@, source@, conf));
    chunker.visit(&tree.root, 0, None, Ghost(None), Ghost(empty));
    let ghost walked = visit_spec(tree.root, 0, None, empty, max);
    proof {
        lemma_visit_len(tree.root, 0, None, empty, max);
    }
    let mut diagnostics: Vec<Diagnostic> = Vec::new();
    let ghost mut expected: Seq<(DiagnosticLevel, Seq<u8>)> = seq![];
    if tree.has_error {
        diagnostics.push(Diagnostic::warn("parse tree contains syntax errors; chunk confidence downgraded"));
        proof {
            expected = expected.push(
                (DiagnosticLevel::Warning, lit("parse tree contains syntax errors; chunk confidence downgraded")),
            );
        }
    }
    let found_none = chunker.chunks.len() == 0;
    if found_none {
        let ghost before = chunker.chunks@;
        chunker.push_chunk(&tree.root, 0, None, Ghost(None));
        proof {
            if max > 0 {
                assert(chunker.chunks@ =~= seq![chunker.chunks@[0]]);
                assert(chunk_entries(tree.root, max) =~= seq![(tree.root, 0nat, None::<nat>)]);
            }
        }
        diagnostics.push(
            Diagnostic::info("no recognized chunk boundaries found; falling back to entire file as single chunk"),
        );
        proof {
            expected = expected.push(
                (
                    DiagnosticLevel::Info,
                    lit("no recognized chunk boundaries found; falling back to entire file as single chunk"),
                ),
            );
        }
    }
    if chunker.chunks.len() >= options.max_chunks {
        diagnostics.push(chunk_limit_diagnostic(options.max_chunks));
        proof {
            expected = expected.push((DiagnosticLevel::Warning, chunk_limit_message(max)));
        }
    }
    proof {
        assert(expected =~= chunk_diagnostics(tree.has_error, walked.len() == 0, chunker.chunks@.len(), max));
        lemma_records_within(chunker.chunks@, tree.root, max, path@, source@, conf);
        lemma_records_ordered(chunker.chunks@, tree.root, max, path@, source@, conf);
        lemma_records_nested(chunker.chunks@, tree.root, max, path@, source@, conf);
    }
    ChunkOutput { chunks: chunker.chunks, diagnostics }
}

} // verus!
