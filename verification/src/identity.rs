//! Stable chunk identity across parse runs.

use vstd::prelude::*;

use crate::schema::{ByteRange, ChunkId, ChunkRecord};
use crate::text::{
    hex32, hex32_bytes, is_lower_hex, lemma_ascii_valid_utf8, lemma_hex_fixed_ascii, lemma_hex_fixed_lower, lemma_utf8_valid, lit, push_bytes, push_str,
    slice_range, string_from_utf8, utf8,
};

verus! {

/// A stable, cross-run identifier for a code chunk.
///
/// Named chunks are identified by `(path, kind, name, parent)`; unnamed
/// chunks fall back to `(path, kind, parent, content)`.
#[derive(Clone, Debug, PartialEq, Eq, Hash, PartialOrd, Ord)]
pub struct StableId(pub String);

/// FNV-1a offset basis for 128 bits.
pub const FNV_OFFSET: u128 = 0x6c62_272e_07bb_0142_62b8_2175_6295_c58d;

/// FNV-1a prime for 128 bits.
pub const FNV_PRIME: u128 = 0x0000_0000_0100_0000_0000_0000_0000_013b;

/// The FNV-1a state after absorbing `bytes`, front to back, from `state`.
pub open spec fn fnv_absorb(state: u128, bytes: Seq<u8>) -> u128
    decreases bytes.len(),
{
    if bytes.len() == 0 {
        state
    } else {
        fnv_absorb((state ^ (bytes[0] as u128)).wrapping_mul(FNV_PRIME), bytes.drop_first())
    }
}

/// Absorbing two pieces one after the other absorbs their concatenation.
pub proof fn lemma_fnv_absorb_concat(state: u128, a: Seq<u8>, b: Seq<u8>)
    ensures
        fnv_absorb(fnv_absorb(state, a), b) == fnv_absorb(state, a + b),
    decreases a.len(),
{
    if a.len() > 0 {
        let next = (state ^ (a[0] as u128)).wrapping_mul(FNV_PRIME);
        lemma_fnv_absorb_concat(next, a.drop_first(), b);
        assert((a + b).drop_first() =~= a.drop_first() + b);
    } else {
        assert(a + b =~= b);
    }
}

/// The little-endian bytes of the lowest `width` bytes of `n`.
pub open spec fn le_bytes(n: nat, width: nat) -> Seq<u8>
    decreases width,
{
    if width == 0 {
        seq![]
    } else {
        seq![(n % 256) as u8] + le_bytes(n / 256, (width - 1) as nat)
    }
}

/// A length-prefixed field: the length as eight little-endian bytes, then the bytes.
pub open spec fn field(bytes: Seq<u8>) -> Seq<u8> {
    le_bytes(bytes.len(), 8) + bytes
}

/// An optional field: a presence byte, then the field when present.
pub open spec fn optional_field(bytes: Option<Seq<u8>>) -> Seq<u8> {
    match bytes {
        Some(b) => seq![1u8] + field(b),
        None => seq![0u8],
    }
}

/// A deterministic 128-bit FNV-1a digest.
pub struct StableDigest(pub u128);

impl StableDigest {
    /// A digest that has absorbed nothing.
    pub fn new() -> (d: Self)
        ensures
            d.0 == FNV_OFFSET,
    {
        StableDigest(FNV_OFFSET)
    }

    /// Absorb raw bytes.
    pub fn write_bytes(&mut self, bytes: &[u8])
        ensures
            final(self).0 == fnv_absorb(old(self).0, bytes@),
    {
        let mut i: usize = 0;
        assert(bytes@.subrange(0, bytes@.len() as int) =~= bytes@);
        while i < bytes.len()
            invariant
                i <= bytes.len(),
                fnv_absorb(old(self).0, bytes@) == fnv_absorb(self.0, bytes@.subrange(i as int, bytes@.len() as int)),
            decreases bytes.len() - i,
        {
            let ghost rest = bytes@.subrange(i as int, bytes@.len() as int);
            assert(rest[0] == bytes@[i as int]);
            assert(rest.drop_first() =~= bytes@.subrange(i + 1, bytes@.len() as int));
            self.0 = (self.0 ^ (bytes[i] as u128)).wrapping_mul(FNV_PRIME);
            i = i + 1;
        }
        assert(bytes@.subrange(i as int, bytes@.len() as int) =~= Seq::<u8>::empty());
    }

    /// Absorb a length-prefixed field.
    pub fn write_field(&mut self, bytes: &[u8])
        ensures
            final(self).0 == fnv_absorb(old(self).0, field(bytes@)),
    {
        let len = le_bytes_u64(bytes.len() as u64);
        self.write_bytes(len.as_slice());
        self.write_bytes(bytes);
        proof {
            lemma_fnv_absorb_concat(old(self).0, len@, bytes@);
        }
    }

    /// Absorb an optional field.
    pub fn write_optional_field(&mut self, bytes: Option<&[u8]>)
        ensures
            final(self).0 == fnv_absorb(
                old(self).0,
                optional_field(
                    match bytes {
                        Some(b) => Some(b@),
                        None => None,
                    },
                ),
            ),
    {
        match bytes {
            Some(b) => {
                let one: Vec<u8> = vec![1u8];
                self.write_bytes(one.as_slice());
                let ghost mid = self.0;
                self.write_field(b);
                proof {
                    lemma_fnv_absorb_concat(old(self).0, one@, field(b@));
                    assert(one@ =~= seq![1u8]);
                }
            },
            None => {
                let zero: Vec<u8> = vec![0u8];
                self.write_bytes(zero.as_slice());
                assert(zero@ =~= seq![0u8]);
            },
        }
    }

    /// The digest value.
    pub fn finish(self) -> (v: u128)
        ensures
            v == self.0,
    {
        self.0
    }
}

/// The eight little-endian bytes of `n`, as `u64::to_le_bytes` gives them.
fn le_bytes_u64(n: u64) -> (r: Vec<u8>)
    ensures
        r@ == le_bytes(n as nat, 8),
{
    let mut r: Vec<u8> = Vec::new();
    let mut cur: u64 = n;
    let mut k: usize = 0;
    while k < 8
        invariant
            k <= 8,
            le_bytes(n as nat, 8) == r@ + le_bytes(cur as nat, (8 - k) as nat),
        decreases 8 - k,
    {
        proof {
            assert(le_bytes(cur as nat, (8 - k) as nat) == seq![((cur as nat) % 256) as u8] + le_bytes(
                (cur / 256) as nat,
                (8 - k - 1) as nat,
            ));
        }
        r.push((cur % 256) as u8);
        cur = cur / 256;
        k = k + 1;
        assert(le_bytes(n as nat, 8) =~= r@ + le_bytes(cur as nat, (8 - k) as nat));
    }
    assert(le_bytes(cur as nat, 0) =~= Seq::<u8>::empty());
    assert(r@ + le_bytes(cur as nat, 0) =~= r@);
    r
}

/// A path with every backslash turned into a slash.
pub open spec fn normalized_path(path: Seq<u8>) -> Seq<u8> {
    path.map_values(|b: u8| if b == 0x5cu8 { 0x2fu8 } else { b })
}

fn normalize_path_bytes(path: &[u8]) -> (r: Vec<u8>)
    ensures
        r@ == normalized_path(path@),
{
    let mut r: Vec<u8> = Vec::new();
    let mut i: usize = 0;
    while i < path.len()
        invariant
            i <= path.len(),
            r@ == normalized_path(path@.subrange(0, i as int)),
        decreases path.len() - i,
    {
        let b = path[i];
        r.push(if b == 0x5cu8 { 0x2fu8 } else { b });
        i = i + 1;
        assert(normalized_path(path@.subrange(0, i as int)) =~= r@);
    }
    assert(path@.subrange(0, path@.len() as int) =~= path@);
    r
}

/// The identity fields that every stable identifier absorbs: path, kind,
/// name, parent kind and parent name.
pub open spec fn stable_digest_head(
    path: Seq<char>,
    kind: Seq<char>,
    name: Option<Seq<char>>,
    parent: Option<ChunkId>,
) -> Seq<u8> {
    field(normalized_path(utf8(path))) + field(utf8(kind)) + optional_field(
        match name {
            Some(n) => Some(utf8(n)),
            None => None,
        },
    ) + optional_field(
        match parent {
            Some(p) => Some(utf8(p.kind@)),
            None => None,
        },
    ) + optional_field(
        match parent {
            Some(p) => match p.name {
                Some(n) => Some(utf8(n@)),
                None => None,
            },
            None => None,
        },
    )
}

/// The bytes that the digest of a stable identifier absorbs: the identity
/// fields, and for an unnamed chunk its content as a last field.
pub open spec fn stable_digest_input(
    path: Seq<char>,
    kind: Seq<char>,
    name: Option<Seq<char>>,
    parent: Option<ChunkId>,
    content: Seq<u8>,
) -> Seq<u8> {
    if name is Some {
        stable_digest_head(path, kind, name, parent)
    } else {
        stable_digest_head(path, kind, name, parent) + field(content)
    }
}

/// The bytes of a chunk's content: `source[start..min(end, len)]`.
pub open spec fn chunk_content(source: Seq<u8>, range: ByteRange) -> Seq<u8> {
    let end = if range.end <= source.len() {
        range.end as int
    } else {
        source.len() as int
    };
    source.subrange(range.start as int, end)
}

/// The text of a stable identifier: `named:` or `unnamed:` and the
/// 32-digit hex FNV-1a digest of the identity fields.
pub open spec fn stable_id_text(
    path: Seq<char>,
    kind: Seq<char>,
    name: Option<Seq<char>>,
    parent: Option<ChunkId>,
    source: Seq<u8>,
    range: ByteRange,
) -> Seq<u8> {
    let digest = fnv_absorb(
        FNV_OFFSET,
        stable_digest_input(path, kind, name, parent, chunk_content(source, range)),
    );
    if name is Some {
        lit("named:") + hex32(digest)
    } else {
        lit("unnamed:") + hex32(digest)
    }
}

/// A stable identifier reads `named:` for a named chunk and `unnamed:`
/// otherwise, followed by exactly 32 lowercase hex digits.
pub proof fn lemma_stable_id_form(
    path: Seq<char>,
    kind: Seq<char>,
    name: Option<Seq<char>>,
    parent: Option<ChunkId>,
    source: Seq<u8>,
    range: ByteRange,
)
    ensures
        ({
            let t = stable_id_text(path, kind, name, parent, source, range);
            let prefix = if name is Some {
                lit("named:")
            } else {
                lit("unnamed:")
            };
            &&& t.len() == prefix.len() + 32
            &&& t.take(prefix.len() as int) == prefix
            &&& forall|i: int| prefix.len() <= i < t.len() ==> is_lower_hex(#[trigger] t[i])
        }),
{
    let digest = fnv_absorb(
        FNV_OFFSET,
        stable_digest_input(path, kind, name, parent, chunk_content(source, range)),
    );
    lemma_hex_fixed_lower(digest as nat, 32);
    let prefix = if name is Some {
        lit("named:")
    } else {
        lit("unnamed:")
    };
    let t = stable_id_text(path, kind, name, parent, source, range);
    assert(t == prefix + hex32(digest));
    assert(t.take(prefix.len() as int) =~= prefix);
    assert forall|i: int| prefix.len() <= i < t.len() implies is_lower_hex(#[trigger] t[i]) by {
        assert(t[i] == hex32(digest)[i - prefix.len()]);
    }
}

/// A named chunk keeps its stable identifier wherever it sits and whatever
/// its text: the identifier does not depend on the source or the range.
pub proof fn lemma_named_id_ignores_position(
    path: Seq<char>,
    kind: Seq<char>,
    name: Seq<char>,
    parent: Option<ChunkId>,
    source1: Seq<u8>,
    range1: ByteRange,
    source2: Seq<u8>,
    range2: ByteRange,
)
    ensures
        stable_id_text(path, kind, Some(name), parent, source1, range1) == stable_id_text(
            path,
            kind,
            Some(name),
            parent,
            source2,
            range2,
        ),
{
}

/// An unnamed chunk's stable identifier depends on its text, not on where
/// that text sits: equal content gives equal identifiers.
pub proof fn lemma_unnamed_id_follows_content(
    path: Seq<char>,
    kind: Seq<char>,
    parent: Option<ChunkId>,
    source1: Seq<u8>,
    range1: ByteRange,
    source2: Seq<u8>,
    range2: ByteRange,
)
    requires
        chunk_content(source1, range1) == chunk_content(source2, range2),
    ensures
        stable_id_text(path, kind, None, parent, source1, range1) == stable_id_text(
            path,
            kind,
            None,
            parent,
            source2,
            range2,
        ),
{
}

/// Paths that differ only in `\` against `/` give the same identifier.
pub proof fn lemma_id_path_separator_insensitive(
    path1: Seq<char>,
    path2: Seq<char>,
    kind: Seq<char>,
    name: Option<Seq<char>>,
    parent: Option<ChunkId>,
    source: Seq<u8>,
    range: ByteRange,
)
    requires
        normalized_path(utf8(path1)) == normalized_path(utf8(path2)),
    ensures
        stable_id_text(path1, kind, name, parent, source, range) == stable_id_text(
            path2,
            kind,
            name,
            parent,
            source,
            range,
        ),
{
}

/// The view of an optional borrowed string.
pub open spec fn opt_str_view(s: Option<&str>) -> Option<Seq<char>> {
    match s {
        Some(n) => Some(n@),
        None => None,
    }
}

/// The value behind an optional borrowed chunk identifier.
pub open spec fn opt_chunk_id(p: Option<&ChunkId>) -> Option<ChunkId> {
    match p {
        Some(p) => Some(*p),
        None => None,
    }
}

fn digest_head(path: &str, kind: &str, name: Option<&str>, parent: Option<&ChunkId>) -> (d: StableDigest)
    ensures
        d.0 == fnv_absorb(
            FNV_OFFSET,
            stable_digest_head(path@, kind@, opt_str_view(name), opt_chunk_id(parent)),
        ),
{
    let mut digest = StableDigest::new();
    let npath = normalize_path_bytes(path.as_bytes());
    digest.write_field(npath.as_slice());
    digest.write_field(kind.as_bytes());
    match name {
        Some(n) => digest.write_optional_field(Some(n.as_bytes())),
        None => digest.write_optional_field(None),
    }
    match parent {
        Some(p) => digest.write_optional_field(Some(p.kind.as_str().as_bytes())),
        None => digest.write_optional_field(None),
    }
    match parent {
        Some(p) => match &p.name {
            Some(n) => digest.write_optional_field(Some(n.as_str().as_bytes())),
            None => digest.write_optional_field(None),
        },
        None => digest.write_optional_field(None),
    }
    proof {
        let f1 = field(normalized_path(utf8(path@)));
        let f2 = field(utf8(kind@));
        let f3 = optional_field(
            match opt_str_view(name) {
                Some(n) => Some(utf8(n)),
                None => None,
            },
        );
        let f4 = optional_field(
            match opt_chunk_id(parent) {
                Some(p) => Some(utf8(p.kind@)),
                None => None,
            },
        );
        let f5 = optional_field(
            match opt_chunk_id(parent) {
                Some(p) => match p.name {
                    Some(n) => Some(utf8(n@)),
                    None => None,
                },
                None => None,
            },
        );
        lemma_fnv_absorb_concat(FNV_OFFSET, f1, f2);
        lemma_fnv_absorb_concat(FNV_OFFSET, f1 + f2, f3);
        lemma_fnv_absorb_concat(FNV_OFFSET, f1 + f2 + f3, f4);
        lemma_fnv_absorb_concat(FNV_OFFSET, f1 + f2 + f3 + f4, f5);
    }
    digest
}

/// The identifier text `prefix` followed by the 32 hex digits of `digest`.
fn id_string(prefix: &str, digest: u128) -> (s: String)
    ensures
        utf8(s@) == lit(prefix) + hex32(digest),
{
    let mut out: Vec<u8> = Vec::new();
    let h = hex32_bytes(digest);
    push_str(&mut out, prefix);
    push_bytes(&mut out, h.as_slice());
    proof {
        lemma_hex_fixed_ascii(digest as nat, 32);
        lemma_ascii_valid_utf8(hex32(digest));
        lemma_utf8_valid(prefix@);
        vstd::utf8::valid_utf8_concat(lit(prefix), hex32(digest));
    }
    string_from_utf8(out)
}

impl StableId {
    /// Compute a stable identifier from chunk metadata and source bytes.
    pub fn compute(
        path: &str,
        kind: &str,
        name: Option<&str>,
        parent: Option<&ChunkId>,
        source: &[u8],
        byte_range: &ByteRange,
    ) -> (id: Self)
        requires
            name is Some || byte_range.start <= (if byte_range.end <= source@.len() {
                byte_range.end as int
            } else {
                source@.len() as int
            }),
        ensures
            utf8(id.0@) == stable_id_text(
                path@,
                kind@,
                opt_str_view(name),
                opt_chunk_id(parent),
                source@,
                *byte_range,
            ),
    {
        let mut digest = digest_head(path, kind, name, parent);
        if name.is_some() {
            StableId(id_string("named:", digest.finish()))
        } else {
            let end = if byte_range.end <= source.len() { byte_range.end } else { source.len() };
            let content = slice_range(source, byte_range.start, end);
            let ghost before = digest.0;
            digest.write_field(content.as_slice());
            proof {
                lemma_fnv_absorb_concat(
                    FNV_OFFSET,
                    stable_digest_head(path@, kind@, opt_str_view(name), opt_chunk_id(parent)),
                    field(content@),
                );
            }
            StableId(id_string("unnamed:", digest.finish()))
        }
    }
}


} // verus!

verus! {

/// Result of matching a chunk across two parse runs.
#[derive(Clone, Debug, PartialEq, Eq)]
pub enum MatchResult {
    /// The chunk exists in both old and new with the same stable identity.
    Unchanged { old: ChunkRecord, new: ChunkRecord },
    /// The chunk only exists in the old snapshot.
    Removed { old: ChunkRecord },
    /// The chunk only exists in the new snapshot.
    Added { new: ChunkRecord },
}

/// The text of a chunk's stable identifier.
pub open spec fn id_of(c: ChunkRecord) -> Seq<char> {
    c.stable_id.0@
}

/// The chunks of `s` whose stable identifier is `id`, in order.
pub open spec fn with_id(s: Seq<ChunkRecord>, id: Seq<char>) -> Seq<ChunkRecord>
    decreases s.len(),
{
    if s.len() == 0 {
        seq![]
    } else {
        with_id(s.drop_last(), id) + if id_of(s.last()) == id {
            seq![s.last()]
        } else {
            seq![]
        }
    }
}

/// How many chunks before position `i` share the stable identifier of `s[i]`.
pub open spec fn rank_in(s: Seq<ChunkRecord>, i: int) -> nat {
    with_id(s.take(i), id_of(s[i])).len()
}

/// How many chunks with identifier `id` the old and new runs have in common.
pub open spec fn kept_count(old: Seq<ChunkRecord>, new: Seq<ChunkRecord>, id: Seq<char>) -> nat {
    let a = with_id(old, id).len();
    let b = with_id(new, id).len();
    if a <= b {
        a
    } else {
        b
    }
}

/// The result for the old chunk at position `i`: the `r`-th old chunk
/// with an identifier is paired with the `r`-th new chunk with it, if
/// there is one, and is removed otherwise.
pub open spec fn old_result(old: Seq<ChunkRecord>, new: Seq<ChunkRecord>, i: int) -> MatchResult {
    let id = id_of(old[i]);
    let r = rank_in(old, i);
    if r < with_id(new, id).len() {
        MatchResult::Unchanged { old: old[i], new: with_id(new, id)[r as int] }
    } else {
        MatchResult::Removed { old: old[i] }
    }
}

/// The added results produced while walking the first `n` new chunks:
/// the `r`-th new chunk with an identifier yields the next unpaired new
/// chunk with that identifier, while unpaired ones remain.
pub open spec fn added_results(old: Seq<ChunkRecord>, new: Seq<ChunkRecord>, n: int) -> Seq<MatchResult>
    decreases n,
{
    if n <= 0 {
        seq![]
    } else {
        let j = n - 1;
        let id = id_of(new[j]);
        let all = with_id(new, id);
        let r = rank_in(new, j);
        let m = kept_count(old, new, id);
        added_results(old, new, n - 1) + if r + m < all.len() {
            seq![MatchResult::Added { new: all[(m + r) as int] }]
        } else {
            seq![]
        }
    }
}

/// All match results: one per old chunk in old order, then the added
/// new chunks in new order.
pub open spec fn match_results(old: Seq<ChunkRecord>, new: Seq<ChunkRecord>) -> Seq<MatchResult> {
    Seq::new(old.len(), |i: int| old_result(old, new, i)) + added_results(old, new, new.len() as int)
}

proof fn lemma_with_id_take_step(s: Seq<ChunkRecord>, id: Seq<char>, j: int)
    requires
        0 <= j < s.len(),
    ensures
        with_id(s.take(j + 1), id) == with_id(s.take(j), id) + if id_of(s[j]) == id {
            seq![s[j]]
        } else {
            seq![]
        },
{
    assert(s.take(j + 1).drop_last() =~= s.take(j));
    assert(s.take(j + 1).last() == s[j]);
}

proof fn lemma_with_id_prefix(s: Seq<ChunkRecord>, id: Seq<char>, a: int, b: int)
    requires
        0 <= a <= b <= s.len(),
    ensures
        with_id(s.take(a), id).len() <= with_id(s.take(b), id).len(),
        forall|k: int| 0 <= k < with_id(s.take(a), id).len() ==>
            #[trigger] with_id(s.take(b), id)[k] == with_id(s.take(a), id)[k],
    decreases b - a,
{
    if a < b {
        lemma_with_id_prefix(s, id, a, b - 1);
        lemma_with_id_take_step(s, id, b - 1);
    }
}

proof fn lemma_with_id_full(s: Seq<ChunkRecord>, id: Seq<char>)
    ensures
        with_id(s.take(s.len() as int), id) == with_id(s, id),
{
    assert(s.take(s.len() as int) =~= s);
}

/// How many of `s[0..i]` have the identifier `id`.
fn count_with_id(s: &[ChunkRecord], i: usize, id: &String) -> (n: usize)
    requires
        i <= s@.len(),
    ensures
        n == with_id(s@.take(i as int), id@).len(),
{
    let mut n: usize = 0;
    let mut k: usize = 0;
    assert(s@.take(0) =~= Seq::<ChunkRecord>::empty());
    while k < i
        invariant
            k <= i <= s@.len(),
            n == with_id(s@.take(k as int), id@).len(),
            n <= k,
        decreases i - k,
    {
        proof {
            lemma_with_id_take_step(s@, id@, k as int);
        }
        if s[k].stable_id.0 == *id {
            n = n + 1;
        }
        k = k + 1;
    }
    n
}

/// The position of the `r`-th chunk of `s` with identifier `id`, if any.
fn nth_with_id(s: &[ChunkRecord], id: &String, r: usize) -> (res: Option<usize>)
    ensures
        match res {
            Some(j) => j < s@.len() && r < with_id(s@, id@).len() && s@[j as int] == with_id(
                s@,
                id@,
            )[r as int],
            None => r >= with_id(s@, id@).len(),
        },
{
    let mut c: usize = 0;
    let mut j: usize = 0;
    assert(s@.take(0) =~= Seq::<ChunkRecord>::empty());
    while j < s.len()
        invariant
            j <= s@.len(),
            c == with_id(s@.take(j as int), id@).len(),
            c <= r,
            c <= j,
        decreases s@.len() - j,
    {
        proof {
            lemma_with_id_take_step(s@, id@, j as int);
        }
        if s[j].stable_id.0 == *id {
            if c == r {
                proof {
                    lemma_with_id_prefix(s@, id@, j + 1, s@.len() as int);
                    lemma_with_id_full(s@, id@);
                    assert(with_id(s@.take(j + 1), id@)[r as int] == s@[j as int]);
                }
                return Some(j);
            }
            c = c + 1;
        }
        j = j + 1;
    }
    proof {
        lemma_with_id_full(s@, id@);
    }
    None
}

/// Whether the chunks of a match result come from the runs it matched.
pub open spec fn result_from(m: MatchResult, old: Seq<ChunkRecord>, new: Seq<ChunkRecord>) -> bool {
    match m {
        MatchResult::Unchanged { old: o, new: n } => old.contains(o) && new.contains(n),
        MatchResult::Removed { old: o } => old.contains(o),
        MatchResult::Added { new: n } => new.contains(n),
    }
}

proof fn lemma_with_id_members(s: Seq<ChunkRecord>, id: Seq<char>)
    ensures
        forall|k: int| 0 <= k < with_id(s, id).len() ==> s.contains(#[trigger] with_id(s, id)[k]),
    decreases s.len(),
{
    if s.len() > 0 {
        lemma_with_id_members(s.drop_last(), id);
        let w = with_id(s, id);
        let p = with_id(s.drop_last(), id);
        assert forall|k: int| 0 <= k < w.len() implies s.contains(#[trigger] w[k]) by {
            if k < p.len() {
                assert(w[k] == p[k]);
                let j = choose|j: int| 0 <= j < s.drop_last().len() && s.drop_last()[j] == p[k];
                assert(s[j] == w[k]);
            } else {
                assert(w[k] == s.last());
                assert(s[s.len() - 1] == w[k]);
            }
        }
    }
}

proof fn lemma_added_from(old: Seq<ChunkRecord>, new: Seq<ChunkRecord>, n: int)
    requires
        0 <= n <= new.len(),
    ensures
        forall|k: int|
            0 <= k < added_results(old, new, n).len() ==> result_from(#[trigger] added_results(old, new, n)[k], old, new),
    decreases n,
{
    if n > 0 {
        lemma_added_from(old, new, n - 1);
        let id = id_of(new[n - 1]);
        lemma_with_id_members(new, id);
        let a = added_results(old, new, n);
        let p = added_results(old, new, n - 1);
        assert forall|k: int| 0 <= k < a.len() implies result_from(#[trigger] a[k], old, new) by {
            if k < p.len() {
                assert(a[k] == p[k]);
            }
        }
    }
}

/// Every match result pairs chunks of the two runs.
pub proof fn lemma_match_results_from(old: Seq<ChunkRecord>, new: Seq<ChunkRecord>)
    ensures
        forall|k: int|
            0 <= k < match_results(old, new).len() ==> result_from(#[trigger] match_results(old, new)[k], old, new),
{
    lemma_added_from(old, new, new.len() as int);
    let ms = match_results(old, new);
    assert forall|k: int| 0 <= k < ms.len() implies result_from(#[trigger] ms[k], old, new) by {
        if k < old.len() {
            lemma_with_id_members(new, id_of(old[k]));
            assert(old[k] == old[k]);
            assert(old.contains(old[k]));
        } else {
            assert(ms[k] == added_results(old, new, new.len() as int)[k - old.len()]);
        }
    }
}

/// The old chunks that results carry, in result order.
pub open spec fn old_sides(ms: Seq<MatchResult>) -> Seq<ChunkRecord>
    decreases ms.len(),
{
    if ms.len() == 0 {
        seq![]
    } else {
        old_sides(ms.drop_last()) + match ms.last() {
            MatchResult::Unchanged { old, .. } => seq![old],
            MatchResult::Removed { old } => seq![old],
            MatchResult::Added { .. } => seq![],
        }
    }
}

/// The new chunks that results carry, in result order.
pub open spec fn new_sides(ms: Seq<MatchResult>) -> Seq<ChunkRecord>
    decreases ms.len(),
{
    if ms.len() == 0 {
        seq![]
    } else {
        new_sides(ms.drop_last()) + match ms.last() {
            MatchResult::Unchanged { new, .. } => seq![new],
            MatchResult::Added { new } => seq![new],
            MatchResult::Removed { .. } => seq![],
        }
    }
}

proof fn lemma_sides_concat(a: Seq<MatchResult>, b: Seq<MatchResult>)
    ensures
        old_sides(a + b) == old_sides(a) + old_sides(b),
        new_sides(a + b) == new_sides(a) + new_sides(b),
    decreases b.len(),
{
    if b.len() == 0 {
        assert(a + b =~= a);
    } else {
        lemma_sides_concat(a, b.drop_last());
        assert((a + b).drop_last() =~= a + b.drop_last());
        assert((a + b).last() == b.last());
    }
}

proof fn lemma_with_id_concat(s: Seq<ChunkRecord>, t: Seq<ChunkRecord>, id: Seq<char>)
    ensures
        with_id(s + t, id) == with_id(s, id) + with_id(t, id),
    decreases t.len(),
{
    if t.len() == 0 {
        assert(s + t =~= s);
    } else {
        lemma_with_id_concat(s, t.drop_last(), id);
        assert((s + t).drop_last() =~= s + t.drop_last());
        assert((s + t).last() == t.last());
    }
}

proof fn lemma_with_id_single(x: ChunkRecord, id: Seq<char>)
    ensures
        with_id(seq![x], id) == if id_of(x) == id {
            seq![x]
        } else {
            seq![]
        },
{
    assert(seq![x].drop_last() =~= Seq::<ChunkRecord>::empty());
    assert(with_id(Seq::<ChunkRecord>::empty(), id) == Seq::<ChunkRecord>::empty());
    assert(with_id(seq![x], id) =~= if id_of(x) == id {
        seq![x]
    } else {
        seq![]
    });
}

proof fn lemma_sides_single(m: MatchResult)
    ensures
        old_sides(seq![m]) == match m {
            MatchResult::Unchanged { old, .. } => seq![old],
            MatchResult::Removed { old } => seq![old],
            MatchResult::Added { .. } => Seq::<ChunkRecord>::empty(),
        },
        new_sides(seq![m]) == match m {
            MatchResult::Unchanged { new, .. } => seq![new],
            MatchResult::Added { new } => seq![new],
            MatchResult::Removed { .. } => Seq::<ChunkRecord>::empty(),
        },
{
    assert(seq![m].drop_last() =~= Seq::<MatchResult>::empty());
    assert(old_sides(Seq::<MatchResult>::empty()) == Seq::<ChunkRecord>::empty());
    assert(new_sides(Seq::<MatchResult>::empty()) == Seq::<ChunkRecord>::empty());
    assert(old_sides(seq![m]) =~= match m {
        MatchResult::Unchanged { old, .. } => seq![old],
        MatchResult::Removed { old } => seq![old],
        MatchResult::Added { .. } => Seq::<ChunkRecord>::empty(),
    });
    assert(new_sides(seq![m]) =~= match m {
        MatchResult::Unchanged { new, .. } => seq![new],
        MatchResult::Added { new } => seq![new],
        MatchResult::Removed { .. } => Seq::<ChunkRecord>::empty(),
    });
}

/// The old results of the first `i` old chunks carry, among chunks with
/// identifier `id`, the first `min(a, b)` new ones, where `a` counts the
/// old chunks with `id` among those `i` and `b` all new chunks with `id`.
proof fn lemma_old_results_new_sides(old: Seq<ChunkRecord>, new: Seq<ChunkRecord>, id: Seq<char>, i: int)
    requires
        0 <= i <= old.len(),
    ensures
        ({
            let a = with_id(old.take(i), id).len();
            let all = with_id(new, id);
            with_id(new_sides(Seq::new(i as nat, |k: int| old_result(old, new, k))), id) == all.take(
                if a <= all.len() {
                    a as int
                } else {
                    all.len() as int
                },
            )
        }),
        old_sides(Seq::new(i as nat, |k: int| old_result(old, new, k))) == old.take(i),
    decreases i,
{
    let ms = Seq::new(i as nat, |k: int| old_result(old, new, k));
    if i == 0 {
        assert(ms =~= Seq::<MatchResult>::empty());
        assert(old.take(0) =~= Seq::<ChunkRecord>::empty());
        assert(with_id(new, id).take(0) =~= Seq::<ChunkRecord>::empty());
    } else {
        let j = i - 1;
        lemma_old_results_new_sides(old, new, id, j);
        let prev = Seq::new(j as nat, |k: int| old_result(old, new, k));
        assert(ms.drop_last() =~= prev);
        assert(ms.last() == old_result(old, new, j));
        lemma_with_id_take_step(old, id, j);
        assert(old.take(i) =~= old.take(j).push(old[j]));
        let all = with_id(new, id);
        let oid = id_of(old[j]);
        let other = with_id(new, oid);
        lemma_with_id_ids(new, oid);
        let sides = new_sides(ms);
        let psides = new_sides(prev);
        match old_result(old, new, j) {
            MatchResult::Unchanged { new: n, .. } => {
                assert(sides == psides + seq![n]);
                lemma_with_id_concat(psides, seq![n], id);
                lemma_with_id_single(n, id);
                if oid == id {
                    let a = with_id(old.take(j), id).len();
                    assert(all.take(a + 1 as int) =~= all.take(a as int).push(all[a as int]));
                }
            },
            MatchResult::Removed { .. } => {
                assert(sides == psides);
            },
            MatchResult::Added { .. } => {},
        }
    }
}

/// The added results of the first `n` new chunks carry, among chunks with
/// identifier `id`, the new ones from position `m` on, up to `m` plus the
/// count of new chunks with `id` among those `n`, where `m` is how many
/// chunks with `id` the runs have in common.
proof fn lemma_added_results_new_sides(old: Seq<ChunkRecord>, new: Seq<ChunkRecord>, id: Seq<char>, n: int)
    requires
        0 <= n <= new.len(),
    ensures
        ({
            let all = with_id(new, id);
            let m = kept_count(old, new, id);
            let c = with_id(new.take(n), id).len();
            with_id(new_sides(added_results(old, new, n)), id) == all.subrange(
                m as int,
                if m + c <= all.len() {
                    (m + c) as int
                } else {
                    all.len() as int
                },
            )
        }),
        old_sides(added_results(old, new, n)).len() == 0,
    decreases n,
{
    let all = with_id(new, id);
    let m = kept_count(old, new, id);
    if n == 0 {
        assert(new.take(0) =~= Seq::<ChunkRecord>::empty());
        assert(all.subrange(m as int, m as int) =~= Seq::<ChunkRecord>::empty());
    } else {
        let j = n - 1;
        lemma_added_results_new_sides(old, new, id, j);
        lemma_with_id_take_step(new, id, j);
        assert(new.take(n) =~= new.take(j).push(new[j]));
        let nid = id_of(new[j]);
        let other = with_id(new, nid);
        lemma_with_id_ids(new, nid);
        lemma_with_id_prefix(new, nid, j, new.len() as int);
        lemma_with_id_full(new, nid);
        let prev = added_results(old, new, j);
        let tail: Seq<MatchResult> = if rank_in(new, j) + kept_count(old, new, nid) < other.len() {
            seq![MatchResult::Added { new: other[(kept_count(old, new, nid) + rank_in(new, j)) as int] }]
        } else {
            seq![]
        };
        assert(added_results(old, new, n) == prev + tail);
        lemma_sides_concat(prev, tail);
        if tail.len() > 0 {
            let x = other[(kept_count(old, new, nid) + rank_in(new, j)) as int];
            lemma_sides_single(MatchResult::Added { new: x });
            lemma_with_id_concat(new_sides(prev), seq![x], id);
            lemma_with_id_single(x, id);
            if nid == id {
                let c = with_id(new.take(j), id).len();
                assert(all.subrange(m as int, (m + c + 1) as int) =~= all.subrange(m as int, (m + c) as int).push(
                    all[(m + c) as int],
                ));
            }
        } else {
            assert(new_sides(tail) == Seq::<ChunkRecord>::empty());
            assert(old_sides(tail) == Seq::<ChunkRecord>::empty());
            assert(new_sides(prev) + new_sides(tail) =~= new_sides(prev));
        }
    }
}

/// A record occurs in a sequence as often as among the records with its
/// identifier.
proof fn lemma_count_by_id(s: Seq<ChunkRecord>, c: ChunkRecord)
    ensures
        s.to_multiset().count(c) == with_id(s, id_of(c)).to_multiset().count(c),
    decreases s.len(),
{
    broadcast use vstd::seq_lib::group_to_multiset_ensures, vstd::multiset::group_multiset_axioms;

    if s.len() == 0 {
        assert(with_id(s, id_of(c)) =~= Seq::<ChunkRecord>::empty());
        assert(s =~= Seq::<ChunkRecord>::empty());
    } else {
        let t = s.drop_last();
        let w = with_id(t, id_of(c));
        lemma_count_by_id(t, c);
        assert(t.push(s.last()) =~= s);
        assert(s.to_multiset() == t.push(s.last()).to_multiset());
        if id_of(s.last()) == id_of(c) {
            assert(with_id(s, id_of(c)) =~= w.push(s.last()));
            assert(with_id(s, id_of(c)).to_multiset() == w.push(s.last()).to_multiset());
        } else {
            assert(with_id(s, id_of(c)) =~= w);
            assert(s.last() != c);
        }
    }
}

/// Matching accounts for every chunk once: the results carry each old
/// chunk once, in old order, and each new chunk once; among the chunks
/// with any one identifier, the new ones come in new order.
pub proof fn lemma_match_accounts_for_every_chunk(old: Seq<ChunkRecord>, new: Seq<ChunkRecord>)
    ensures
        old_sides(match_results(old, new)) == old,
        forall|id: Seq<char>| #[trigger] with_id(new_sides(match_results(old, new)), id) == with_id(new, id),
        new_sides(match_results(old, new)).to_multiset() == new.to_multiset(),
{
    let olds = Seq::new(old.len(), |k: int| old_result(old, new, k));
    let adds = added_results(old, new, new.len() as int);
    lemma_sides_concat(olds, adds);
    assert(match_results(old, new) == olds + adds);
    lemma_old_results_new_sides(old, new, seq![], old.len() as int);
    lemma_added_results_new_sides(old, new, seq![], new.len() as int);
    assert(old.take(old.len() as int) =~= old);
    assert(old_sides(adds) =~= Seq::<ChunkRecord>::empty());
    assert(old_sides(olds) + old_sides(adds) =~= old);
    let sides = new_sides(match_results(old, new));
    assert forall|id: Seq<char>| #[trigger] with_id(sides, id) == with_id(new, id) by {
        lemma_old_results_new_sides(old, new, id, old.len() as int);
        lemma_added_results_new_sides(old, new, id, new.len() as int);
        lemma_with_id_concat(new_sides(olds), new_sides(adds), id);
        lemma_with_id_full(old, id);
        lemma_with_id_full(new, id);
        let all = with_id(new, id);
        let m = kept_count(old, new, id);
        assert(all.take(m as int) + all.subrange(m as int, all.len() as int) =~= all);
    }
    assert forall|c: ChunkRecord| sides.to_multiset().count(c) == new.to_multiset().count(c) by {
        lemma_count_by_id(sides, c);
        lemma_count_by_id(new, c);
    }
    assert(sides.to_multiset() =~= new.to_multiset());
}

/// Matching walks the old chunks first: result `i` is the `i`-th old
/// chunk, kept (paired with a new chunk of the same identifier) or
/// removed; every later result adds a new chunk.
pub proof fn lemma_match_results_shape(old: Seq<ChunkRecord>, new: Seq<ChunkRecord>)
    ensures
        match_results(old, new).len() >= old.len(),
        forall|i: int|
            0 <= i < old.len() ==> match #[trigger] match_results(old, new)[i] {
                MatchResult::Unchanged { old: o, new: n } => o == old[i] && id_of(n) == id_of(o),
                MatchResult::Removed { old: o } => o == old[i],
                MatchResult::Added { .. } => false,
            },
        forall|k: int|
            old.len() <= k < match_results(old, new).len() ==> #[trigger] match_results(old, new)[k] is Added,
{
    let ms = match_results(old, new);
    lemma_added_shape(old, new, new.len() as int);
    assert forall|i: int| 0 <= i < old.len() implies match #[trigger] ms[i] {
        MatchResult::Unchanged { old: o, new: n } => o == old[i] && id_of(n) == id_of(o),
        MatchResult::Removed { old: o } => o == old[i],
        MatchResult::Added { .. } => false,
    } by {
        let id = id_of(old[i]);
        lemma_with_id_ids(new, id);
    }
    assert forall|k: int| old.len() <= k < ms.len() implies #[trigger] ms[k] is Added by {
        assert(ms[k] == added_results(old, new, new.len() as int)[k - old.len()]);
    }
}

proof fn lemma_with_id_ids(s: Seq<ChunkRecord>, id: Seq<char>)
    ensures
        forall|k: int| 0 <= k < with_id(s, id).len() ==> id_of(#[trigger] with_id(s, id)[k]) == id,
    decreases s.len(),
{
    if s.len() > 0 {
        lemma_with_id_ids(s.drop_last(), id);
        let w = with_id(s, id);
        let p = with_id(s.drop_last(), id);
        assert forall|k: int| 0 <= k < w.len() implies id_of(#[trigger] w[k]) == id by {
            if k < p.len() {
                assert(w[k] == p[k]);
            }
        }
    }
}

proof fn lemma_added_shape(old: Seq<ChunkRecord>, new: Seq<ChunkRecord>, n: int)
    ensures
        forall|k: int| 0 <= k < added_results(old, new, n).len() ==> #[trigger] added_results(old, new, n)[k] is Added,
    decreases n,
{
    if n > 0 {
        lemma_added_shape(old, new, n - 1);
        let a = added_results(old, new, n);
        let p = added_results(old, new, n - 1);
        assert forall|k: int| 0 <= k < a.len() implies #[trigger] a[k] is Added by {
            if k < p.len() {
                assert(a[k] == p[k]);
            }
        }
    }
}

/// Match chunks from an old snapshot against chunks from a new snapshot.
///
/// Chunks pair up by stable identifier, the `r`-th old chunk with an
/// identifier with the `r`-th new one, in traversal order. The result has
/// one entry per old chunk in old order, then one `Added` entry for each
/// new chunk left unpaired.
pub fn match_chunks(old: &[ChunkRecord], new: &[ChunkRecord]) -> (results: Vec<MatchResult>)
    ensures
        results@ == match_results(old@, new@),
{
    let mut results: Vec<MatchResult> = Vec::new();
    let mut i: usize = 0;
    while i < old.len()
        invariant
            i <= old@.len(),
            results@ == Seq::new(i as nat, |k: int| old_result(old@, new@, k)),
        decreases old@.len() - i,
    {
        let id = &old[i].stable_id.0;
        let r = count_with_id(old, i, id);
        match nth_with_id(new, id, r) {
            Some(j) => {
                results.push(MatchResult::Unchanged { old: old[i].copy(), new: new[j].copy() });
            },
            None => {
                results.push(MatchResult::Removed { old: old[i].copy() });
            },
        }
        i = i + 1;
        assert(results@ =~= Seq::new(i as nat, |k: int| old_result(old@, new@, k)));
    }
    let ghost head = results@;
    let mut j: usize = 0;
    while j < new.len()
        invariant
            j <= new@.len(),
            head == Seq::new(old@.len(), |k: int| old_result(old@, new@, k)),
            results@ == head + added_results(old@, new@, j as int),
        decreases new@.len() - j,
    {
        let id = &new[j].stable_id.0;
        let r = count_with_id(new, j, id);
        let a = count_with_id(old, old.len(), id);
        let b = count_with_id(new, new.len(), id);
        proof {
            lemma_with_id_full(old@, id@);
            lemma_with_id_full(new@, id@);
            lemma_with_id_prefix(new@, id@, j as int, new@.len() as int);
            lemma_with_id_take_step(new@, id@, j as int);
        }
        let m = if a <= b { a } else { b };
        if r < b - m {
            match nth_with_id(new, id, m + r) {
                Some(k) => {
                    results.push(MatchResult::Added { new: new[k].copy() });
                },
                None => {},
            }
        }
        j = j + 1;
        assert(results@ =~= head + added_results(old@, new@, j as int));
    }
    results
}

} // verus!
