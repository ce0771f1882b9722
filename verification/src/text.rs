//! Byte-level text building blocks shared by the serializers: literal
//! bytes, decimal and hexadecimal rendering, string escaping and
//! lexicographic byte order.

use vstd::prelude::*;

verus! {

/// The UTF-8 bytes of a string slice.
pub open spec fn lit(s: &str) -> Seq<u8> {
    vstd::utf8::encode_utf8(s@)
}

/// The UTF-8 bytes of a character sequence.
pub open spec fn utf8(s: Seq<char>) -> Seq<u8> {
    vstd::utf8::encode_utf8(s)
}

/// Append every byte of `s` to `out`.
pub fn push_bytes(out: &mut Vec<u8>, s: &[u8])
    ensures
        final(out)@ == old(out)@ + s@,
{
    let mut i: usize = 0;
    while i < s.len()
        invariant
            i <= s.len(),
            out@ == old(out)@ + s@.subrange(0, i as int),
        decreases s.len() - i,
    {
        out.push(s[i]);
        i = i + 1;
        assert(s@.subrange(0, i as int) == s@.subrange(0, i - 1).push(s@[i - 1]));
    }
    assert(s@.subrange(0, s@.len() as int) == s@);
}

/// Append the UTF-8 bytes of `s` to `out`.
pub fn push_str(out: &mut Vec<u8>, s: &str)
    ensures
        final(out)@ == old(out)@ + lit(s),
{
    push_bytes(out, s.as_bytes());
}

/// The ASCII digit for a value below ten.
pub open spec fn digit(d: nat) -> u8 {
    (48 + d) as u8
}

/// The shortest decimal rendering of `n`, as `{}` formats an integer.
pub open spec fn decimal(n: nat) -> Seq<u8>
    decreases n,
{
    if n < 10 {
        seq![digit(n)]
    } else {
        decimal(n / 10) + seq![digit(n % 10)]
    }
}

/// Append the decimal rendering of `n` to `out`.
pub fn push_decimal(out: &mut Vec<u8>, n: usize)
    ensures
        final(out)@ == old(out)@ + decimal(n as nat),
{
    let mut rev: Vec<u8> = Vec::new();
    let mut cur: usize = n;
    while cur >= 10
        invariant
            decimal(n as nat) == decimal(cur as nat) + rev@.reverse(),
        decreases cur,
    {
        let d: u8 = 48u8 + (cur % 10) as u8;
        proof {
            assert(decimal(cur as nat) == decimal((cur / 10) as nat) + seq![digit((cur % 10) as nat)]);
            assert(d == digit((cur % 10) as nat));
        }
        rev.push(d);
        proof {
            assert(rev@.reverse() == seq![digit((cur % 10) as nat)] + rev@.drop_last().reverse()) by {
                assert(rev@.drop_last() =~= rev@.subrange(0, rev@.len() - 1));
                assert(rev@.reverse() =~= seq![rev@.last()] + rev@.drop_last().reverse());
            }
        }
        cur = cur / 10;
    }
    let first: u8 = 48u8 + (cur as u8);
    out.push(first);
    let mut i: usize = rev.len();
    while i > 0
        invariant
            i <= rev@.len(),
            decimal(n as nat) == seq![first] + rev@.reverse(),
            out@ == old(out)@ + seq![first] + rev@.reverse().subrange(0, (rev@.len() - i) as int),
        decreases i,
    {
        i = i - 1;
        out.push(rev[i]);
        proof {
            let k = (rev@.len() - i) as int;
            assert(rev@.reverse()[k - 1] == rev@[i as int]);
            assert(rev@.reverse().subrange(0, k) =~= rev@.reverse().subrange(0, k - 1).push(rev@[i as int]));
        }
    }
    assert(rev@.reverse().subrange(0, rev@.len() as int) =~= rev@.reverse());
}


/// The lowercase hexadecimal digit for a value below sixteen.
pub open spec fn hex_digit(d: nat) -> u8 {
    if d < 10 {
        (48 + d) as u8
    } else {
        (87 + d) as u8
    }
}

/// The lowest `width` hexadecimal digits of `v`, most significant first,
/// padded with zeros.
pub open spec fn hex_fixed(v: nat, width: nat) -> Seq<u8>
    decreases width,
{
    if width == 0 {
        seq![]
    } else {
        hex_fixed(v / 16, (width - 1) as nat) + seq![hex_digit(v % 16)]
    }
}

/// `{:032x}` of a 128-bit value: 32 lowercase hex digits.
pub open spec fn hex32(v: u128) -> Seq<u8> {
    hex_fixed(v as nat, 32)
}

/// A lowercase hexadecimal digit: `0`-`9` or `a`-`f`.
pub open spec fn is_lower_hex(b: u8) -> bool {
    (48 <= b <= 57) || (97 <= b <= 102)
}

/// A fixed-width hex rendering has exactly `width` lowercase hex digits.
pub proof fn lemma_hex_fixed_lower(v: nat, width: nat)
    ensures
        hex_fixed(v, width).len() == width,
        forall|i: int| 0 <= i < width ==> is_lower_hex(#[trigger] hex_fixed(v, width)[i]),
    decreases width,
{
    if width > 0 {
        lemma_hex_fixed_lower(v / 16, (width - 1) as nat);
        assert forall|i: int| 0 <= i < width implies is_lower_hex(#[trigger] hex_fixed(v, width)[i]) by {
            if i < width - 1 {
                assert(hex_fixed(v, width)[i] == hex_fixed(v / 16, (width - 1) as nat)[i]);
            } else {
                assert(hex_fixed(v, width)[i] == hex_digit(v % 16));
            }
        }
    }
}

/// Every digit of a decimal rendering is an ASCII byte, so the rendering
/// is valid UTF-8.
pub proof fn lemma_decimal_valid_utf8(n: nat)
    ensures
        forall|i: int| 0 <= i < decimal(n).len() ==> #[trigger] decimal(n)[i] < 128,
        vstd::utf8::valid_utf8(decimal(n)),
    decreases n,
{
    if n >= 10 {
        lemma_decimal_valid_utf8(n / 10);
        assert forall|i: int| 0 <= i < decimal(n).len() implies #[trigger] decimal(n)[i] < 128 by {
            if i < decimal(n / 10).len() {
                assert(decimal(n)[i] == decimal(n / 10)[i]);
            }
        }
    }
    lemma_ascii_valid_utf8(decimal(n));
}

/// Render a 128-bit value as 32 lowercase hexadecimal digits.
pub fn hex32_bytes(v: u128) -> (r: Vec<u8>)
    ensures
        r@ == hex32(v),
{
    let mut res: Vec<u8> = Vec::new();
    let mut k: usize = 0;
    while k < 32
        invariant
            k <= 32,
            res@.len() == k,
        decreases 32 - k,
    {
        res.push(48u8);
        k = k + 1;
    }
    let mut cur: u128 = v;
    let mut i: usize = 32;
    while i > 0
        invariant
            i <= 32,
            res@.len() == 32,
            hex_fixed(cur as nat, i as nat) + res@.subrange(i as int, 32) == hex32(v),
        decreases i,
    {
        let d: u8 = (cur % 16) as u8;
        let h: u8 = if d < 10 { 48u8 + d } else { 87u8 + d };
        proof {
            assert(h == hex_digit((cur % 16) as nat));
            assert(hex_fixed(cur as nat, i as nat) == hex_fixed((cur / 16) as nat, (i - 1) as nat)
                + seq![hex_digit((cur as nat) % 16)]);
        }
        let ghost before = res@;
        res.set(i - 1, h);
        proof {
            assert(res@.subrange(i - 1, 32) =~= seq![h] + before.subrange(i as int, 32));
        }
        cur = cur / 16;
        i = i - 1;
    }
    assert(res@.subrange(0, 32) =~= res@);
    res
}

/// Every digit of `hex_fixed` is an ASCII byte.
pub proof fn lemma_hex_fixed_ascii(v: nat, width: nat)
    ensures
        hex_fixed(v, width).len() == width,
        forall|i: int| 0 <= i < width ==> #[trigger] hex_fixed(v, width)[i] < 128,
    decreases width,
{
    if width > 0 {
        lemma_hex_fixed_ascii(v / 16, (width - 1) as nat);
        assert forall|i: int| 0 <= i < width implies #[trigger] hex_fixed(v, width)[i] < 128 by {
            if i < width - 1 {
                assert(hex_fixed(v, width)[i] == hex_fixed(v / 16, (width - 1) as nat)[i]);
            }
        }
    }
}

/// A sequence of ASCII bytes is valid UTF-8.
pub proof fn lemma_ascii_valid_utf8(b: Seq<u8>)
    requires
        forall|i: int| 0 <= i < b.len() ==> #[trigger] b[i] < 128,
    ensures
        vstd::utf8::valid_utf8(b),
{
    assert(b.subrange(0, 0) =~= Seq::<u8>::empty());
    assert(vstd::utf8::partial_valid_utf8(b, 0));
    assert forall|i: int| 0 <= 0 <= i < b.len() <= b.len() implies #[trigger] vstd::utf8::is_leading_byte_width_1(b[i]) by {
        assert(b[i] < 128);
    }
    vstd::utf8::partial_valid_utf8_extend_ascii_block(b, 0, b.len() as int);
    assert(b.subrange(0, b.len() as int) =~= b);
}

/// The UTF-8 bytes of any text are valid UTF-8, and so is any
/// concatenation of valid pieces.
pub proof fn lemma_utf8_valid(s: Seq<char>)
    ensures
        vstd::utf8::valid_utf8(utf8(s)),
{
    vstd::utf8::encode_utf8_valid_utf8(s);
}

/// The UTF-8 form of text that starts with an ASCII character starts
/// with that character's byte.
pub proof fn lemma_utf8_ascii_first(s: Seq<char>, c: u8)
    requires
        s.len() > 0,
        s[0] as u32 == c as u32,
        c < 0x80,
    ensures
        utf8(s).len() > 0,
        utf8(s)[0] == c,
{
    let x = s[0] as u32;
    assert(x & 0x7f == x && (x & 0x7f) as u8 == c) by (bit_vector)
        requires
            x == c as u32,
            c < 0x80,
    ;
    assert(utf8(s) == vstd::utf8::encode_scalar(x) + utf8(s.drop_first()));
}

/// The UTF-8 form of joined text is the join of their UTF-8 forms.
pub proof fn lemma_utf8_concat(a: Seq<char>, b: Seq<char>)
    ensures
        utf8(a + b) == utf8(a) + utf8(b),
    decreases a.len(),
{
    if a.len() > 0 {
        lemma_utf8_concat(a.drop_first(), b);
        assert((a + b).drop_first() =~= a.drop_first() + b);
        assert(utf8(a + b) =~= utf8(a) + utf8(b));
    } else {
        assert(a + b =~= b);
        assert(utf8(a) =~= Seq::<u8>::empty());
        assert(utf8(a + b) =~= utf8(a) + utf8(b));
    }
}

/// The replacement character U+FFFD in UTF-8.
pub open spec fn replacement() -> Seq<u8> {
    seq![0xefu8, 0xbfu8, 0xbdu8]
}

/// Whether the two bytes at the front of `b` encode a C1 control
/// character (U+0080 to U+009F).
pub open spec fn starts_with_c1(b: Seq<u8>) -> bool {
    b.len() >= 2 && b[0] == 0xc2u8 && 0x80u8 <= b[1] && b[1] <= 0x9fu8
}

/// Escaping of UTF-8 text for a quoted S-expression string: `"` and `\`
/// get a backslash, newline and tab become `\n` and `\t`, any other
/// control character becomes U+FFFD, everything else is kept.
pub open spec fn escape_body(b: Seq<u8>) -> Seq<u8>
    decreases b.len(),
{
    if b.len() == 0 {
        seq![]
    } else if b[0] == 0x22u8 {
        seq![0x5cu8, 0x22u8] + escape_body(b.drop_first())
    } else if b[0] == 0x5cu8 {
        seq![0x5cu8, 0x5cu8] + escape_body(b.drop_first())
    } else if b[0] == 0x0au8 {
        seq![0x5cu8, 0x6eu8] + escape_body(b.drop_first())
    } else if b[0] == 0x09u8 {
        seq![0x5cu8, 0x74u8] + escape_body(b.drop_first())
    } else if b[0] < 0x20u8 || b[0] == 0x7fu8 {
        replacement() + escape_body(b.drop_first())
    } else if starts_with_c1(b) {
        replacement() + escape_body(b.subrange(2, b.len() as int))
    } else {
        seq![b[0]] + escape_body(b.drop_first())
    }
}

/// Escaped text holds no control byte: no newline, tab, DEL or other
/// byte below 0x20 survives escaping.
pub proof fn lemma_escape_no_control(b: Seq<u8>)
    ensures
        forall|i: int|
            0 <= i < escape_body(b).len() ==> #[trigger] escape_body(b)[i] >= 0x20u8
                && escape_body(b)[i] != 0x7fu8,
    decreases b.len(),
{
    if b.len() > 0 {
        let plain = !(b[0] == 0x22u8 || b[0] == 0x5cu8 || b[0] == 0x0au8 || b[0] == 0x09u8
            || b[0] < 0x20u8 || b[0] == 0x7fu8);
        let tail = if plain && starts_with_c1(b) {
            b.subrange(2, b.len() as int)
        } else {
            b.drop_first()
        };
        lemma_escape_no_control(tail);
        let rest = escape_body(tail);
        let head = if b[0] == 0x22u8 {
            seq![0x5cu8, 0x22u8]
        } else if b[0] == 0x5cu8 {
            seq![0x5cu8, 0x5cu8]
        } else if b[0] == 0x0au8 {
            seq![0x5cu8, 0x6eu8]
        } else if b[0] == 0x09u8 {
            seq![0x5cu8, 0x74u8]
        } else if !plain || starts_with_c1(b) {
            replacement()
        } else {
            seq![b[0]]
        };
        assert(escape_body(b) == head + rest);
        assert forall|i: int| 0 <= i < head.len() implies head[i] >= 0x20u8 && head[i] != 0x7fu8 by {}
        assert forall|i: int| 0 <= i < escape_body(b).len() implies #[trigger] escape_body(b)[i] >= 0x20u8
            && escape_body(b)[i] != 0x7fu8 by {
            if i >= head.len() {
                assert(escape_body(b)[i] == rest[i - head.len()]);
            } else {
                assert(escape_body(b)[i] == head[i]);
            }
        }
    }
}

/// A quoted, escaped string.
pub open spec fn quoted(s: Seq<char>) -> Seq<u8> {
    seq![0x22u8] + escape_body(utf8(s)) + seq![0x22u8]
}

/// Append the quoted, escaped form of `s` to `out`.
pub fn push_quoted(out: &mut Vec<u8>, s: &str)
    ensures
        final(out)@ == old(out)@ + quoted(s@),
{
    let b = s.as_bytes();
    let ghost bs = b@;
    out.push(0x22u8);
    let ghost start = out@;
    let mut i: usize = 0;
    assert(bs.subrange(0, bs.len() as int) =~= bs);
    while i < b.len()
        invariant
            i <= b.len(),
            bs == b@,
            start + escape_body(bs) == out@ + escape_body(bs.subrange(i as int, bs.len() as int)),
        decreases b.len() - i,
    {
        let ghost rest = bs.subrange(i as int, bs.len() as int);
        let c = b[i];
        assert(rest[0] == c);
        assert(rest.drop_first() =~= bs.subrange(i + 1, bs.len() as int));
        if c == 0x22u8 {
            out.push(0x5cu8);
            out.push(0x22u8);
            i = i + 1;
        } else if c == 0x5cu8 {
            out.push(0x5cu8);
            out.push(0x5cu8);
            i = i + 1;
        } else if c == 0x0au8 {
            out.push(0x5cu8);
            out.push(0x6eu8);
            i = i + 1;
        } else if c == 0x09u8 {
            out.push(0x5cu8);
            out.push(0x74u8);
            i = i + 1;
        } else if c < 0x20u8 || c == 0x7fu8 {
            out.push(0xefu8);
            out.push(0xbfu8);
            out.push(0xbdu8);
            i = i + 1;
        } else if c == 0xc2u8 && i + 1 < b.len() && 0x80u8 <= b[i + 1] && b[i + 1] <= 0x9fu8 {
            assert(starts_with_c1(rest));
            assert(rest.subrange(2, rest.len() as int) =~= bs.subrange(i + 2, bs.len() as int));
            out.push(0xefu8);
            out.push(0xbfu8);
            out.push(0xbdu8);
            i = i + 2;
        } else {
            assert(!starts_with_c1(rest));
            out.push(c);
            i = i + 1;
        }
    }
    assert(bs.subrange(i as int, bs.len() as int) =~= Seq::<u8>::empty());
    out.push(0x22u8);
    assert(out@ =~= old(out)@ + quoted(s@));
}

/// Lexicographic order on byte sequences, as `Ord` orders `str` and
/// `String`: `a` comes strictly before `b`.
pub open spec fn bytes_lt(a: Seq<u8>, b: Seq<u8>) -> bool
    decreases a.len(),
{
    if a.len() == 0 {
        b.len() > 0
    } else if b.len() == 0 {
        false
    } else if a[0] != b[0] {
        a[0] < b[0]
    } else {
        bytes_lt(a.drop_first(), b.drop_first())
    }
}

/// Byte order is asymmetric.
pub proof fn lemma_bytes_lt_asym(a: Seq<u8>, b: Seq<u8>)
    ensures
        !(bytes_lt(a, b) && bytes_lt(b, a)),
    decreases a.len(),
{
    if a.len() > 0 && b.len() > 0 && a[0] == b[0] {
        lemma_bytes_lt_asym(a.drop_first(), b.drop_first());
    }
}

/// Byte order is transitive.
pub proof fn lemma_bytes_lt_trans(a: Seq<u8>, b: Seq<u8>, c: Seq<u8>)
    requires
        bytes_lt(a, b),
        bytes_lt(b, c),
    ensures
        bytes_lt(a, c),
    decreases a.len(),
{
    if a.len() > 0 && a[0] == b[0] && b[0] == c[0] {
        lemma_bytes_lt_trans(a.drop_first(), b.drop_first(), c.drop_first());
    }
}

/// Two different byte strings are ordered one way or the other.
pub proof fn lemma_bytes_lt_connex(a: Seq<u8>, b: Seq<u8>)
    ensures
        a == b || bytes_lt(a, b) || bytes_lt(b, a),
    decreases a.len(),
{
    if a.len() > 0 && b.len() > 0 && a[0] == b[0] {
        lemma_bytes_lt_connex(a.drop_first(), b.drop_first());
        if a.drop_first() == b.drop_first() {
            assert(a =~= seq![a[0]] + a.drop_first());
            assert(b =~= seq![b[0]] + b.drop_first());
        }
    } else if a.len() == 0 && b.len() == 0 {
        assert(a =~= b);
    }
}

/// "Not after" in byte order is a total preorder: any two byte strings
/// compare one way or the other, and the relation is transitive.
pub proof fn lemma_bytes_not_after(a: Seq<u8>, b: Seq<u8>, c: Seq<u8>)
    ensures
        !bytes_lt(b, a) || !bytes_lt(a, b),
        !bytes_lt(b, a) && !bytes_lt(c, b) ==> !bytes_lt(c, a),
{
    lemma_bytes_lt_asym(a, b);
    if !bytes_lt(b, a) && !bytes_lt(c, b) && bytes_lt(c, a) {
        lemma_bytes_lt_connex(a, b);
        if bytes_lt(a, b) {
            lemma_bytes_lt_trans(c, a, b);
        }
    }
}

/// Pairs of byte strings ordered by the first, then by the second: the pair
/// `(p, q)` may stand before `(r, s)`.
pub open spec fn pair_not_after(p: Seq<u8>, q: Seq<u8>, r: Seq<u8>, s: Seq<u8>) -> bool {
    bytes_lt(p, r) || (!bytes_lt(r, p) && !bytes_lt(s, q))
}

/// The pair order is total and transitive.
pub proof fn lemma_pair_not_after(a: (Seq<u8>, Seq<u8>), b: (Seq<u8>, Seq<u8>), c: (Seq<u8>, Seq<u8>))
    ensures
        pair_not_after(a.0, a.1, b.0, b.1) || pair_not_after(b.0, b.1, a.0, a.1),
        pair_not_after(a.0, a.1, b.0, b.1) && pair_not_after(b.0, b.1, c.0, c.1) ==> pair_not_after(
            a.0,
            a.1,
            c.0,
            c.1,
        ),
{
    lemma_bytes_not_after(a.0, b.0, c.0);
    lemma_bytes_not_after(a.1, b.1, c.1);
    lemma_bytes_lt_asym(a.0, b.0);
    lemma_bytes_lt_asym(b.0, c.0);
    lemma_bytes_lt_asym(a.0, c.0);
    if bytes_lt(a.0, b.0) && bytes_lt(b.0, c.0) {
        lemma_bytes_lt_trans(a.0, b.0, c.0);
    }
    if bytes_lt(a.0, b.0) && !bytes_lt(c.0, b.0) && !bytes_lt(b.0, c.0) {
        lemma_bytes_lt_connex(b.0, c.0);
    }
    if !bytes_lt(b.0, a.0) && !bytes_lt(a.0, b.0) && bytes_lt(b.0, c.0) {
        lemma_bytes_lt_connex(a.0, b.0);
    }
    if !bytes_lt(b.0, a.0) && !bytes_lt(a.0, b.0) && !bytes_lt(c.0, b.0) && !bytes_lt(b.0, c.0) {
        lemma_bytes_lt_connex(a.0, b.0);
        lemma_bytes_lt_connex(b.0, c.0);
    }
}

/// String order on three strings: it is asymmetric, and when `a` comes
/// before `c`, `b` comes after `a` or before `c`; strings that neither
/// comes before are equal.
pub proof fn lemma_str_triple(a: Seq<char>, b: Seq<char>, c: Seq<char>)
    ensures
        str_lt(a, b) ==> !str_lt(b, a),
        str_lt(b, c) ==> !str_lt(c, b),
        str_lt(a, c) ==> !str_lt(c, a),
        str_lt(a, c) ==> str_lt(a, b) || str_lt(b, c),
        str_lt(c, a) ==> str_lt(c, b) || str_lt(b, a),
        str_lt(a, b) ==> str_lt(a, c) || str_lt(c, b),
        str_lt(b, a) ==> str_lt(b, c) || str_lt(c, a),
        str_lt(b, c) ==> str_lt(b, a) || str_lt(a, c),
        str_lt(c, b) ==> str_lt(c, a) || str_lt(a, b),
        !str_lt(a, b) && !str_lt(b, a) ==> utf8(a) == utf8(b),
{
    let (x, y, z) = (utf8(a), utf8(b), utf8(c));
    lemma_bytes_lt_asym(x, y);
    lemma_bytes_lt_asym(y, z);
    lemma_bytes_lt_asym(x, z);
    lemma_bytes_lt_connex(x, y);
    lemma_bytes_lt_connex(y, z);
    lemma_bytes_lt_connex(x, z);
    if bytes_lt(x, y) && bytes_lt(y, z) {
        lemma_bytes_lt_trans(x, y, z);
    }
    if bytes_lt(z, y) && bytes_lt(y, x) {
        lemma_bytes_lt_trans(z, y, x);
    }
    if bytes_lt(y, x) && bytes_lt(x, z) {
        lemma_bytes_lt_trans(y, x, z);
    }
    if bytes_lt(z, x) && bytes_lt(x, y) {
        lemma_bytes_lt_trans(z, x, y);
    }
    if bytes_lt(x, z) && bytes_lt(z, y) {
        lemma_bytes_lt_trans(x, z, y);
    }
    if bytes_lt(y, z) && bytes_lt(z, x) {
        lemma_bytes_lt_trans(y, z, x);
    }
}

/// String order: `a < b` as `Ord` for `String` decides it.
pub open spec fn str_lt(a: Seq<char>, b: Seq<char>) -> bool {
    bytes_lt(utf8(a), utf8(b))
}

/// Whether `a` comes strictly before `b` in byte order.
pub fn bytes_less(a: &[u8], b: &[u8]) -> (r: bool)
    ensures
        r == bytes_lt(a@, b@),
{
    let mut i: usize = 0;
    assert(a@.subrange(0, a@.len() as int) =~= a@);
    assert(b@.subrange(0, b@.len() as int) =~= b@);
    while i < a.len() && i < b.len()
        invariant
            i <= a.len(),
            i <= b.len(),
            bytes_lt(a@, b@) == bytes_lt(a@.subrange(i as int, a@.len() as int), b@.subrange(i as int, b@.len() as int)),
        decreases a.len() - i,
    {
        let ghost ra = a@.subrange(i as int, a@.len() as int);
        let ghost rb = b@.subrange(i as int, b@.len() as int);
        assert(ra[0] == a@[i as int]);
        assert(rb[0] == b@[i as int]);
        if a[i] != b[i] {
            return a[i] < b[i];
        }
        assert(ra.drop_first() =~= a@.subrange(i + 1, a@.len() as int));
        assert(rb.drop_first() =~= b@.subrange(i + 1, b@.len() as int));
        i = i + 1;
    }
    let ghost ra = a@.subrange(i as int, a@.len() as int);
    let ghost rb = b@.subrange(i as int, b@.len() as int);
    assert(ra.len() == 0 || rb.len() == 0);
    i == a.len() && i < b.len()
}

/// Whether string `a` orders strictly before string `b`.
pub fn str_less(a: &str, b: &str) -> (r: bool)
    ensures
        r == str_lt(a@, b@),
{
    bytes_less(a.as_bytes(), b.as_bytes())
}

} // verus!

verus! {

/// A `String` holding exactly the given bytes, which must be valid UTF-8.
///
/// Wraps `String::from_utf8`, which the standard library documents to
/// succeed on valid UTF-8 and to keep the bytes unchanged.
#[verifier::external_body]
pub(crate) fn string_from_utf8(bytes: Vec<u8>) -> (s: String)
    requires
        vstd::utf8::valid_utf8(bytes@),
    ensures
        utf8(s@) == bytes@,
{
    String::from_utf8(bytes).unwrap()
}

/// A copy of a string.
pub fn copy_string(s: &String) -> (r: String)
    ensures
        r == *s,
        r@ == s@,
{
    s.clone()
}

/// A copy of an optional string.
pub fn copy_opt_string(s: &Option<String>) -> (r: Option<String>)
    ensures
        r == *s,
{
    match s {
        Some(x) => Some(x.clone()),
        None => None,
    }
}

/// The view of an optional string.
pub open spec fn opt_view(s: Option<String>) -> Option<Seq<char>> {
    match s {
        Some(x) => Some(x@),
        None => None,
    }
}

/// Whether two optional strings hold the same text, as `==` compares them.
pub fn opt_string_eq(a: &Option<String>, b: &Option<String>) -> (r: bool)
    ensures
        r == (opt_view(*a) == opt_view(*b)),
{
    match (a, b) {
        (Some(x), Some(y)) => *x == *y,
        (None, None) => true,
        _ => false,
    }
}

/// Whether `b` ends with `suffix`.
pub open spec fn ends_with(b: Seq<u8>, suffix: Seq<u8>) -> bool {
    suffix.len() <= b.len() && b.subrange(b.len() - suffix.len(), b.len() as int) == suffix
}

/// Whether two byte strings are equal.
pub fn bytes_eq(a: &[u8], b: &[u8]) -> (r: bool)
    ensures
        r == (a@ == b@),
{
    if a.len() != b.len() {
        return false;
    }
    let mut i: usize = 0;
    while i < a.len()
        invariant
            i <= a@.len(),
            a@.len() == b@.len(),
            a@.subrange(0, i as int) == b@.subrange(0, i as int),
        decreases a@.len() - i,
    {
        if a[i] != b[i] {
            assert(a@[i as int] != b@[i as int]);
            return false;
        }
        assert(a@.subrange(0, i + 1) =~= a@.subrange(0, i as int).push(a@[i as int]));
        assert(b@.subrange(0, i + 1) =~= b@.subrange(0, i as int).push(b@[i as int]));
        i = i + 1;
    }
    assert(a@ =~= a@.subrange(0, a@.len() as int));
    assert(b@ =~= b@.subrange(0, b@.len() as int));
    true
}

/// Whether `b` ends with `suffix`, as `str::ends_with` compares bytes.
pub fn bytes_ends_with(b: &[u8], suffix: &[u8]) -> (r: bool)
    ensures
        r == ends_with(b@, suffix@),
{
    if suffix.len() > b.len() {
        return false;
    }
    let start = b.len() - suffix.len();
    let tail = slice_range(b, start, b.len());
    bytes_eq(&tail, suffix)
}


/// A copy of `source[start..end]`.
pub fn slice_range(source: &[u8], start: usize, end: usize) -> (r: Vec<u8>)
    requires
        start <= end <= source@.len(),
    ensures
        r@ == source@.subrange(start as int, end as int),
{
    let mut r: Vec<u8> = Vec::new();
    let mut i: usize = start;
    while i < end
        invariant
            start <= i <= end,
            end <= source@.len(),
            r@ == source@.subrange(start as int, i as int),
        decreases end - i,
    {
        r.push(source[i]);
        i = i + 1;
        assert(r@ =~= source@.subrange(start as int, i as int));
    }
    r
}

/// Whether `c` is white space as `char::is_whitespace` decides: the
/// Unicode `White_Space` property.
pub open spec fn is_white(c: char) -> bool {
    let u = c as u32;
    ||| 9 <= u <= 13
    ||| u == 32
    ||| u == 0x85
    ||| u == 0xA0
    ||| u == 0x1680
    ||| 0x2000 <= u <= 0x200A
    ||| u == 0x2028
    ||| u == 0x2029
    ||| u == 0x202F
    ||| u == 0x205F
    ||| u == 0x3000
}

/// `s` without its leading white space.
pub open spec fn trim_start(s: Seq<char>) -> Seq<char>
    decreases s.len(),
{
    if s.len() > 0 && is_white(s[0]) {
        trim_start(s.drop_first())
    } else {
        s
    }
}

/// `s` without its trailing white space.
pub open spec fn trim_end(s: Seq<char>) -> Seq<char>
    decreases s.len(),
{
    if s.len() > 0 && is_white(s.last()) {
        trim_end(s.drop_last())
    } else {
        s
    }
}

/// `s` without leading and trailing white space, as `str::trim` gives it.
pub open spec fn trim(s: Seq<char>) -> Seq<char> {
    trim_end(trim_start(s))
}

/// The position of the first `c` in `s`, or -1.
pub open spec fn first_index(s: Seq<char>, c: char) -> int
    decreases s.len(),
{
    if s.len() == 0 {
        -1
    } else if s[0] == c {
        0
    } else {
        let k = first_index(s.drop_first(), c);
        if k < 0 {
            -1
        } else {
            k + 1
        }
    }
}

/// `first_index` is -1 or a position of `s` holding `c`.
pub proof fn lemma_first_index_bound(s: Seq<char>, c: char)
    ensures
        -1 <= first_index(s, c) < s.len(),
        first_index(s, c) >= 0 ==> s[first_index(s, c)] == c,
    decreases s.len(),
{
    if s.len() > 0 && s[0] != c {
        lemma_first_index_bound(s.drop_first(), c);
    }
}

/// The lines of `s`, as `str::lines` gives them: split after each line
/// feed, which is dropped together with a carriage return just before it;
/// a final line feed does not start an empty line.
pub open spec fn lines(s: Seq<char>) -> Seq<Seq<char>>
    decreases s.len(),
{
    if s.len() == 0 {
        seq![]
    } else {
        let k = first_index(s, '\n');
        proof {
            lemma_first_index_bound(s, '\n');
        }
        if k < 0 {
            seq![s]
        } else {
            let line = s.take(k);
            let line = if line.len() > 0 && line.last() == '\r' {
                line.drop_last()
            } else {
                line
            };
            seq![line] + lines(s.skip(k + 1))
        }
    }
}

/// `str::trim`.
///
/// Wraps `str::trim`, which the standard library documents to remove
/// leading and trailing white space as `char::is_whitespace` decides.
#[verifier::external_body]
pub(crate) fn str_trim(s: &str) -> (r: String)
    ensures
        r@ == trim(s@),
{
    s.trim().to_string()
}

/// `str::lines`.
///
/// Wraps `str::lines`, which the standard library documents to split at
/// `\n` and `\r\n` line endings, with an optional final line ending.
#[verifier::external_body]
pub(crate) fn str_lines(s: &str) -> (r: Vec<String>)
    ensures
        r@.len() == lines(s@).len(),
        forall|i: int| 0 <= i < r@.len() ==> (#[trigger] r@[i])@ == lines(s@)[i],
{
    s.lines().map(|l| l.to_string()).collect()
}

/// `std::str::from_utf8`, as an owned string.
///
/// Wraps `std::str::from_utf8`, which the standard library documents to
/// succeed exactly on valid UTF-8 and to keep the bytes unchanged.
#[verifier::external_body]
pub(crate) fn str_from_utf8(bytes: &[u8]) -> (r: Option<String>)
    ensures
        r is Some <==> vstd::utf8::valid_utf8(bytes@),
        r matches Some(s) ==> utf8(s@) == bytes@,
{
    match std::str::from_utf8(bytes) {
        Ok(s) => Some(s.to_string()),
        Err(_) => None,
    }
}

/// `str::trim_start`.
///
/// Wraps `str::trim_start`, which the standard library documents to
/// remove leading white space as `char::is_whitespace` decides.
#[verifier::external_body]
pub(crate) fn str_trim_start(s: &str) -> (r: String)
    ensures
        r@ == trim_start(s@),
{
    s.trim_start().to_string()
}

/// `str::contains` with a character pattern.
///
/// Wraps `str::contains`, which for a `char` pattern tells whether the
/// string holds that character.
#[verifier::external_body]
pub(crate) fn str_contains_char(s: &str, c: char) -> (r: bool)
    ensures
        r == s@.contains(c),
{
    s.contains(c)
}

} // verus!
