//! Stable sorting by a key order, as `sort_by` with a comparator sorts.

use vstd::prelude::*;

verus! {

/// An order on `T` that a stable sort follows: the comparator that
/// `sort_by` would be given.
pub trait KeyOrder<T> {
    /// `a` may stand before `b`: the comparator does not answer `Greater`
    /// for the pair.
    spec fn before(a: T, b: T) -> bool;

    /// Decide `before`.
    fn before_exec(a: &T, b: &T) -> (r: bool)
        ensures
            r == Self::before(*a, *b),
    ;
}

/// Insert `x` into `s` after the last run of elements that may stand
/// before it, scanning from the end: the insertion step of a stable sort.
pub open spec fn insert_by_key<T, O: KeyOrder<T>>(s: Seq<T>, x: T) -> Seq<T>
    decreases s.len(),
{
    if s.len() == 0 {
        seq![x]
    } else if O::before(s.last(), x) {
        s.push(x)
    } else {
        insert_by_key::<T, O>(s.drop_last(), x).push(s.last())
    }
}

/// The stable sort of `s`: what `sort_by` produces with the comparator
/// that `key_le` describes.
pub open spec fn sort_by_key<T, O: KeyOrder<T>>(s: Seq<T>) -> Seq<T>
    decreases s.len(),
{
    if s.len() == 0 {
        s
    } else {
        insert_by_key::<T, O>(sort_by_key::<T, O>(s.drop_last()), s.last())
    }
}

/// Inserting adds one element.
pub proof fn lemma_insert_len<T, O: KeyOrder<T>>(s: Seq<T>, x: T)
    ensures
        insert_by_key::<T, O>(s, x).len() == s.len() + 1,
    decreases s.len(),
{
    if s.len() > 0 && !O::before(s.last(), x) {
        lemma_insert_len::<T, O>(s.drop_last(), x);
    }
}

/// Sorting keeps the length.
pub proof fn lemma_sort_len<T, O: KeyOrder<T>>(s: Seq<T>)
    ensures
        sort_by_key::<T, O>(s).len() == s.len(),
    decreases s.len(),
{
    if s.len() > 0 {
        lemma_sort_len::<T, O>(s.drop_last());
        lemma_insert_len::<T, O>(sort_by_key::<T, O>(s.drop_last()), s.last());
    }
}

/// Inserting adds the element to the multiset of elements.
pub proof fn lemma_insert_multiset<T, O: KeyOrder<T>>(s: Seq<T>, x: T)
    ensures
        insert_by_key::<T, O>(s, x).to_multiset() == s.to_multiset().insert(x),
    decreases s.len(),
{
    broadcast use vstd::seq_lib::to_multiset_build;

    if s.len() == 0 {
        assert(seq![x] =~= s.push(x));
    } else if O::before(s.last(), x) {
    } else {
        let t = s.drop_last();
        lemma_insert_multiset::<T, O>(t, x);
        assert(t.push(s.last()) =~= s);
        assert(insert_by_key::<T, O>(s, x).to_multiset() =~= s.to_multiset().insert(x));
    }
}

/// Sorting permutes: the sorted sequence holds exactly the elements of
/// the input, each as often.
pub proof fn lemma_sort_permutes<T, O: KeyOrder<T>>(s: Seq<T>)
    ensures
        sort_by_key::<T, O>(s).to_multiset() == s.to_multiset(),
    decreases s.len(),
{
    broadcast use vstd::seq_lib::to_multiset_build;

    if s.len() > 0 {
        lemma_sort_permutes::<T, O>(s.drop_last());
        lemma_insert_multiset::<T, O>(sort_by_key::<T, O>(s.drop_last()), s.last());
        assert(s.drop_last().push(s.last()) =~= s);
    }
}

/// Every element of the sorted sequence comes from the input.
pub proof fn lemma_sort_members<T, O: KeyOrder<T>>(s: Seq<T>)
    ensures
        forall|k: int|
            0 <= k < sort_by_key::<T, O>(s).len() ==> s.contains(#[trigger] sort_by_key::<T, O>(s)[k]),
{
    broadcast use vstd::seq_lib::to_multiset_contains;

    lemma_sort_permutes::<T, O>(s);
    let r = sort_by_key::<T, O>(s);
    assert forall|k: int| 0 <= k < r.len() implies s.contains(#[trigger] r[k]) by {
        assert(r.contains(r[k]));
        assert(r.to_multiset().count(r[k]) > 0);
        assert(s.to_multiset().count(r[k]) > 0);
    }
}

/// The order is a total preorder: any two elements are ordered one way
/// or the other, and the order is transitive.
pub open spec fn total_preorder<T, O: KeyOrder<T>>() -> bool {
    &&& forall|a: T, b: T| #[trigger] O::before(a, b) || O::before(b, a)
    &&& forall|a: T, b: T, c: T|
        #[trigger] O::before(a, b) && #[trigger] O::before(b, c) ==> O::before(a, c)
}

/// Each element of `s` may stand before every later one.
pub open spec fn sorted_by<T, O: KeyOrder<T>>(s: Seq<T>) -> bool {
    forall|i: int, j: int| 0 <= i < j < s.len() ==> O::before(#[trigger] s[i], #[trigger] s[j])
}

/// Inserting puts in `x` and keeps the elements of `s`.
proof fn lemma_insert_members<T, O: KeyOrder<T>>(s: Seq<T>, x: T)
    ensures
        forall|k: int|
            0 <= k < insert_by_key::<T, O>(s, x).len() ==> #[trigger] insert_by_key::<T, O>(s, x)[k] == x
                || s.contains(insert_by_key::<T, O>(s, x)[k]),
    decreases s.len(),
{
    lemma_insert_len::<T, O>(s, x);
    if s.len() > 0 && !O::before(s.last(), x) {
        let t = s.drop_last();
        lemma_insert_members::<T, O>(t, x);
        let r = insert_by_key::<T, O>(s, x);
        let rt = insert_by_key::<T, O>(t, x);
        assert forall|k: int| 0 <= k < r.len() implies #[trigger] r[k] == x || s.contains(r[k]) by {
            if k < rt.len() {
                assert(r[k] == rt[k]);
                if rt[k] != x {
                    let i = choose|i: int| 0 <= i < t.len() && t[i] == rt[k];
                    assert(s[i] == t[i]);
                }
            } else {
                assert(r[k] == s[s.len() - 1]);
            }
        }
    } else if s.len() > 0 {
        let r = insert_by_key::<T, O>(s, x);
        assert forall|k: int| 0 <= k < r.len() implies #[trigger] r[k] == x || s.contains(r[k]) by {
            if k < s.len() {
                assert(r[k] == s[k]);
            }
        }
    }
}

/// The order is a total preorder on the values of `dom`: any two of them
/// are ordered one way or the other, and the order is transitive among
/// them.
pub open spec fn total_preorder_within<T, O: KeyOrder<T>>(dom: Set<T>) -> bool {
    &&& forall|a: T, b: T| dom.contains(a) && dom.contains(b) ==> #[trigger] O::before(a, b) || O::before(b, a)
    &&& forall|a: T, b: T, c: T|
        dom.contains(a) && dom.contains(b) && dom.contains(c) && #[trigger] O::before(a, b) && #[trigger] O::before(
            b,
            c,
        ) ==> O::before(a, c)
}

/// Every element of `s` is a value of `dom`.
pub open spec fn all_within<T>(s: Seq<T>, dom: Set<T>) -> bool {
    forall|i: int| 0 <= i < s.len() ==> dom.contains(#[trigger] s[i])
}

/// A total preorder is one on every set of values.
proof fn lemma_total_within_full<T, O: KeyOrder<T>>()
    requires
        total_preorder::<T, O>(),
    ensures
        total_preorder_within::<T, O>(Set::full()),
{
}

/// Inserting into a sorted sequence keeps it sorted, when the order is a
/// total preorder on the values involved.
proof fn lemma_insert_sorted<T, O: KeyOrder<T>>(s: Seq<T>, x: T, dom: Set<T>)
    requires
        total_preorder_within::<T, O>(dom),
        all_within(s, dom),
        dom.contains(x),
        sorted_by::<T, O>(s),
    ensures
        sorted_by::<T, O>(insert_by_key::<T, O>(s, x)),
    decreases s.len(),
{
    lemma_insert_len::<T, O>(s, x);
    let r = insert_by_key::<T, O>(s, x);
    if s.len() == 0 {
    } else if O::before(s.last(), x) {
        assert forall|i: int, j: int| 0 <= i < j < r.len() implies O::before(#[trigger] r[i], #[trigger] r[j]) by {
            if j == s.len() {
                if i < s.len() - 1 {
                    assert(O::before(s[i], s[s.len() - 1]));
                    assert(dom.contains(s[i]) && dom.contains(s[s.len() - 1]));
                }
            }
        }
    } else {
        let t = s.drop_last();
        let l = s.last();
        assert forall|i: int, j: int| 0 <= i < j < t.len() implies O::before(#[trigger] t[i], #[trigger] t[j]) by {
            assert(t[i] == s[i] && t[j] == s[j]);
        }
        assert forall|i: int| 0 <= i < t.len() implies dom.contains(#[trigger] t[i]) by {
            assert(t[i] == s[i]);
        }
        lemma_insert_sorted::<T, O>(t, x, dom);
        lemma_insert_members::<T, O>(t, x);
        lemma_insert_len::<T, O>(t, x);
        let rt = insert_by_key::<T, O>(t, x);
        assert(dom.contains(l));
        assert(O::before(x, l) || O::before(l, x));
        assert forall|i: int, j: int| 0 <= i < j < r.len() implies O::before(#[trigger] r[i], #[trigger] r[j]) by {
            assert(r[i] == rt[i]);
            if j < rt.len() {
                assert(r[j] == rt[j]);
            } else {
                assert(r[j] == l);
                if rt[i] != x {
                    let q = choose|q: int| 0 <= q < t.len() && t[q] == rt[i];
                    assert(s[q] == t[q]);
                    assert(O::before(s[q], s[s.len() - 1]));
                }
            }
        }
    }
}

/// When the order is a total preorder on the values of `s`, the sort's
/// output is sorted.
pub proof fn lemma_sort_sorted_within<T, O: KeyOrder<T>>(s: Seq<T>, dom: Set<T>)
    requires
        total_preorder_within::<T, O>(dom),
        all_within(s, dom),
    ensures
        sorted_by::<T, O>(sort_by_key::<T, O>(s)),
    decreases s.len(),
{
    if s.len() > 0 {
        let t = s.drop_last();
        assert forall|i: int| 0 <= i < t.len() implies dom.contains(#[trigger] t[i]) by {
            assert(t[i] == s[i]);
        }
        lemma_sort_sorted_within::<T, O>(t, dom);
        lemma_sort_members::<T, O>(t);
        let st = sort_by_key::<T, O>(t);
        assert forall|i: int| 0 <= i < st.len() implies dom.contains(#[trigger] st[i]) by {
            assert(t.contains(st[i]));
            let q = choose|q: int| 0 <= q < t.len() && t[q] == st[i];
            assert(dom.contains(t[q]));
        }
        assert(dom.contains(s[s.len() - 1]));
        lemma_insert_sorted::<T, O>(st, s.last(), dom);
    }
}

/// Under a total preorder the sort's output is sorted.
pub proof fn lemma_sort_sorted<T, O: KeyOrder<T>>(s: Seq<T>)
    requires
        total_preorder::<T, O>(),
    ensures
        sorted_by::<T, O>(sort_by_key::<T, O>(s)),
{
    lemma_total_within_full::<T, O>();
    lemma_sort_sorted_within::<T, O>(s, Set::full());
}

/// No two different elements of `s` tie: two elements that may each stand
/// before the other are equal.
pub open spec fn no_ties<T, O: KeyOrder<T>>(s: Seq<T>) -> bool {
    forall|i: int, j: int|
        0 <= i < s.len() && 0 <= j < s.len() && O::before(#[trigger] s[i], #[trigger] s[j]) && O::before(s[j], s[i])
            ==> s[i] == s[j]
}

/// Two sorted sequences that hold the same elements, none of which tie,
/// are equal.
proof fn lemma_sorted_unique<T, O: KeyOrder<T>>(a: Seq<T>, b: Seq<T>)
    requires
        sorted_by::<T, O>(a),
        sorted_by::<T, O>(b),
        a.to_multiset() == b.to_multiset(),
        no_ties::<T, O>(a),
    ensures
        a == b,
    decreases a.len(),
{
    broadcast use vstd::seq_lib::to_multiset_build, vstd::seq_lib::to_multiset_contains, vstd::seq_lib::to_multiset_len;

    vstd::seq_lib::to_multiset_len(a);
    vstd::seq_lib::to_multiset_len(b);
    if a.len() == 0 {
        assert(a =~= b);
    } else {
        let n = a.len() - 1;
        let x = a[n];
        let y = b[n];
        assert(a.to_multiset().count(x) > 0);
        assert(b.contains(x));
        let j = choose|j: int| 0 <= j < b.len() && b[j] == x;
        assert(b.to_multiset().count(y) > 0);
        assert(a.contains(y));
        let i = choose|i: int| 0 <= i < a.len() && a[i] == y;
        if x != y {
            assert(j < n);
            assert(i < n);
            assert(O::before(b[j], b[n]));
            assert(O::before(a[i], a[n]));
            assert(false);
        }
        let a2 = a.drop_last();
        let b2 = b.drop_last();
        assert(a2.push(x) =~= a);
        assert(b2.push(x) =~= b);
        assert(a2.to_multiset().insert(x) == b2.to_multiset().insert(x));
        assert(a2.to_multiset() =~= b2.to_multiset()) by {
            assert forall|v: T| a2.to_multiset().count(v) == b2.to_multiset().count(v) by {
                assert(a2.to_multiset().insert(x).count(v) == b2.to_multiset().insert(x).count(v));
            }
        }
        assert forall|p: int, q: int| 0 <= p < q < a2.len() implies O::before(#[trigger] a2[p], #[trigger] a2[q]) by {
            assert(a2[p] == a[p] && a2[q] == a[q]);
        }
        assert forall|p: int, q: int| 0 <= p < q < b2.len() implies O::before(#[trigger] b2[p], #[trigger] b2[q]) by {
            assert(b2[p] == b[p] && b2[q] == b[q]);
        }
        assert forall|p: int, q: int|
            0 <= p < a2.len() && 0 <= q < a2.len() && O::before(#[trigger] a2[p], #[trigger] a2[q]) && O::before(
                a2[q],
                a2[p],
            ) implies a2[p] == a2[q] by {
            assert(a2[p] == a[p] && a2[q] == a[q]);
        }
        lemma_sorted_unique::<T, O>(a2, b2);
    }
}

/// Sorting does not depend on the input order: two sequences that hold
/// the same elements, none of which tie, sort to the same sequence, when
/// the order is a total preorder on their values.
pub proof fn lemma_sort_ignores_order_within<T, O: KeyOrder<T>>(a: Seq<T>, b: Seq<T>, dom: Set<T>)
    requires
        total_preorder_within::<T, O>(dom),
        all_within(a, dom),
        a.to_multiset() == b.to_multiset(),
        no_ties::<T, O>(a),
    ensures
        sort_by_key::<T, O>(a) == sort_by_key::<T, O>(b),
{
    broadcast use vstd::seq_lib::to_multiset_contains;

    let sa = sort_by_key::<T, O>(a);
    let sb = sort_by_key::<T, O>(b);
    assert forall|i: int| 0 <= i < b.len() implies dom.contains(#[trigger] b[i]) by {
        assert(b.contains(b[i]));
        assert(b.to_multiset().count(b[i]) > 0);
        assert(a.contains(b[i]));
        let q = choose|q: int| 0 <= q < a.len() && a[q] == b[i];
        assert(dom.contains(a[q]));
    }
    lemma_sort_sorted_within::<T, O>(a, dom);
    lemma_sort_sorted_within::<T, O>(b, dom);
    lemma_sort_permutes::<T, O>(a);
    lemma_sort_permutes::<T, O>(b);
    lemma_sort_members::<T, O>(a);
    assert forall|p: int, q: int|
        0 <= p < sa.len() && 0 <= q < sa.len() && O::before(#[trigger] sa[p], #[trigger] sa[q]) && O::before(
            sa[q],
            sa[p],
        ) implies sa[p] == sa[q] by {
        assert(a.contains(sa[p]));
        assert(a.contains(sa[q]));
        let i = choose|i: int| 0 <= i < a.len() && a[i] == sa[p];
        let j = choose|j: int| 0 <= j < a.len() && a[j] == sa[q];
        assert(O::before(a[i], a[j]));
    }
    lemma_sorted_unique::<T, O>(sa, sb);
}

/// Under a total preorder, sorting does not depend on the input order:
/// two sequences that hold the same elements, none of which tie, sort to
/// the same sequence.
pub proof fn lemma_sort_ignores_order<T, O: KeyOrder<T>>(a: Seq<T>, b: Seq<T>)
    requires
        total_preorder::<T, O>(),
        a.to_multiset() == b.to_multiset(),
        no_ties::<T, O>(a),
    ensures
        sort_by_key::<T, O>(a) == sort_by_key::<T, O>(b),
{
    lemma_total_within_full::<T, O>();
    lemma_sort_ignores_order_within::<T, O>(a, b, Set::full());
}

proof fn lemma_insert_at<T, O: KeyOrder<T>>(t: Seq<T>, x: T, j: int)
    requires
        0 <= j <= t.len(),
        j == 0 || O::before(t[j - 1], x),
        forall|m: int| j <= m < t.len() ==> !O::before(#[trigger] t[m], x),
    ensures
        insert_by_key::<T, O>(t, x) == t.insert(j, x),
    decreases t.len(),
{
    if t.len() == 0 {
        assert(t.insert(j, x) =~= seq![x]);
    } else if j == t.len() {
        assert(t.insert(j, x) =~= t.push(x));
    } else {
        assert(!O::before(t.last(), x));
        lemma_insert_at::<T, O>(t.drop_last(), x, j);
        assert(t.drop_last().insert(j, x).push(t.last()) =~= t.insert(j, x));
    }
}

/// Sort `v` stably by the key order.
pub fn sort_stable<T, O: KeyOrder<T>>(v: Vec<T>) -> (r: Vec<T>)
    ensures
        r@ == sort_by_key::<T, O>(v@),
{
    let ghost orig = v@;
    let n = v.len();
    let mut rest = v;
    let mut res: Vec<T> = Vec::new();
    let mut k: usize = 0;
    assert(orig.subrange(0, 0) =~= Seq::<T>::empty());
    while rest.len() > 0
        invariant
            k + rest@.len() == orig.len(),
            orig.len() == n,
            rest@ == orig.subrange(k as int, orig.len() as int),
            res@ == sort_by_key::<T, O>(orig.subrange(0, k as int)),
        decreases rest@.len(),
    {
        let x = rest.remove(0);
        assert(x == orig[k as int]);
        let mut j: usize = res.len();
        while j > 0 && !O::before_exec(&res[j - 1], &x)
            invariant
                j <= res@.len(),
                forall|m: int| j <= m < res@.len() ==> !O::before(#[trigger] res@[m], x),
            decreases j,
        {
            j = j - 1;
        }
        proof {
            lemma_insert_at::<T, O>(res@, x, j as int);
            let p = orig.subrange(0, k + 1);
            assert(p.drop_last() =~= orig.subrange(0, k as int));
            assert(p.last() == x);
        }
        res.insert(j, x);
        k = k + 1;
        assert(rest@ =~= orig.subrange(k as int, orig.len() as int));
    }
    assert(orig.subrange(0, orig.len() as int) =~= orig);
    res
}

} // verus!
