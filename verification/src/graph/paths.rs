//! Path order and equality as `std::path::Path` defines them. The names
//! below stand for the results on the target the library is built for;
//! the program is built for Unix paths, where `/` is the only separator.

use vstd::prelude::*;

verus! {

/// Whether `Path::new(a) < Path::new(b)`: the standard library compares
/// paths component by component.
pub uninterp spec fn path_lt(a: Seq<char>, b: Seq<char>) -> bool;

/// `path_lt` orders the paths of `ps` as a strict weak order, as `Ord` for
/// `Path` promises: two of them never come before each other, and when
/// `a` comes before `c`, any `b` comes after `a` or before `c`.
pub open spec fn path_order_strict_weak_on(ps: Set<Seq<char>>) -> bool {
    &&& forall|a: Seq<char>, b: Seq<char>|
        ps.contains(a) && ps.contains(b) && #[trigger] path_lt(a, b) ==> !path_lt(b, a)
    &&& forall|a: Seq<char>, b: Seq<char>, c: Seq<char>|
        #![trigger path_lt(a, c), path_lt(a, b)]
        #![trigger path_lt(a, c), path_lt(b, c)]
        ps.contains(a) && ps.contains(b) && ps.contains(c) && path_lt(a, c) ==> path_lt(a, b) || path_lt(b, c)
}

/// The texts of the paths.
pub open spec fn path_views(paths: Seq<String>) -> Seq<Seq<char>> {
    paths.map_values(|p: String| p@)
}

/// Paths `i` and `j` are not ordered both ways.
pub open spec fn asym_at(v: Seq<Seq<char>>, i: int, j: int) -> bool {
    path_lt(v[i], v[j]) ==> !path_lt(v[j], v[i])
}

/// When path `i` comes before path `k`, path `j` comes after `i` or
/// before `k`.
pub open spec fn trans_at(v: Seq<Seq<char>>, i: int, j: int, k: int) -> bool {
    path_lt(v[i], v[k]) ==> path_lt(v[i], v[j]) || path_lt(v[j], v[k])
}

/// The strict weak order laws, position by position.
pub open spec fn strict_weak_at(v: Seq<Seq<char>>) -> bool {
    &&& forall|i: int, j: int| 0 <= i < v.len() && 0 <= j < v.len() ==> #[trigger] asym_at(v, i, j)
    &&& forall|i: int, j: int, k: int|
        0 <= i < v.len() && 0 <= j < v.len() && 0 <= k < v.len() ==> #[trigger] trans_at(v, i, j, k)
}

proof fn lemma_strict_weak_at(v: Seq<Seq<char>>)
    ensures
        strict_weak_at(v) == path_order_strict_weak_on(v.to_set()),
{
    if strict_weak_at(v) {
        assert forall|a: Seq<char>, b: Seq<char>|
            v.to_set().contains(a) && v.to_set().contains(b) && #[trigger] path_lt(a, b) implies !path_lt(b, a) by {
            let i = choose|i: int| 0 <= i < v.len() && v[i] == a;
            let j = choose|j: int| 0 <= j < v.len() && v[j] == b;
            assert(asym_at(v, i, j));
        }
        assert forall|a: Seq<char>, b: Seq<char>, c: Seq<char>|
            v.to_set().contains(a) && v.to_set().contains(b) && v.to_set().contains(c) && path_lt(a, c) implies
            path_lt(a, b) || path_lt(b, c) by {
            let i = choose|i: int| 0 <= i < v.len() && v[i] == a;
            let j = choose|j: int| 0 <= j < v.len() && v[j] == b;
            let k = choose|k: int| 0 <= k < v.len() && v[k] == c;
            assert(trans_at(v, i, j, k));
        }
    }
    if path_order_strict_weak_on(v.to_set()) {
        assert forall|i: int, j: int| 0 <= i < v.len() && 0 <= j < v.len() implies #[trigger] asym_at(v, i, j) by {
            assert(v.to_set().contains(v[i]) && v.to_set().contains(v[j]));
        }
        assert forall|i: int, j: int, k: int|
            0 <= i < v.len() && 0 <= j < v.len() && 0 <= k < v.len() implies #[trigger] trans_at(v, i, j, k) by {
            assert(v.to_set().contains(v[i]) && v.to_set().contains(v[j]) && v.to_set().contains(v[k]));
            if path_lt(v[i], v[k]) {
                assert(path_lt(v[i], v[j]) || path_lt(v[j], v[k]));
            }
        }
    }
}

/// Whether `path_lt` orders the given paths as a strict weak order:
/// checked pair by pair and triple by triple.
pub fn paths_strictly_weak(paths: &Vec<String>) -> (r: bool)
    ensures
        r == path_order_strict_weak_on(path_views(paths@).to_set()),
{
    let ghost v = path_views(paths@);
    proof {
        lemma_strict_weak_at(v);
    }
    let n = paths.len();
    let mut i: usize = 0;
    while i < n
        invariant
            n == paths@.len(),
            v == path_views(paths@),
            v.len() == n,
            i <= n,
            forall|a: int, b: int| 0 <= a < i && 0 <= b < n ==> #[trigger] asym_at(v, a, b),
            forall|a: int, b: int, c: int| 0 <= a < i && 0 <= b < n && 0 <= c < n ==> #[trigger] trans_at(v, a, b, c),
        decreases n - i,
    {
        let mut j: usize = 0;
        while j < n
            invariant
                n == paths@.len(),
                v == path_views(paths@),
                v.len() == n,
                i < n,
                j <= n,
                forall|a: int, b: int| 0 <= a < i && 0 <= b < n ==> #[trigger] asym_at(v, a, b),
                forall|a: int, b: int, c: int|
                    0 <= a < i && 0 <= b < n && 0 <= c < n ==> #[trigger] trans_at(v, a, b, c),
                forall|b: int| 0 <= b < j ==> #[trigger] asym_at(v, i as int, b),
                forall|b: int, c: int| 0 <= b < j && 0 <= c < n ==> #[trigger] trans_at(v, i as int, b, c),
            decreases n - j,
        {
            let ij = path_less(paths[i].as_str(), paths[j].as_str());
            let ji = path_less(paths[j].as_str(), paths[i].as_str());
            if ij && ji {
                assert(!asym_at(v, i as int, j as int));
                return false;
            }
            let mut k: usize = 0;
            while k < n
                invariant
                    n == paths@.len(),
                    v == path_views(paths@),
                    v.len() == n,
                    i < n,
                    j < n,
                    k <= n,
                    ij == path_lt(v[i as int], v[j as int]),
                    forall|c: int| 0 <= c < k ==> #[trigger] trans_at(v, i as int, j as int, c),
                decreases n - k,
            {
                let ik = path_less(paths[i].as_str(), paths[k].as_str());
                let jk = path_less(paths[j].as_str(), paths[k].as_str());
                if ik && !ij && !jk {
                    assert(!trans_at(v, i as int, j as int, k as int));
                    return false;
                }
                k = k + 1;
            }
            j = j + 1;
        }
        i = i + 1;
    }
    true
}


/// Whether `Path::new(a) == Path::new(b)`: equal components.
pub uninterp spec fn path_eq(a: Seq<char>, b: Seq<char>) -> bool;

/// `Path::new(a) < Path::new(b)`.
///
/// Wraps `PartialOrd::lt` for `std::path::Path`; its result is named by
/// `path_lt` and depends on the two paths alone.
#[verifier::external_body]
pub(crate) fn path_less(a: &str, b: &str) -> (r: bool)
    ensures
        r == path_lt(a@, b@),
{
    std::path::Path::new(a) < std::path::Path::new(b)
}

/// Whether `Path::new(a) == Path::new(b)`. `Path` is `Eq`, so equal strings
/// name equal paths; other strings compare as `path_eq` says.
pub open spec fn same_path(a: Seq<char>, b: Seq<char>) -> bool {
    a == b || path_eq(a, b)
}

/// `Path::new(a) == Path::new(b)`.
///
/// Wraps `PartialEq::eq` for `std::path::Path`; its result is named by
/// `path_eq` and depends on the two paths alone. `Path` is `Eq`, so a path
/// compares equal to itself.
#[verifier::external_body]
pub(crate) fn path_equal(a: &str, b: &str) -> (r: bool)
    ensures
        r == path_eq(a@, b@),
        r == same_path(a@, b@),
{
    std::path::Path::new(a) == std::path::Path::new(b)
}

/// The extension of the path `p`, as `Path::extension` finds it in the
/// final component.
pub uninterp spec fn path_ext_of(p: Seq<char>) -> Option<Seq<char>>;

/// `Path::new(p).extension()`, as a string.
///
/// Wraps `Path::extension`; its result is named by `path_ext_of` and
/// depends on the path alone. An extension taken from a `str` path is
/// valid UTF-8, so the lossy conversion keeps it unchanged.
#[verifier::external_body]
pub(crate) fn path_extension(p: &str) -> (r: Option<String>)
    ensures
        match r {
            Some(e) => path_ext_of(p@) == Some(e@),
            None => path_ext_of(p@) is None,
        },
{
    match std::path::Path::new(p).extension() {
        Some(e) => Some(e.to_string_lossy().into_owned()),
        None => None,
    }
}

/// `path` relative to `root`, as `Path::strip_prefix` gives it; `None`
/// when `root` is not a prefix of `path`.
pub uninterp spec fn strip_prefix_of(path: Seq<char>, root: Seq<char>) -> Option<Seq<char>>;

/// `Path::new(path).strip_prefix(root)`, as a string.
///
/// Wraps `Path::strip_prefix`; its result is named by `strip_prefix_of`
/// and depends on the two paths alone.
#[verifier::external_body]
pub(crate) fn path_strip_prefix(path: &str, root: &str) -> (r: Option<String>)
    ensures
        match r {
            Some(s) => strip_prefix_of(path@, root@) == Some(s@),
            None => strip_prefix_of(path@, root@) is None,
        },
{
    match std::path::Path::new(path).strip_prefix(root) {
        Ok(rel) => Some(rel.to_string_lossy().into_owned()),
        Err(_) => None,
    }
}

/// The names of the components of a path, as `Path::components` gives
/// them.
pub uninterp spec fn components_of(path: Seq<char>) -> Seq<Seq<char>>;

/// The component names of `path`.
///
/// Wraps `Path::components`; its result is named by `components_of` and
/// depends on the path alone. A component of a `str` path is valid UTF-8,
/// so the lossy conversion keeps it unchanged.
#[verifier::external_body]
pub(crate) fn path_components(path: &str) -> (r: Vec<String>)
    ensures
        r@.len() == components_of(path@).len(),
        forall|i: int| 0 <= i < r@.len() ==> (#[trigger] r@[i])@ == components_of(path@)[i],
{
    std::path::Path::new(path).components().map(|c| c.as_os_str().to_string_lossy().into_owned()).collect()
}

} // verus!
