//! The snapshot cache of chunk outlines: its records and the choice of
//! which cached files to evict. Reading and writing the files is left to
//! the caller.

use vstd::prelude::*;

use crate::schema::ChunkRecord;
use crate::sort::{lemma_sort_len, lemma_sort_permutes, lemma_sort_sorted, sort_by_key, sort_stable, KeyOrder};

verus! {

/// Store subdirectory for the snapshot cache.
pub const CACHE_DIR_NAME: &'static str = "cache";

/// Maximum number of snapshots kept in the cache.
pub const MAX_SNAPSHOTS: usize = 1000;

/// A cached snapshot with metadata.
#[derive(Clone, Debug)]
pub struct CachedSnapshot {
    pub file_path: String,
    pub created_at: u64,
    pub chunks: Vec<ChunkRecord>,
}

/// Disk cache for chunk outlines.
#[derive(Clone, Debug)]
pub struct SnapshotCache {
    root: String,
}

impl SnapshotCache {
    /// The cache rooted at `root`, the cache directory itself.
    pub fn at(root: String) -> (c: Self)
        ensures
            c.root_view() == root@,
    {
        SnapshotCache { root }
    }

    /// The cache root, as a spec value.
    pub closed spec fn root_view(&self) -> Seq<char> {
        self.root@
    }

    /// The path of the cache root.
    pub fn path(&self) -> (p: &str)
        ensures
            p@ == self.root_view(),
    {
        self.root.as_str()
    }
}

/// Order (position, modification time) pairs by time, oldest first.
pub struct OldestFirst;

impl KeyOrder<(usize, u128)> for OldestFirst {
    open spec fn before(a: (usize, u128), b: (usize, u128)) -> bool {
        a.1 <= b.1
    }

    fn before_exec(a: &(usize, u128), b: &(usize, u128)) -> (r: bool) {
        a.1 <= b.1
    }
}

/// The files to evict when the cache holds `modified.len()` files with
/// these modification times: none while there are at most
/// `MAX_SNAPSHOTS`; otherwise the oldest ones beyond that count, as
/// positions, oldest first, files of equal age in listing order.
pub open spec fn evictions(modified: Seq<u128>) -> Seq<usize> {
    if modified.len() <= MAX_SNAPSHOTS {
        seq![]
    } else {
        let pairs = Seq::new(modified.len(), |i: int| (i as usize, modified[i]));
        sort_by_key::<(usize, u128), OldestFirst>(pairs).take(modified.len() - MAX_SNAPSHOTS).map_values(
            |p: (usize, u128)| p.0,
        )
    }
}

/// Eviction keeps exactly `MAX_SNAPSHOTS` files once there are more, names
/// only files that exist, and never evicts a file newer than one it keeps.
pub proof fn lemma_evictions_oldest(modified: Seq<u128>)
    requires
        modified.len() <= usize::MAX,
    ensures
        modified.len() <= MAX_SNAPSHOTS ==> evictions(modified).len() == 0,
        modified.len() > MAX_SNAPSHOTS ==> evictions(modified).len() == modified.len() - MAX_SNAPSHOTS,
        forall|k: int| 0 <= k < evictions(modified).len() ==> #[trigger] evictions(modified)[k] < modified.len(),
        forall|k: int, j: int|
            0 <= k < evictions(modified).len() && 0 <= j < modified.len() && !evictions(modified).contains(
                j as usize,
            ) ==> modified[#[trigger] evictions(modified)[k] as int] <= #[trigger] modified[j],
{
    if modified.len() > MAX_SNAPSHOTS {
        let n = modified.len();
        let pairs = Seq::new(n, |i: int| (i as usize, modified[i]));
        let sorted = sort_by_key::<(usize, u128), OldestFirst>(pairs);
        let count = n - MAX_SNAPSHOTS;
        let ev = evictions(modified);
        lemma_sort_len::<(usize, u128), OldestFirst>(pairs);
        lemma_sort_permutes::<(usize, u128), OldestFirst>(pairs);
        lemma_sort_sorted::<(usize, u128), OldestFirst>(pairs);
        assert(ev =~= sorted.take(count).map_values(|p: (usize, u128)| p.0));
        assert forall|t: int| 0 <= t < sorted.len() implies (#[trigger] sorted[t]).0 < n && sorted[t].1
            == modified[sorted[t].0 as int] by {
            assert(sorted.contains(sorted[t]));
            vstd::seq_lib::to_multiset_contains(sorted, sorted[t]);
            assert(pairs.to_multiset().count(sorted[t]) > 0);
            vstd::seq_lib::to_multiset_contains(pairs, sorted[t]);
            assert(pairs.contains(sorted[t]));
            let i = choose|i: int| 0 <= i < pairs.len() && pairs[i] == sorted[t];
            assert(pairs[i] == (i as usize, modified[i]));
        }
        assert forall|k: int| 0 <= k < ev.len() implies #[trigger] ev[k] < modified.len() by {
            assert(ev[k] == sorted[k].0);
        }
        assert forall|k: int, j: int|
            0 <= k < ev.len() && 0 <= j < modified.len() && !ev.contains(j as usize) implies modified[
            #[trigger] ev[k] as int] <= #[trigger] modified[j] by {
            assert(ev[k] == sorted[k].0);
            let pj = pairs[j];
            assert(pairs.contains(pj));
            vstd::seq_lib::to_multiset_contains(pairs, pj);
            assert(sorted.to_multiset().count(pj) > 0);
            vstd::seq_lib::to_multiset_contains(sorted, pj);
            let t = choose|t: int| 0 <= t < sorted.len() && sorted[t] == pj;
            if t < count {
                assert(ev[t] == j as usize);
                assert(ev.contains(j as usize));
            }
            assert(OldestFirst::before(sorted[k], sorted[t]));
        }
    }
}

/// Choose the cached files to evict.
pub fn select_evictions(modified: &Vec<u128>) -> (r: Vec<usize>)
    ensures
        r@ == evictions(modified@),
{
    let n = modified.len();
    if n <= MAX_SNAPSHOTS {
        return Vec::new();
    }
    let mut pairs: Vec<(usize, u128)> = Vec::new();
    let mut i: usize = 0;
    while i < n
        invariant
            i <= n,
            n == modified@.len(),
            pairs@ == Seq::new(i as nat, |k: int| (k as usize, modified@[k])),
        decreases n - i,
    {
        pairs.push((i, modified[i]));
        i = i + 1;
        assert(pairs@ =~= Seq::new(i as nat, |k: int| (k as usize, modified@[k])));
    }
    let ghost p = pairs@;
    let sorted = sort_stable::<(usize, u128), OldestFirst>(pairs);
    proof {
        lemma_sort_len::<(usize, u128), OldestFirst>(p);
    }
    let count = n - MAX_SNAPSHOTS;
    let mut out: Vec<usize> = Vec::new();
    let mut j: usize = 0;
    while j < count
        invariant
            j <= count,
            count <= sorted@.len(),
            out@ == sorted@.take(j as int).map_values(|q: (usize, u128)| q.0),
        decreases count - j,
    {
        out.push(sorted[j].0);
        j = j + 1;
        assert(out@ =~= sorted@.take(j as int).map_values(|q: (usize, u128)| q.0));
    }
    out
}

} // verus!
