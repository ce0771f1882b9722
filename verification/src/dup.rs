//! Copies whose result Verus knows.

use vstd::prelude::*;

verus! {

/// A type whose values can be copied with the copy known equal.
pub trait Duplicate: Sized {
    /// A copy of `self`.
    fn dup(&self) -> (r: Self)
        ensures
            r == *self,
    ;
}

impl Duplicate for String {
    fn dup(&self) -> (r: Self) {
        self.clone()
    }
}

/// A copy of a vector.
pub fn dup_vec<T: Duplicate>(v: &Vec<T>) -> (r: Vec<T>)
    ensures
        r@ == v@,
{
    let mut r: Vec<T> = Vec::new();
    let mut i: usize = 0;
    while i < v.len()
        invariant
            i <= v@.len(),
            r@ == v@.take(i as int),
        decreases v@.len() - i,
    {
        r.push(v[i].dup());
        i = i + 1;
        assert(r@ =~= v@.take(i as int));
    }
    assert(v@.take(v@.len() as int) =~= v@);
    r
}

/// A copy of an optional value.
pub fn dup_opt<T: Duplicate>(v: &Option<T>) -> (r: Option<T>)
    ensures
        r == *v,
{
    match v {
        Some(x) => Some(x.dup()),
        None => None,
    }
}

} // verus!
