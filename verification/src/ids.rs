//! Lists of identifiers: co-regions and target lists.

use vstd::prelude::*;

verus! {

/// A copy of a list of identifiers.
pub fn copy_ids(v: &Vec<usize>) -> (r: Vec<usize>)
    ensures
        r@ == v@,
{
    let mut r: Vec<usize> = Vec::new();
    let mut i: usize = 0;
    while i < v.len()
        invariant
            i <= v.len(),
            r@ == v@.take(i as int),
        decreases v.len() - i,
    {
        r.push(v[i]);
        proof {
            assert(v@.take(i + 1) =~= v@.take(i as int).push(v@[i as int]));
        }
        i += 1;
    }
    proof {
        assert(v@.take(v.len() as int) =~= v@);
    }
    r
}

/// Whether `x` occurs in the list.
pub fn ids_contain(v: &Vec<usize>, x: usize) -> (r: bool)
    ensures
        r == v@.contains(x),
{
    let mut i: usize = 0;
    while i < v.len()
        invariant
            i <= v.len(),
            forall|j: int| 0 <= j < i ==> v@[j] != x,
        decreases v.len() - i,
    {
        if v[i] == x {
            return true;
        }
        i += 1;
    }
    false
}

/// Whether two lists hold the same identifiers in the same order.
pub fn ids_equal(v: &Vec<usize>, w: &Vec<usize>) -> (r: bool)
    ensures
        r == (v@ == w@),
{
    if v.len() != w.len() {
        return false;
    }
    let mut i: usize = 0;
    while i < v.len()
        invariant
            i <= v.len(),
            v.len() == w.len(),
            forall|j: int| 0 <= j < i ==> v@[j] == w@[j],
        decreases v.len() - i,
    {
        if v[i] != w[i] {
            return false;
        }
        i += 1;
    }
    proof {
        assert(v@ =~= w@);
    }
    true
}

/// Every identifier of `v` occurs in `w`.
pub open spec fn included(v: Seq<usize>, w: Seq<usize>) -> bool {
    forall|i: int| 0 <= i < v.len() ==> w.contains(#[trigger] v[i])
}

/// The identifiers `0`, `1`, up to `n - 1`.
pub open spec fn all_ids(n: nat) -> Seq<usize> {
    Seq::new(n, |i: int| i as usize)
}

/// The list of the first `n` identifiers.
pub fn first_ids(n: usize) -> (r: Vec<usize>)
    ensures
        r@ == all_ids(n as nat),
{
    let mut r: Vec<usize> = Vec::new();
    let mut i: usize = 0;
    while i < n
        invariant
            i <= n,
            r@ == all_ids(i as nat),
        decreases n - i,
    {
        r.push(i);
        proof {
            assert(r@ =~= all_ids((i + 1) as nat));
        }
        i += 1;
    }
    r
}

} // verus!
