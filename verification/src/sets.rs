//! Small verified operations on hash sets of identifiers.
//!
//! Every function states its result over the mathematical set that the hash
//! set stands for, so that callers never depend on the order in which a hash
//! set hands out its elements.

use std::collections::HashSet;
use vstd::prelude::*;
use vstd::std_specs::iter::IteratorSpec;

verus! {

/// The elements among the first `n` entries of `s`.
pub open spec fn seen(s: Seq<&usize>, n: int) -> Set<usize> {
    Set::new(|k: usize| exists|j: int| 0 <= j < n && 0 <= j < s.len() && *#[trigger] s[j] == k)
}

proof fn lemma_seen_step(s: Seq<&usize>, n: int)
    requires
        0 <= n < s.len(),
    ensures
        seen(s, n + 1) == seen(s, n).insert(*s[n]),
        seen(s, 0) == Set::<usize>::empty(),
{
    assert forall|k: usize| seen(s, n + 1).contains(k) == seen(s, n).insert(*s[n]).contains(k) by {
        if seen(s, n + 1).contains(k) {
            let j = choose|j: int| 0 <= j < n + 1 && 0 <= j < s.len() && *#[trigger] s[j] == k;
            if j < n {
                assert(seen(s, n).contains(k));
            }
        }
        if seen(s, n).contains(k) {
            let j = choose|j: int| 0 <= j < n && 0 <= j < s.len() && *#[trigger] s[j] == k;
            assert(0 <= j < n + 1 && *s[j] == k);
        }
        if k == *s[n] {
            assert(0 <= n < n + 1 && *s[n] == k);
        }
    }
    assert(seen(s, n + 1) =~= seen(s, n).insert(*s[n]));
    assert(seen(s, 0) =~= Set::<usize>::empty());
}

proof fn lemma_seen_all(s: Seq<&usize>)
    ensures
        seen(s, s.len() as int) == s.unref().to_set(),
        seen(s, 0) == Set::<usize>::empty(),
{
    let u = s.unref();
    assert forall|k: usize| seen(s, s.len() as int).contains(k) == u.to_set().contains(k) by {
        if seen(s, s.len() as int).contains(k) {
            let j = choose|j: int| 0 <= j < s.len() && 0 <= j < s.len() && *#[trigger] s[j] == k;
            assert(u[j] == k);
            assert(u.contains(k));
        }
        if u.contains(k) {
            let j = choose|j: int| 0 <= j < u.len() && u[j] == k;
            assert(*s[j] == k);
        }
    }
    assert(seen(s, s.len() as int) =~= u.to_set());
    assert(seen(s, 0) =~= Set::<usize>::empty());
}

/// A fresh set with the elements of `a`.
pub fn set_copy(a: &HashSet<usize>) -> (r: HashSet<usize>)
    ensures
        r@ == a@,
{
    broadcast use vstd::std_specs::hash::group_hash_axioms;
    let mut r: HashSet<usize> = HashSet::new();
    let ghost s = a.iter().remaining();
    let ghost mut n: int = 0;
    proof {
        lemma_seen_all(s);
    }
    for x in it: a.iter()
        invariant
            it.seq() == s,
            n == it.index(),
            r@ == seen(s, n),
    {
        proof {
            lemma_seen_step(s, n);
            n = n + 1;
        }
        r.insert(*x);
    }
    r
}

/// The set that holds `x` alone.
pub fn set_single(x: usize) -> (r: HashSet<usize>)
    ensures
        r@ == set![x],
{
    broadcast use vstd::std_specs::hash::group_hash_axioms;
    let mut r: HashSet<usize> = HashSet::new();
    r.insert(x);
    assert(r@ =~= set![x]);
    r
}

/// The elements of a vector, as a set.
pub fn set_of_vec(v: &Vec<usize>) -> (r: HashSet<usize>)
    ensures
        r@ == v@.to_set(),
{
    broadcast use vstd::std_specs::hash::group_hash_axioms;
    let mut r: HashSet<usize> = HashSet::new();
    let mut i: usize = 0;
    while i < v.len()
        invariant
            i <= v.len(),
            r@ == v@.take(i as int).to_set(),
        decreases v.len() - i,
    {
        r.insert(v[i]);
        proof {
            assert(v@.take(i + 1) =~= v@.take(i as int).push(v@[i as int]));
            v@.take(i as int).lemma_push_to_set_commute(v@[i as int]);
        }
        i += 1;
    }
    assert(v@.take(v.len() as int) =~= v@);
    r
}

/// The union of two sets.
pub fn set_union(a: &HashSet<usize>, b: &HashSet<usize>) -> (r: HashSet<usize>)
    ensures
        r@ == a@.union(b@),
{
    broadcast use vstd::std_specs::hash::group_hash_axioms;
    let mut r = set_copy(a);
    let ghost s = b.iter().remaining();
    let ghost mut n: int = 0;
    proof {
        lemma_seen_all(s);
        assert(r@ =~= a@.union(seen(s, 0)));
    }
    for x in it: b.iter()
        invariant
            it.seq() == s,
            n == it.index(),
            r@ == a@.union(seen(s, n)),
    {
        proof {
            lemma_seen_step(s, n);
            assert(a@.union(seen(s, n)).insert(*x) =~= a@.union(seen(s, n + 1)));
            n = n + 1;
        }
        r.insert(*x);
    }
    r
}

/// The elements of `a` that `b` holds too.
pub fn set_intersection(a: &HashSet<usize>, b: &HashSet<usize>) -> (r: HashSet<usize>)
    ensures
        r@ == a@.intersect(b@),
{
    broadcast use vstd::std_specs::hash::group_hash_axioms;
    let mut r: HashSet<usize> = HashSet::new();
    let ghost s = a.iter().remaining();
    let ghost mut n: int = 0;
    proof {
        lemma_seen_all(s);
        assert(r@ =~= seen(s, 0).intersect(b@));
    }
    for x in it: a.iter()
        invariant
            it.seq() == s,
            n == it.index(),
            r@ == seen(s, n).intersect(b@),
    {
        proof {
            lemma_seen_step(s, n);
        }
        if b.contains(x) {
            r.insert(*x);
            assert(r@ =~= seen(s, n + 1).intersect(b@));
        } else {
            assert(r@ =~= seen(s, n + 1).intersect(b@));
        }
        proof {
            n = n + 1;
        }
    }
    r
}

/// The elements of `a` that `b` does not hold.
pub fn set_difference(a: &HashSet<usize>, b: &HashSet<usize>) -> (r: HashSet<usize>)
    ensures
        r@ == a@.difference(b@),
{
    broadcast use vstd::std_specs::hash::group_hash_axioms;
    let mut r: HashSet<usize> = HashSet::new();
    let ghost s = a.iter().remaining();
    let ghost mut n: int = 0;
    proof {
        lemma_seen_all(s);
        assert(r@ =~= seen(s, 0).difference(b@));
    }
    for x in it: a.iter()
        invariant
            it.seq() == s,
            n == it.index(),
            r@ == seen(s, n).difference(b@),
    {
        proof {
            lemma_seen_step(s, n);
        }
        if !b.contains(x) {
            r.insert(*x);
            assert(r@ =~= seen(s, n + 1).difference(b@));
        } else {
            assert(r@ =~= seen(s, n + 1).difference(b@));
        }
        proof {
            n = n + 1;
        }
    }
    r
}

/// Whether every element of `a` is in `b`.
pub fn set_is_subset(a: &HashSet<usize>, b: &HashSet<usize>) -> (r: bool)
    ensures
        r == a@.subset_of(b@),
{
    broadcast use vstd::std_specs::hash::group_hash_axioms;
    let ghost s = a.iter().remaining();
    let ghost mut n: int = 0;
    proof {
        lemma_seen_all(s);
    }
    for x in it: a.iter()
        invariant
            it.seq() == s,
            n == it.index(),
            s.unref().to_set() == a@,
            seen(s, n).subset_of(b@),
    {
        proof {
            lemma_seen_step(s, n);
        }
        if !b.contains(x) {
            proof {
                assert(s.unref()[n] == *x);
                assert(s.unref().contains(*x));
                assert(a@.contains(*x));
            }
            return false;
        }
        proof {
            n = n + 1;
        }
    }
    true
}

/// Whether two sets hold the same elements.
pub fn set_equal(a: &HashSet<usize>, b: &HashSet<usize>) -> (r: bool)
    ensures
        r == (a@ == b@),
{
    let r = set_is_subset(a, b) && set_is_subset(b, a);
    proof {
        if r {
            assert(a@ =~= b@);
        }
    }
    r
}

/// Whether two sets share no element.
pub fn set_disjoint(a: &HashSet<usize>, b: &HashSet<usize>) -> (r: bool)
    ensures
        r == a@.disjoint(b@),
        r == a@.intersect(b@).is_empty(),
{
    broadcast use vstd::std_specs::hash::group_hash_axioms;
    let ghost s = a.iter().remaining();
    let ghost mut n: int = 0;
    proof {
        lemma_seen_all(s);
    }
    for x in it: a.iter()
        invariant
            it.seq() == s,
            n == it.index(),
            s.unref().to_set() == a@,
            seen(s, n).disjoint(b@),
    {
        proof {
            lemma_seen_step(s, n);
        }
        if b.contains(x) {
            proof {
                assert(s.unref()[n] == *x);
                assert(s.unref().contains(*x));
                assert(a@.contains(*x));
                assert(a@.intersect(b@).contains(*x));
            }
            return false;
        }
        proof {
            n = n + 1;
        }
    }
    proof {
        assert(a@.intersect(b@) =~= Set::<usize>::empty());
    }
    true
}

/// Whether a set is a singleton, with its element as witness.
pub open spec fn is_single(s: Set<usize>) -> bool {
    s == set![s.choose()]
}

/// The element of a set that holds exactly one, and `None` for any other set.
pub fn set_sole_element(a: &HashSet<usize>) -> (r: Option<usize>)
    ensures
        r is Some <==> is_single(a@),
        r matches Some(x) ==> x == a@.choose() && a@ == set![x],
{
    broadcast use vstd::std_specs::hash::group_hash_axioms;
    let ghost s = a.iter().remaining();
    let ghost mut n: int = 0;
    let mut found: Option<usize> = None;
    proof {
        lemma_seen_all(s);
    }
    for x in it: a.iter()
        invariant
            it.seq() == s,
            n == it.index(),
            s.unref().to_set() == a@,
            s.no_duplicates(),
            n == 0 ==> found is None,
            n > 0 ==> found == Some(*s[0]) && n == 1,
    {
        if found.is_some() {
            proof {
                assert(s.unref()[0] == *s[0] && s.unref()[1] == *s[1]);
                assert(s.unref().contains(*s[0]));
                assert(s.unref().contains(*s[1]));
                assert(s[0] != s[1]);
                assert(*s[0] != *s[1]);
                if is_single(a@) {
                    assert(a@.contains(*s[0]) && a@.contains(*s[1]));
                }
            }
            return None;
        }
        found = Some(*x);
        proof {
            n = n + 1;
        }
    }
    proof {
        if n == 0 {
            assert(s.unref() =~= Seq::<usize>::empty());
            assert(a@ =~= Set::<usize>::empty());
            if is_single(a@) {
                assert(a@.contains(a@.choose()));
            }
        } else {
            let x = *s[0];
            assert(s.unref()[0] == x);
            assert(s.unref() =~= seq![x]);
            assert(s.unref().contains(x));
            assert forall|k: usize| a@.contains(k) implies k == x by {
                let j = choose|j: int| 0 <= j < s.unref().len() && s.unref()[j] == k;
            }
            assert(a@ =~= set![x]);
            assert(a@.contains(a@.choose()));
        }
    }
    found
}

} // verus!
