//! Co-localizations: the groups of lifelines that are observed together,
//! one trace of the multi-trace for each group.

use crate::sets::set_disjoint;
use std::collections::HashSet;
use vstd::prelude::*;

verus! {

/// The groups of lifelines, by the index of their trace.
pub struct CoLocalizations {
    pub locs_lf_ids: Vec<HashSet<usize>>,
}

/// The groups as mathematical sets.
pub open spec fn groups_of(locs: Seq<HashSet<usize>>) -> Seq<Set<usize>> {
    Seq::new(locs.len(), |i: int| locs[i]@)
}

/// The first group that holds the lifeline, if one does.
pub open spec fn coloc_of(groups: Seq<Set<usize>>, lf_id: usize) -> Option<usize>
    decreases groups.len(),
{
    if groups.len() == 0 {
        None
    } else {
        match coloc_of(groups.drop_last(), lf_id) {
            Some(c) => Some(c),
            None => if groups.last().contains(lf_id) {
                Some((groups.len() - 1) as usize)
            } else {
                None
            },
        }
    }
}

/// The groups that hold a lifeline of `lf_ids`.
pub open spec fn colocs_meeting(groups: Seq<Set<usize>>, lf_ids: Set<usize>) -> Set<usize> {
    Set::new(|c: usize| c < groups.len() && !groups[c as int].disjoint(lf_ids))
}

pub proof fn lemma_coloc_of_prefix(groups: Seq<Set<usize>>, n: int, lf_id: usize)
    requires
        0 <= n <= groups.len(),
        coloc_of(groups.take(n), lf_id) is Some,
    ensures
        coloc_of(groups, lf_id) == coloc_of(groups.take(n), lf_id),
    decreases groups.len() - n,
{
    if n == groups.len() {
        assert(groups.take(n) =~= groups);
    } else {
        assert(groups.take(n + 1).drop_last() =~= groups.take(n));
        lemma_coloc_of_prefix(groups, n + 1, lf_id);
    }
}

pub proof fn lemma_coloc_of_in_range(groups: Seq<Set<usize>>, lf_id: usize)
    requires
        groups.len() <= usize::MAX,
    ensures
        coloc_of(groups, lf_id) matches Some(c) ==> c < groups.len() && groups[c as int].contains(
            lf_id,
        ),
    decreases groups.len(),
{
    if groups.len() > 0 {
        lemma_coloc_of_in_range(groups.drop_last(), lf_id);
    }
}

impl View for CoLocalizations {
    type V = Seq<Set<usize>>;

    open spec fn view(&self) -> Seq<Set<usize>> {
        groups_of(self.locs_lf_ids@)
    }
}

impl CoLocalizations {
    pub fn new(locs_lf_ids: Vec<HashSet<usize>>) -> (r: CoLocalizations)
        ensures
            r.locs_lf_ids == locs_lf_ids,
    {
        CoLocalizations { locs_lf_ids }
    }

    /// The number of groups.
    pub fn num_colocs(&self) -> (n: usize)
        ensures
            n == self@.len(),
    {
        self.locs_lf_ids.len()
    }

    /// The group of a lifeline: the first that holds it.
    pub fn get_lf_coloc_id(&self, lf_id: usize) -> (r: Option<usize>)
        ensures
            r == coloc_of(self@, lf_id),
            r matches Some(c) ==> c < self@.len() && self@[c as int].contains(lf_id),
    {
        broadcast use vstd::std_specs::hash::group_hash_axioms;
        proof {
            lemma_coloc_of_in_range(self@, lf_id);
        }
        let mut i: usize = 0;
        proof {
            assert(self@.take(0) =~= Seq::<Set<usize>>::empty());
        }
        while i < self.locs_lf_ids.len()
            invariant
                i <= self.locs_lf_ids.len(),
                coloc_of(self@.take(i as int), lf_id) is None,
            decreases self.locs_lf_ids.len() - i,
        {
            proof {
                assert(self@.take(i + 1).drop_last() =~= self@.take(i as int));
                assert(self@.take(i + 1).last() == self.locs_lf_ids@[i as int]@);
            }
            if self.locs_lf_ids[i].contains(&lf_id) {
                proof {
                    lemma_coloc_of_prefix(self@, i + 1, lf_id);
                }
                return Some(i);
            }
            i += 1;
        }
        proof {
            assert(self@.take(self.locs_lf_ids.len() as int) =~= self@);
        }
        None
    }

    /// The groups that hold a lifeline of `lf_ids`.
    pub fn get_coloc_ids_from_lf_ids(&self, lf_ids: &HashSet<usize>) -> (r: HashSet<usize>)
        ensures
            r@ == colocs_meeting(self@, lf_ids@),
    {
        broadcast use vstd::std_specs::hash::group_hash_axioms;
        let mut r: HashSet<usize> = HashSet::new();
        let mut i: usize = 0;
        proof {
            assert(r@ =~= colocs_meeting(self@.take(0), lf_ids@));
        }
        while i < self.locs_lf_ids.len()
            invariant
                i <= self.locs_lf_ids.len(),
                r@ == colocs_meeting(self@.take(i as int), lf_ids@),
            decreases self.locs_lf_ids.len() - i,
        {
            let ghost before = r@;
            if !set_disjoint(&self.locs_lf_ids[i], lf_ids) {
                r.insert(i);
            }
            proof {
                let next = self@.take(i + 1);
                let prev = self@.take(i as int);
                assert forall|c: usize| r@.contains(c) == colocs_meeting(next, lf_ids@).contains(c) by {
                    if c < i {
                        assert(next[c as int] == prev[c as int]);
                    }
                    if c == i {
                        assert(next[c as int] == self.locs_lf_ids@[i as int]@);
                    }
                }
                assert(r@ =~= colocs_meeting(next, lf_ids@));
            }
            i += 1;
        }
        proof {
            assert(self@.take(self.locs_lf_ids.len() as int) =~= self@);
        }
        r
    }
}

} // verus!
