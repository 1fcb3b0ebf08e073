//! Which lifelines a term involves, and which it can do without.

use crate::action::{BroadcastPrimitive, BroadcastView};
use crate::context::GeneralContext;
use crate::interaction::{Interaction, Term};
use crate::sets::{set_of_vec, set_single, set_union};
use std::collections::HashSet;
use vstd::prelude::*;

verus! {

impl BroadcastView {
    /// No lifeline of `lf_ids` is the origin or a target.
    pub open spec fn avoids_all_of(self, lf_ids: Set<usize>) -> bool {
        self.involved_lifelines().disjoint(lf_ids)
    }
}

impl Term {
    /// The lifelines that occur in some action of the term.
    pub open spec fn involved_lifelines(self) -> Set<usize>
        decreases self,
    {
        match self {
            Term::Empty => Set::empty(),
            Term::Action(bp) => bp.involved_lifelines(),
            Term::CoReg(_, t1, t2) => t1.involved_lifelines().union(t2.involved_lifelines()),
            Term::Loop(_, t1) => t1.involved_lifelines(),
            Term::Alt(t1, t2) => t1.involved_lifelines().union(t2.involved_lifelines()),
            Term::Sync(_, t1, t2) => t1.involved_lifelines().union(t2.involved_lifelines()),
        }
    }

    /// Some lifeline of `lf_ids` occurs in the term.
    pub open spec fn involves_any_of(self, lf_ids: Set<usize>) -> bool {
        !self.involved_lifelines().disjoint(lf_ids)
    }

    /// The term has a behaviour in which no lifeline of `lf_ids` takes
    /// part: both operands of a sequence or a synchronisation must avoid
    /// them, one branch of a choice is enough, and a loop can always be
    /// left at once.
    pub open spec fn avoids_all_of(self, lf_ids: Set<usize>) -> bool
        decreases self,
    {
        match self {
            Term::Empty => true,
            Term::Action(bp) => bp.avoids_all_of(lf_ids),
            Term::CoReg(_, t1, t2) => t1.avoids_all_of(lf_ids) && t2.avoids_all_of(lf_ids),
            Term::Loop(_, _) => true,
            Term::Alt(t1, t2) => t1.avoids_all_of(lf_ids) || t2.avoids_all_of(lf_ids),
            Term::Sync(_, t1, t2) => t1.avoids_all_of(lf_ids) && t2.avoids_all_of(lf_ids),
        }
    }

    /// The term has a behaviour in which `lf_id` takes no part.
    pub open spec fn avoids(self, lf_id: usize) -> bool {
        self.avoids_all_of(set![lf_id])
    }
}

/// A term that involves none of the lifelines avoids them.
pub proof fn lemma_uninvolved_avoids(t: Term, lf_ids: Set<usize>)
    requires
        !t.involves_any_of(lf_ids),
    ensures
        t.avoids_all_of(lf_ids),
    decreases t,
{
    match t {
        Term::CoReg(_, t1, t2) => {
            lemma_uninvolved_avoids(*t1, lf_ids);
            lemma_uninvolved_avoids(*t2, lf_ids);
        },
        Term::Alt(t1, t2) => {
            lemma_uninvolved_avoids(*t1, lf_ids);
            lemma_uninvolved_avoids(*t2, lf_ids);
        },
        Term::Sync(_, t1, t2) => {
            lemma_uninvolved_avoids(*t1, lf_ids);
            lemma_uninvolved_avoids(*t2, lf_ids);
        },
        _ => {},
    }
}

impl BroadcastPrimitive {
    /// The origin, if any, and the targets.
    pub fn involved_lifelines(&self) -> (r: HashSet<usize>)
        ensures
            r@ == self@.involved_lifelines(),
    {
        broadcast use vstd::std_specs::hash::group_hash_axioms;
        let mut involved = set_of_vec(&self.targets);
        if let Some(source) = self.origin_on_emission {
            involved.insert(source);
        }
        involved
    }

    /// Whether no lifeline of `lf_ids` is the origin or a target.
    pub fn avoids_all_of(&self, lf_ids: &HashSet<usize>) -> (r: bool)
        ensures
            r == self@.avoids_all_of(lf_ids@),
    {
        broadcast use vstd::std_specs::hash::group_hash_axioms;
        if let Some(origin) = self.origin_on_emission {
            if lf_ids.contains(&origin) {
                proof {
                    assert(self@.involved_lifelines().contains(origin));
                }
                return false;
            }
        }
        let mut i: usize = 0;
        while i < self.targets.len()
            invariant
                i <= self.targets.len(),
                forall|j: int| 0 <= j < i ==> !lf_ids@.contains(self.targets@[j]),
            decreases self.targets.len() - i,
        {
            if lf_ids.contains(&self.targets[i]) {
                proof {
                    assert(self.targets@.contains(self.targets@[i as int]));
                    assert(self@.involved_lifelines().contains(self.targets@[i as int]));
                }
                return false;
            }
            i += 1;
        }
        proof {
            assert forall|lf: usize|
                self@.involved_lifelines().contains(lf) implies !lf_ids@.contains(lf) by {
                if self.targets@.contains(lf) {
                    let j = choose|j: int| 0 <= j < self.targets@.len() && self.targets@[j] == lf;
                }
            }
        }
        true
    }

    /// Whether some lifeline of `lf_ids` is the origin or a target.
    pub fn involves_any_of(&self, lf_ids: &HashSet<usize>) -> (r: bool)
        ensures
            r == !self@.involved_lifelines().disjoint(lf_ids@),
    {
        !self.avoids_all_of(lf_ids)
    }
}

impl Interaction {
    /// The lifelines that occur in some action of the term.
    pub fn involved_lifelines(&self) -> (r: HashSet<usize>)
        ensures
            r@ == self@.involved_lifelines(),
        decreases *self,
    {
        match self {
            Interaction::Empty => HashSet::new(),
            Interaction::Action(bp) => bp.involved_lifelines(),
            Interaction::CoReg(_, i1, i2) => {
                let s1 = i1.involved_lifelines();
                let s2 = i2.involved_lifelines();
                set_union(&s1, &s2)
            },
            Interaction::Sync(_, i1, i2) => {
                let s1 = i1.involved_lifelines();
                let s2 = i2.involved_lifelines();
                set_union(&s1, &s2)
            },
            Interaction::Alt(i1, i2) => {
                let s1 = i1.involved_lifelines();
                let s2 = i2.involved_lifelines();
                set_union(&s1, &s2)
            },
            Interaction::Loop(_, i1) => i1.involved_lifelines(),
        }
    }

    /// Whether some lifeline of `lf_ids` occurs in the term.
    pub fn involves_any_of(&self, lf_ids: &HashSet<usize>) -> (r: bool)
        ensures
            r == self@.involves_any_of(lf_ids@),
        decreases *self,
    {
        match self {
            Interaction::Empty => false,
            Interaction::Action(bp) => bp.involves_any_of(lf_ids),
            Interaction::CoReg(_, i1, i2) => i1.involves_any_of(lf_ids) || i2.involves_any_of(
                lf_ids,
            ),
            Interaction::Sync(_, i1, i2) => i1.involves_any_of(lf_ids) || i2.involves_any_of(
                lf_ids,
            ),
            Interaction::Alt(i1, i2) => i1.involves_any_of(lf_ids) || i2.involves_any_of(lf_ids),
            Interaction::Loop(_, i1) => i1.involves_any_of(lf_ids),
        }
    }

    /// Whether the term has a behaviour in which no lifeline of `lf_ids`
    /// takes part.
    pub fn avoids_all_of(&self, lf_ids: &HashSet<usize>) -> (r: bool)
        ensures
            r == self@.avoids_all_of(lf_ids@),
        decreases *self,
    {
        match self {
            Interaction::Empty => true,
            Interaction::Action(bp) => bp.avoids_all_of(lf_ids),
            Interaction::CoReg(_, i1, i2) => i1.avoids_all_of(lf_ids) && i2.avoids_all_of(lf_ids),
            Interaction::Sync(_, i1, i2) => i1.avoids_all_of(lf_ids) && i2.avoids_all_of(lf_ids),
            Interaction::Alt(i1, i2) => i1.avoids_all_of(lf_ids) || i2.avoids_all_of(lf_ids),
            Interaction::Loop(_, _) => true,
        }
    }

    /// Whether the term has a behaviour in which `lf_id` takes no part.
    pub fn avoids(&self, lf_id: usize) -> (r: bool)
        ensures
            r == self@.avoids(lf_id),
    {
        let one = set_single(lf_id);
        self.avoids_all_of(&one)
    }

    /// For each lifeline of the table, whether the term avoids it.
    pub fn get_avoidance_map(&self, gen_ctx: &GeneralContext) -> (r: Vec<bool>)
        ensures
            r@.len() == gen_ctx@.lf_num(),
            forall|lf: int| 0 <= lf < r@.len() ==> r@[lf] == self@.avoids(lf as usize),
    {
        let n = gen_ctx.get_lf_num();
        let mut r: Vec<bool> = Vec::new();
        let mut lf_id: usize = 0;
        while lf_id < n
            invariant
                lf_id <= n,
                r@.len() == lf_id,
                forall|lf: int| 0 <= lf < r@.len() ==> r@[lf] == self@.avoids(lf as usize),
            decreases n - lf_id,
        {
            r.push(self.avoids(lf_id));
            lf_id += 1;
        }
        r
    }
}

} // verus!
