//! The lifelines for which something changes when an action fires.

use crate::ids::ids_contain;
use crate::interaction::{Interaction, Term};
use crate::position::Position;
use crate::sets::set_union;
use std::collections::HashSet;
use vstd::prelude::*;

verus! {

impl Term {
    /// The lifelines that lose behaviours when the term is pruned of `lf`:
    /// those of a choice of which a branch goes, and those of a loop whose
    /// body cannot do without `lf`.
    pub open spec fn affected_on_prune(self, lf: usize) -> Set<usize>
        decreases self,
    {
        match self {
            Term::Empty => Set::empty(),
            Term::Action(_) => Set::empty(),
            Term::CoReg(_, t1, t2) => t1.affected_on_prune(lf).union(t2.affected_on_prune(lf)),
            Term::Sync(_, t1, t2) => t1.affected_on_prune(lf).union(t2.affected_on_prune(lf)),
            Term::Alt(t1, t2) => if t1.avoids(lf) && t2.avoids(lf) {
                t1.affected_on_prune(lf).union(t2.affected_on_prune(lf))
            } else {
                t1.involved_lifelines().union(t2.involved_lifelines())
            },
            Term::Loop(_, t1) => if t1.avoids(lf) {
                t1.affected_on_prune(lf)
            } else {
                t1.involved_lifelines()
            },
        }
    }

    /// The position descends along the operators of the term.
    pub open spec fn has_position(self, pos: Position) -> bool
        decreases self,
    {
        match pos {
            Position::Epsilon(_) => true,
            Position::Left(p) => match self {
                Term::Loop(_, _) => true,
                Term::CoReg(_, t1, _) => t1.has_position(*p),
                Term::Sync(_, t1, _) => t1.has_position(*p),
                Term::Alt(_, _) => true,
                _ => false,
            },
            Position::Right(p) => match self {
                Term::CoReg(_, _, t2) => t2.has_position(*p),
                Term::Sync(_, _, t2) => t2.has_position(*p),
                Term::Alt(_, _) => true,
                _ => false,
            },
            Position::Both(p1, p2) => match self {
                Term::Sync(_, t1, t2) => t1.has_position(*p1) && t2.has_position(*p2),
                Term::Alt(t1, t2) => t1.has_position(*p1) && t2.has_position(*p2),
                _ => false,
            },
        }
    }

    /// The lifelines whose behaviours may change when an action of `lf`
    /// fires at `pos`.
    ///
    /// Nothing changes at the action itself. Entering a loop or deciding a
    /// choice changes things for all their lifelines. An action in the
    /// right operand of a sequence changes what the left operand loses by
    /// pruning, where `lf` is in the co-region.
    pub open spec fn affected_on_execute(self, pos: Position, lf: usize) -> Set<usize>
        decreases self,
    {
        match pos {
            Position::Epsilon(_) => Set::empty(),
            Position::Left(p) => match self {
                Term::Loop(_, t1) => t1.involved_lifelines(),
                Term::CoReg(_, t1, _) => t1.affected_on_execute(*p, lf),
                Term::Sync(_, t1, _) => t1.affected_on_execute(*p, lf),
                Term::Alt(t1, t2) => t1.involved_lifelines().union(t2.involved_lifelines()),
                _ => Set::empty(),
            },
            Position::Right(p) => match self {
                Term::CoReg(cr, t1, t2) => (if cr.contains(lf) {
                    t1.affected_on_prune(lf)
                } else {
                    Set::empty()
                }).union(t2.affected_on_execute(*p, lf)),
                Term::Sync(_, _, t2) => t2.affected_on_execute(*p, lf),
                Term::Alt(t1, t2) => t1.involved_lifelines().union(t2.involved_lifelines()),
                _ => Set::empty(),
            },
            Position::Both(p1, p2) => match self {
                Term::Sync(_, t1, t2) => t1.affected_on_execute(*p1, lf).union(
                    t2.affected_on_execute(*p2, lf),
                ),
                Term::Alt(t1, t2) => t1.affected_on_execute(*p1, lf).union(
                    t2.affected_on_execute(*p2, lf),
                ),
                _ => Set::empty(),
            },
        }
    }
}

/// The lifelines that lose behaviours when the term is pruned of `lf_id`:
/// see `Term::affected_on_prune`.
pub fn get_affected_on_prune(interaction: &Interaction, lf_id: usize) -> (r: HashSet<usize>)
    ensures
        r@ == interaction@.affected_on_prune(lf_id),
    decreases *interaction,
{
    match interaction {
        Interaction::Empty => HashSet::new(),
        Interaction::Action(_) => HashSet::new(),
        Interaction::CoReg(_, i1, i2) => {
            let s1 = get_affected_on_prune(i1, lf_id);
            let s2 = get_affected_on_prune(i2, lf_id);
            set_union(&s1, &s2)
        },
        Interaction::Sync(_, i1, i2) => {
            let s1 = get_affected_on_prune(i1, lf_id);
            let s2 = get_affected_on_prune(i2, lf_id);
            set_union(&s1, &s2)
        },
        Interaction::Alt(i1, i2) => {
            if i1.avoids(lf_id) && i2.avoids(lf_id) {
                let s1 = get_affected_on_prune(i1, lf_id);
                let s2 = get_affected_on_prune(i2, lf_id);
                set_union(&s1, &s2)
            } else {
                let s1 = i1.involved_lifelines();
                let s2 = i2.involved_lifelines();
                set_union(&s1, &s2)
            }
        },
        Interaction::Loop(_, i1) => {
            if i1.avoids(lf_id) {
                get_affected_on_prune(i1, lf_id)
            } else {
                i1.involved_lifelines()
            }
        },
    }
}

/// The lifelines whose behaviours may change when an action of
/// `targ_act_lf_id` fires at `my_pos`: see `Term::affected_on_execute`.
pub fn get_affected_on_execute(my_int: &Interaction, my_pos: &Position, targ_act_lf_id: usize) -> (r:
    HashSet<usize>)
    requires
        my_int@.has_position(*my_pos),
    ensures
        r@ == my_int@.affected_on_execute(*my_pos, targ_act_lf_id),
    decreases *my_int,
{
    match my_pos {
        Position::Epsilon(_) => HashSet::new(),
        Position::Left(p1) => match my_int {
            Interaction::Loop(_, i1) => i1.involved_lifelines(),
            Interaction::CoReg(_, i1, _) => get_affected_on_execute(i1, p1, targ_act_lf_id),
            Interaction::Sync(_, i1, _) => get_affected_on_execute(i1, p1, targ_act_lf_id),
            Interaction::Alt(i1, i2) => {
                let s1 = i1.involved_lifelines();
                let s2 = i2.involved_lifelines();
                set_union(&s1, &s2)
            },
            _ => HashSet::new(),
        },
        Position::Right(p2) => match my_int {
            Interaction::CoReg(cr, i1, i2) => {
                let on_prune = if ids_contain(cr, targ_act_lf_id) {
                    get_affected_on_prune(i1, targ_act_lf_id)
                } else {
                    HashSet::new()
                };
                let on_execute = get_affected_on_execute(i2, p2, targ_act_lf_id);
                set_union(&on_prune, &on_execute)
            },
            Interaction::Sync(_, _, i2) => get_affected_on_execute(i2, p2, targ_act_lf_id),
            Interaction::Alt(i1, i2) => {
                let s1 = i1.involved_lifelines();
                let s2 = i2.involved_lifelines();
                set_union(&s1, &s2)
            },
            _ => HashSet::new(),
        },
        Position::Both(p1, p2) => match my_int {
            Interaction::Sync(_, i1, i2) => {
                let s1 = get_affected_on_execute(i1, p1, targ_act_lf_id);
                let s2 = get_affected_on_execute(i2, p2, targ_act_lf_id);
                set_union(&s1, &s2)
            },
            Interaction::Alt(i1, i2) => {
                let s1 = get_affected_on_execute(i1, p1, targ_act_lf_id);
                let s2 = get_affected_on_execute(i2, p2, targ_act_lf_id);
                set_union(&s1, &s2)
            },
            _ => HashSet::new(),
        },
    }
}

} // verus!
