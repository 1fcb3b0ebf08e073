//! What a term-like value has to offer to be pruned of lifelines.

use crate::context::{ContextView, GeneralContext};
use crate::interaction::Interaction;
use crate::trace::TraceAction;
use std::collections::HashSet;
use vstd::prelude::*;

verus! {

/// A value that can be pruned of lifelines.
pub trait LifelinePrunable: Sized {
    /// The value has a behaviour in which no lifeline of `lf_ids` takes
    /// part.
    spec fn can_avoid(&self, lf_ids: Set<usize>) -> bool;

    /// The value can be pruned in this table.
    spec fn prunable_in(&self, ctx: ContextView) -> bool;

    /// `pruned` is the value without the branches that involve a lifeline
    /// of `lf_ids`.
    spec fn pruned_to(&self, lf_ids: Set<usize>, ctx: ContextView, pruned: &Self) -> bool;

    fn avoids_all_of(&self, lf_ids: &HashSet<usize>) -> (r: bool)
        ensures
            r == self.can_avoid(lf_ids@),
    ;

    fn avoids(&self, lf_id: usize) -> (r: bool)
        ensures
            r == self.can_avoid(set![lf_id]),
    ;

    fn get_avoidance_map(&self, gen_ctx: &GeneralContext) -> (r: Vec<bool>)
        ensures
            r@.len() == gen_ctx@.lf_num(),
            forall|lf: int| 0 <= lf < r@.len() ==> r@[lf] == self.can_avoid(set![lf as usize]),
    ;

    fn prune(&self, lf_ids: &HashSet<usize>, gen_ctx: &GeneralContext) -> (r: Self)
        requires
            self.prunable_in(gen_ctx@),
        ensures
            self.pruned_to(lf_ids@, gen_ctx@, &r),
            r.prunable_in(gen_ctx@),
    ;
}

impl LifelinePrunable for Interaction {
    open spec fn can_avoid(&self, lf_ids: Set<usize>) -> bool {
        self@.avoids_all_of(lf_ids)
    }

    open spec fn prunable_in(&self, ctx: ContextView) -> bool {
        self@.well_formed(ctx)
    }

    open spec fn pruned_to(&self, lf_ids: Set<usize>, ctx: ContextView, pruned: &Self) -> bool {
        pruned@ == self@.prune(lf_ids, ctx)
    }

    fn avoids_all_of(&self, lf_ids: &HashSet<usize>) -> (r: bool) {
        Interaction::avoids_all_of(self, lf_ids)
    }

    fn avoids(&self, lf_id: usize) -> (r: bool) {
        Interaction::avoids(self, lf_id)
    }

    fn get_avoidance_map(&self, gen_ctx: &GeneralContext) -> (r: Vec<bool>) {
        Interaction::get_avoidance_map(self, gen_ctx)
    }

    fn prune(&self, lf_ids: &HashSet<usize>, gen_ctx: &GeneralContext) -> (r: Self) {
        Interaction::prune(self, lf_ids, gen_ctx)
    }
}

/// A value that stands for a set of actions.
pub trait InteractionInterpretableAsTraceActions {
    /// The actions that occur in the value.
    spec fn actions(&self) -> Set<TraceAction>;

    /// The number of atomic actions of the value, counted as the flags say.
    spec fn actions_number(&self, max_of_alt: bool, count_in_loops: bool) -> nat;

    /// Every action that occurs in the value, each once.
    fn get_all_trace_actions(&self) -> (r: Vec<TraceAction>)
        ensures
            r@.to_set() == self.actions(),
            r@.no_duplicates(),
    ;

    /// The number of atomic actions of the value.
    fn get_atomic_actions_number(&self, get_max_instead_of_sum: bool, count_in_loops: bool) -> (r:
        usize)
        requires
            self.actions_number(get_max_instead_of_sum, count_in_loops) <= usize::MAX,
        ensures
            r == self.actions_number(get_max_instead_of_sum, count_in_loops),
    ;
}

impl InteractionInterpretableAsTraceActions for Interaction {
    open spec fn actions(&self) -> Set<TraceAction> {
        self@.trace_actions()
    }

    open spec fn actions_number(&self, max_of_alt: bool, count_in_loops: bool) -> nat {
        self@.atomic_actions_number(max_of_alt, count_in_loops)
    }

    fn get_all_trace_actions(&self) -> (r: Vec<TraceAction>) {
        Interaction::get_all_trace_actions(self)
    }

    fn get_atomic_actions_number(&self, get_max_instead_of_sum: bool, count_in_loops: bool) -> (r:
        usize) {
        Interaction::get_atomic_actions_number(self, get_max_instead_of_sum, count_in_loops)
    }
}

} // verus!
