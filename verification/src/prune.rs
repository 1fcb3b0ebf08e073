//! Pruning: what is left of a term once some lifelines may no longer act.

use crate::context::{ContextView, GeneralContext};
use crate::ids::copy_ids;
use crate::interaction::{Interaction, Term};
use crate::simplify::{
    alt_simplified, coreg_simplified, sync_simplified, InteractionSyntacticSimplifier,
};
use std::collections::HashSet;
use vstd::prelude::*;

verus! {

impl Term {
    /// The term without the branches that involve a lifeline of `lf_ids`,
    /// wherever another branch is there to take.
    ///
    /// An action stays as it is. Of a choice, the branches that avoid the
    /// lifelines are kept; if the first does not, the second is taken. A
    /// loop whose body avoids the lifelines keeps its pruned body, and any
    /// other loop is iterated zero times.
    pub open spec fn prune(self, lf_ids: Set<usize>, ctx: ContextView) -> Term
        decreases self,
    {
        match self {
            Term::Empty => Term::Empty,
            Term::Action(_) => self,
            Term::CoReg(cr, t1, t2) => coreg_simplified(
                cr,
                t1.prune(lf_ids, ctx),
                t2.prune(lf_ids, ctx),
            ),
            Term::Sync(sync, t1, t2) => sync_simplified(
                sync,
                t1.prune(lf_ids, ctx),
                t2.prune(lf_ids, ctx),
                ctx,
            ),
            Term::Alt(t1, t2) => if t1.avoids_all_of(lf_ids) {
                if t2.avoids_all_of(lf_ids) {
                    alt_simplified(t1.prune(lf_ids, ctx), t2.prune(lf_ids, ctx))
                } else {
                    t1.prune(lf_ids, ctx)
                }
            } else {
                t2.prune(lf_ids, ctx)
            },
            Term::Loop(cr, t1) => if t1.avoids_all_of(lf_ids) && !(t1.prune(lf_ids, ctx) is Empty) {
                Term::Loop(cr, Box::new(t1.prune(lf_ids, ctx)))
            } else {
                Term::Empty
            },
        }
    }
}

/// Pruning keeps a term within the types of the table.
pub proof fn lemma_prune_well_formed(t: Term, lf_ids: Set<usize>, ctx: ContextView)
    requires
        t.well_formed(ctx),
    ensures
        t.prune(lf_ids, ctx).well_formed(ctx),
    decreases t,
{
    match t {
        Term::CoReg(_, t1, t2) => {
            lemma_prune_well_formed(*t1, lf_ids, ctx);
            lemma_prune_well_formed(*t2, lf_ids, ctx);
        },
        Term::Sync(_, t1, t2) => {
            lemma_prune_well_formed(*t1, lf_ids, ctx);
            lemma_prune_well_formed(*t2, lf_ids, ctx);
        },
        Term::Alt(t1, t2) => {
            lemma_prune_well_formed(*t1, lf_ids, ctx);
            lemma_prune_well_formed(*t2, lf_ids, ctx);
        },
        Term::Loop(_, t1) => {
            lemma_prune_well_formed(*t1, lf_ids, ctx);
        },
        _ => {},
    }
}

impl Interaction {
    /// The term without the branches that involve a lifeline of `lf_ids`:
    /// see `Term::prune`.
    pub fn prune(&self, lf_ids: &HashSet<usize>, gen_ctx: &GeneralContext) -> (r: Interaction)
        requires
            self@.well_formed(gen_ctx@),
        ensures
            r@ == self@.prune(lf_ids@, gen_ctx@),
            r@.well_formed(gen_ctx@),
            self@.avoids_all_of(lf_ids@) ==> r@.avoids_all_of(lf_ids@) && !r@.involves_any_of(
                lf_ids@,
            ),
            self@.canonical() ==> r@.canonical(),
            r@.max_nested_loop_depth() <= self@.max_nested_loop_depth(),
        decreases *self,
    {
        proof {
            lemma_prune_well_formed(self@, lf_ids@, gen_ctx@);
            if self@.avoids_all_of(lf_ids@) {
                crate::laws::lemma_prune_avoids(self@, lf_ids@, gen_ctx@);
            }
            gen_ctx.lemma_types_have_messages();
            if self@.canonical() {
                crate::invariants::lemma_prune_canonical(self@, lf_ids@, gen_ctx@);
            }
            crate::laws::lemma_prune_depth(self@, lf_ids@, gen_ctx@);
        }
        match self {
            Interaction::Empty => Interaction::Empty,
            Interaction::Action(_) => self.clone(),
            Interaction::CoReg(cr, i1, i2) => {
                let pruned_i1 = i1.prune(lf_ids, gen_ctx);
                let pruned_i2 = i2.prune(lf_ids, gen_ctx);
                InteractionSyntacticSimplifier::simplify_coreg(copy_ids(cr), pruned_i1, pruned_i2)
            },
            Interaction::Sync(sync, i1, i2) => {
                let pruned_i1 = i1.prune(lf_ids, gen_ctx);
                let pruned_i2 = i2.prune(lf_ids, gen_ctx);
                InteractionSyntacticSimplifier::simplify_sync(
                    sync.clone(),
                    pruned_i1,
                    pruned_i2,
                    gen_ctx,
                )
            },
            Interaction::Alt(i1, i2) => {
                if i1.avoids_all_of(lf_ids) {
                    if i2.avoids_all_of(lf_ids) {
                        let pruned_i1 = i1.prune(lf_ids, gen_ctx);
                        let pruned_i2 = i2.prune(lf_ids, gen_ctx);
                        InteractionSyntacticSimplifier::simplify_alt(pruned_i1, pruned_i2)
                    } else {
                        i1.prune(lf_ids, gen_ctx)
                    }
                } else {
                    i2.prune(lf_ids, gen_ctx)
                }
            },
            Interaction::Loop(lkind, i1) => {
                if i1.avoids_all_of(lf_ids) {
                    let pruned_i1 = i1.prune(lf_ids, gen_ctx);
                    if !pruned_i1.is_empty() {
                        return Interaction::Loop(copy_ids(lkind), Box::new(pruned_i1));
                    }
                }
                Interaction::Empty
            },
        }
    }
}

} // verus!
