//! Elimination: the term as it looks once some lifelines are taken out of
//! every action.

use crate::action::{BroadcastPrimitive, BroadcastView};
use crate::context::{ContextView, GeneralContext};
use crate::interaction::{Interaction, Term};
use crate::simplify::{
    alt_simplified, coreg_simplified, loop_simplified, sync_simplified,
    InteractionSyntacticSimplifier,
};
use std::collections::HashSet;
use vstd::prelude::*;

verus! {

/// The identifiers of `ids` that are not in `gone`, in their order.
pub open spec fn kept(ids: Seq<usize>, gone: Set<usize>) -> Seq<usize>
    decreases ids.len(),
{
    if ids.len() == 0 {
        ids
    } else if gone.contains(ids.last()) {
        kept(ids.drop_last(), gone)
    } else {
        kept(ids.drop_last(), gone).push(ids.last())
    }
}

impl BroadcastView {
    /// The broadcast without the lifelines of `gone`; nothing if no
    /// lifeline is left.
    pub open spec fn eliminate_lifelines(self, gone: Set<usize>) -> Term {
        let origin = match self.origin {
            Some(lf) => if gone.contains(lf) {
                None
            } else {
                Some(lf)
            },
            None => None,
        };
        let targets = kept(self.targets, gone);
        if origin is None && targets.len() == 0 {
            Term::Empty
        } else {
            Term::Action(BroadcastView { origin, message_type: self.message_type, targets })
        }
    }
}

impl Term {
    /// The term without the lifelines of `gone`: they leave every action,
    /// and the operators are rebuilt by the simplifying constructors.
    pub open spec fn eliminate_lifelines(self, gone: Set<usize>, ctx: ContextView) -> Term
        decreases self,
    {
        match self {
            Term::Empty => Term::Empty,
            Term::Action(bp) => bp.eliminate_lifelines(gone),
            Term::Sync(sync, t1, t2) => sync_simplified(
                sync,
                t1.eliminate_lifelines(gone, ctx),
                t2.eliminate_lifelines(gone, ctx),
                ctx,
            ),
            Term::CoReg(cr, t1, t2) => coreg_simplified(
                cr,
                t1.eliminate_lifelines(gone, ctx),
                t2.eliminate_lifelines(gone, ctx),
            ),
            Term::Alt(t1, t2) => alt_simplified(
                t1.eliminate_lifelines(gone, ctx),
                t2.eliminate_lifelines(gone, ctx),
            ),
            Term::Loop(cr, t1) => loop_simplified(cr, t1.eliminate_lifelines(gone, ctx)),
        }
    }
}

/// Elimination keeps a term within the types of the table.
pub proof fn lemma_eliminate_well_formed(t: Term, gone: Set<usize>, ctx: ContextView)
    requires
        t.well_formed(ctx),
    ensures
        t.eliminate_lifelines(gone, ctx).well_formed(ctx),
    decreases t,
{
    match t {
        Term::CoReg(_, t1, t2) => {
            lemma_eliminate_well_formed(*t1, gone, ctx);
            lemma_eliminate_well_formed(*t2, gone, ctx);
        },
        Term::Sync(_, t1, t2) => {
            lemma_eliminate_well_formed(*t1, gone, ctx);
            lemma_eliminate_well_formed(*t2, gone, ctx);
        },
        Term::Alt(t1, t2) => {
            lemma_eliminate_well_formed(*t1, gone, ctx);
            lemma_eliminate_well_formed(*t2, gone, ctx);
        },
        Term::Loop(_, t1) => {
            lemma_eliminate_well_formed(*t1, gone, ctx);
        },
        _ => {},
    }
}

impl BroadcastPrimitive {
    /// The broadcast without the lifelines of `lfs_to_eliminate`.
    pub fn eliminate_lifelines(self, lfs_to_eliminate: &HashSet<usize>) -> (r: Interaction)
        ensures
            r@ == self@.eliminate_lifelines(lfs_to_eliminate@),
    {
        broadcast use vstd::std_specs::hash::group_hash_axioms;
        let origin = match self.origin_on_emission {
            None => None,
            Some(lf) => {
                if lfs_to_eliminate.contains(&lf) {
                    None
                } else {
                    Some(lf)
                }
            },
        };
        let mut new_targs: Vec<usize> = Vec::new();
        let mut i: usize = 0;
        proof {
            assert(self.targets@.take(0) =~= Seq::<usize>::empty());
        }
        while i < self.targets.len()
            invariant
                i <= self.targets.len(),
                new_targs@ == kept(self.targets@.take(i as int), lfs_to_eliminate@),
            decreases self.targets.len() - i,
        {
            proof {
                assert(self.targets@.take(i + 1).drop_last() =~= self.targets@.take(i as int));
                assert(self.targets@.take(i + 1).last() == self.targets@[i as int]);
            }
            let lf = self.targets[i];
            if !lfs_to_eliminate.contains(&lf) {
                new_targs.push(lf);
            }
            i += 1;
        }
        proof {
            assert(self.targets@.take(self.targets.len() as int) =~= self.targets@);
        }
        if origin.is_none() && new_targs.len() == 0 {
            Interaction::Empty
        } else {
            Interaction::Action(BroadcastPrimitive::new(origin, self.message_type, new_targs))
        }
    }
}

impl Interaction {
    /// The term without the lifelines of `lfs_to_eliminate`: see
    /// `Term::eliminate_lifelines`.
    pub fn eliminate_lifelines(
        self,
        lfs_to_eliminate: &HashSet<usize>,
        gen_ctx: &GeneralContext,
    ) -> (r: Interaction)
        requires
            self@.well_formed(gen_ctx@),
        ensures
            r@ == self@.eliminate_lifelines(lfs_to_eliminate@, gen_ctx@),
            r@.well_formed(gen_ctx@),
            self@.canonical() ==> r@.canonical(),
        decreases self,
    {
        proof {
            lemma_eliminate_well_formed(self@, lfs_to_eliminate@, gen_ctx@);
            gen_ctx.lemma_types_have_messages();
            if self@.canonical() {
                crate::invariants::lemma_eliminate_canonical(self@, lfs_to_eliminate@, gen_ctx@);
            }
        }
        match self {
            Interaction::Empty => Interaction::Empty,
            Interaction::Action(bp) => bp.eliminate_lifelines(lfs_to_eliminate),
            Interaction::Sync(sync, i1, i2) => {
                let new_i1 = (*i1).eliminate_lifelines(lfs_to_eliminate, gen_ctx);
                let new_i2 = (*i2).eliminate_lifelines(lfs_to_eliminate, gen_ctx);
                InteractionSyntacticSimplifier::simplify_sync(sync, new_i1, new_i2, gen_ctx)
            },
            Interaction::CoReg(cr, i1, i2) => {
                let new_i1 = (*i1).eliminate_lifelines(lfs_to_eliminate, gen_ctx);
                let new_i2 = (*i2).eliminate_lifelines(lfs_to_eliminate, gen_ctx);
                InteractionSyntacticSimplifier::simplify_coreg(cr, new_i1, new_i2)
            },
            Interaction::Alt(i1, i2) => {
                let new_i1 = (*i1).eliminate_lifelines(lfs_to_eliminate, gen_ctx);
                let new_i2 = (*i2).eliminate_lifelines(lfs_to_eliminate, gen_ctx);
                InteractionSyntacticSimplifier::simplify_alt(new_i1, new_i2)
            },
            Interaction::Loop(cr, i1) => {
                let new_i1 = (*i1).eliminate_lifelines(lfs_to_eliminate, gen_ctx);
                InteractionSyntacticSimplifier::simplify_loop(cr, new_i1)
            },
        }
    }
}

} // verus!
