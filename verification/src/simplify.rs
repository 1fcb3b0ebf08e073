//! The constructors that keep terms small: each builds a term that behaves
//! as the plain operator would, without the operands that add nothing.

use crate::actions::lemma_trace_actions_well_formed;
use crate::context::{ContextView, GeneralContext};
use crate::ids::{all_ids, first_ids, ids_contain, included};
use crate::interaction::{Interaction, Term};
use crate::sets::set_disjoint;
use crate::sync::{entries_well_formed, lemma_lookup_well_formed, lookup, SyncEntry, SyncMap};
use crate::trace::TraceAction;
use vstd::prelude::*;

verus! {

/// The map expects the action: it has an entry under the action's lifeline
/// and kind, and the entry's messages meet those of the action.
pub open spec fn expected_by(sync: Seq<SyncEntry>, a: TraceAction, ctx: ContextView) -> bool {
    match lookup(sync, a.lf_id, a.act_kind) {
        Some(mt) => !mt.resolve_spec(ctx).disjoint(a.message.resolve_spec(ctx)),
        None => false,
    }
}

/// Some action of one of the two terms is expected by the map.
pub open spec fn synchronizes(sync: Seq<SyncEntry>, t1: Term, t2: Term, ctx: ContextView) -> bool {
    exists|a: TraceAction|
        (t1.trace_actions().contains(a) || t2.trace_actions().contains(a)) && #[trigger] expected_by(
            sync,
            a,
            ctx,
        )
}

/// A loop around `t`: nothing for an empty body, and one loop where two
/// are nested and the co-region of one lies within that of the other; the
/// smaller co-region is kept.
pub open spec fn loop_simplified(cr: Seq<usize>, t: Term) -> Term {
    match t {
        Term::Empty => Term::Empty,
        Term::Loop(cr2, body) => if included(cr, cr2) {
            Term::Loop(cr, body)
        } else if included(cr2, cr) {
            Term::Loop(cr2, body)
        } else {
            Term::Loop(cr, Box::new(Term::Loop(cr2, body)))
        },
        _ => Term::Loop(cr, Box::new(t)),
    }
}

/// A choice between `t1` and `t2`: nothing for two empty branches, and the
/// loop alone where the other branch is empty.
pub open spec fn alt_simplified(t1: Term, t2: Term) -> Term {
    if t1 is Empty && t2 is Empty {
        Term::Empty
    } else if t1 is Empty && t2 is Loop {
        t2
    } else if t1 is Loop && t2 is Empty {
        t1
    } else {
        Term::Alt(Box::new(t1), Box::new(t2))
    }
}

/// `t1` then `t2`, without an empty operand.
pub open spec fn coreg_simplified(cr: Seq<usize>, t1: Term, t2: Term) -> Term {
    if t1 is Empty {
        t2
    } else if t2 is Empty {
        t1
    } else {
        Term::CoReg(cr, Box::new(t1), Box::new(t2))
    }
}

/// `t1` beside `t2`: a synchronisation where the map expects one of their
/// actions; else the operand that is not empty, or the two in parallel.
pub open spec fn sync_simplified(sync: Seq<SyncEntry>, t1: Term, t2: Term, ctx: ContextView) -> Term {
    if synchronizes(sync, t1, t2, ctx) {
        Term::Sync(sync, Box::new(t1), Box::new(t2))
    } else if t1 is Empty {
        t2
    } else if t2 is Empty {
        t1
    } else {
        Term::CoReg(all_ids(ctx.lf_num()), Box::new(t1), Box::new(t2))
    }
}

/// The simplifying constructors.
pub struct InteractionSyntacticSimplifier {}

fn expects_one_of(sync: &SyncMap, acts: &Vec<TraceAction>, gen_ctx: &GeneralContext) -> (r: bool)
    requires
        entries_well_formed(sync@, gen_ctx@),
        forall|i: int| 0 <= i < acts@.len() ==> (#[trigger] acts@[i]).well_formed(gen_ctx@),
    ensures
        r == exists|i: int| 0 <= i < acts@.len() && expected_by(sync@, #[trigger] acts@[i], gen_ctx@),
{
    let mut i: usize = 0;
    while i < acts.len()
        invariant
            i <= acts.len(),
            entries_well_formed(sync@, gen_ctx@),
            forall|j: int| 0 <= j < acts@.len() ==> (#[trigger] acts@[j]).well_formed(gen_ctx@),
            forall|j: int| 0 <= j < i ==> !expected_by(sync@, #[trigger] acts@[j], gen_ctx@),
        decreases acts.len() - i,
    {
        let act = &acts[i];
        if let Some(mt) = sync.get(act.lf_id, act.act_kind) {
            proof {
                lemma_lookup_well_formed(sync@, act.lf_id, act.act_kind, gen_ctx@);
            }
            let expected = mt.resolve(gen_ctx);
            let shown = act.message.resolve(gen_ctx);
            if !set_disjoint(&expected, &shown) {
                proof {
                    assert(expected_by(sync@, acts@[i as int], gen_ctx@));
                }
                return true;
            }
        }
        i += 1;
    }
    false
}

impl InteractionSyntacticSimplifier {
    /// Whether every lifeline of `cr1` occurs in `cr2`.
    pub fn cr_inclusion(cr1: &Vec<usize>, cr2: &Vec<usize>) -> (r: bool)
        ensures
            r == included(cr1@, cr2@),
    {
        let mut i: usize = 0;
        while i < cr1.len()
            invariant
                i <= cr1.len(),
                forall|j: int| 0 <= j < i ==> cr2@.contains(#[trigger] cr1@[j]),
            decreases cr1.len() - i,
        {
            if !ids_contain(cr2, cr1[i]) {
                return false;
            }
            i += 1;
        }
        true
    }

    /// A loop around `i1`: see `loop_simplified`.
    pub fn simplify_loop(cr1: Vec<usize>, i1: Interaction) -> (r: Interaction)
        ensures
            r@ == loop_simplified(cr1@, i1@),
    {
        match i1 {
            Interaction::Empty => Interaction::Empty,
            Interaction::Loop(cr2, i11) => {
                if Self::cr_inclusion(&cr1, &cr2) {
                    Interaction::Loop(cr1, i11)
                } else if Self::cr_inclusion(&cr2, &cr1) {
                    Interaction::Loop(cr2, i11)
                } else {
                    Interaction::Loop(cr1, Box::new(Interaction::Loop(cr2, i11)))
                }
            },
            x => Interaction::Loop(cr1, Box::new(x)),
        }
    }

    /// A choice between `i1` and `i2`: see `alt_simplified`.
    pub fn simplify_alt(i1: Interaction, i2: Interaction) -> (r: Interaction)
        ensures
            r@ == alt_simplified(i1@, i2@),
    {
        match i1 {
            Interaction::Empty => match i2 {
                Interaction::Empty => Interaction::Empty,
                Interaction::Loop(cr, i21) => Interaction::Loop(cr, i21),
                pi2 => Interaction::Alt(Box::new(Interaction::Empty), Box::new(pi2)),
            },
            Interaction::Loop(cr, i11) => match i2 {
                Interaction::Empty => Interaction::Loop(cr, i11),
                pi2 => Interaction::Alt(Box::new(Interaction::Loop(cr, i11)), Box::new(pi2)),
            },
            pi1 => Interaction::Alt(Box::new(pi1), Box::new(i2)),
        }
    }

    /// `i1` then `i2`: see `coreg_simplified`.
    pub fn simplify_coreg(cr: Vec<usize>, i1: Interaction, i2: Interaction) -> (r: Interaction)
        ensures
            r@ == coreg_simplified(cr@, i1@, i2@),
    {
        if i1.is_empty() {
            i2
        } else if i2.is_empty() {
            i1
        } else {
            Interaction::CoReg(cr, Box::new(i1), Box::new(i2))
        }
    }

    /// `i1` beside `i2`: see `sync_simplified`.
    pub fn simplify_sync(
        sync: SyncMap,
        i1: Interaction,
        i2: Interaction,
        gen_ctx: &GeneralContext,
    ) -> (r: Interaction)
        requires
            entries_well_formed(sync@, gen_ctx@),
            i1@.well_formed(gen_ctx@),
            i2@.well_formed(gen_ctx@),
        ensures
            r@ == sync_simplified(sync@, i1@, i2@, gen_ctx@),
            r@.well_formed(gen_ctx@),
    {
        let acts1 = i1.get_all_trace_actions();
        let acts2 = i2.get_all_trace_actions();
        proof {
            assert forall|i: int| 0 <= i < acts1@.len() implies (#[trigger] acts1@[i]).well_formed(
                gen_ctx@,
            ) by {
                assert(acts1@.contains(acts1@[i]));
                assert(acts1@.to_set().contains(acts1@[i]));
                lemma_trace_actions_well_formed(i1@, gen_ctx@, acts1@[i]);
            }
            assert forall|i: int| 0 <= i < acts2@.len() implies (#[trigger] acts2@[i]).well_formed(
                gen_ctx@,
            ) by {
                assert(acts2@.contains(acts2@[i]));
                assert(acts2@.to_set().contains(acts2@[i]));
                lemma_trace_actions_well_formed(i2@, gen_ctx@, acts2@[i]);
            }
        }
        let has_synchronization_actions = expects_one_of(&sync, &acts1, gen_ctx) || expects_one_of(
            &sync,
            &acts2,
            gen_ctx,
        );
        proof {
            if has_synchronization_actions {
                let acts = if exists|i: int|
                    0 <= i < acts1@.len() && expected_by(sync@, #[trigger] acts1@[i], gen_ctx@) {
                    acts1@
                } else {
                    acts2@
                };
                let i = choose|i: int|
                    0 <= i < acts.len() && expected_by(sync@, #[trigger] acts[i], gen_ctx@);
                assert(acts.contains(acts[i]));
                assert(acts.to_set().contains(acts[i]));
                assert(synchronizes(sync@, i1@, i2@, gen_ctx@));
            } else {
                if synchronizes(sync@, i1@, i2@, gen_ctx@) {
                    let a = choose|a: TraceAction|
                        (i1@.trace_actions().contains(a) || i2@.trace_actions().contains(a))
                            && #[trigger] expected_by(sync@, a, gen_ctx@);
                    if i1@.trace_actions().contains(a) {
                        assert(acts1@.to_set().contains(a));
                        let i = choose|i: int| 0 <= i < acts1@.len() && acts1@[i] == a;
                        assert(expected_by(sync@, acts1@[i], gen_ctx@));
                    } else {
                        assert(acts2@.to_set().contains(a));
                        let i = choose|i: int| 0 <= i < acts2@.len() && acts2@[i] == a;
                        assert(expected_by(sync@, acts2@[i], gen_ctx@));
                    }
                }
            }
        }
        if has_synchronization_actions {
            Interaction::Sync(sync, Box::new(i1), Box::new(i2))
        } else if i1.is_empty() {
            i2
        } else if i2.is_empty() {
            i1
        } else {
            let all_lfs = first_ids(gen_ctx.get_lf_num());
            Interaction::CoReg(all_lfs, Box::new(i1), Box::new(i2))
        }
    }
}

} // verus!
