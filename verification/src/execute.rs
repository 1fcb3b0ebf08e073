//! Execution: the term that is left once an action has fired.

use crate::action::{BroadcastPrimitive, BroadcastView};
use crate::context::{ContextView, GeneralContext};
use crate::ids::{copy_ids, ids_contain};
use crate::interaction::{Interaction, Term};
use crate::position::Position;
use crate::prune::lemma_prune_well_formed;
use crate::sets::{set_of_vec, set_single};
use crate::simplify::{
    alt_simplified, coreg_simplified, sync_simplified, InteractionSyntacticSimplifier,
};
use crate::trace::TraceAction;
use vstd::prelude::*;

verus! {

impl BroadcastView {
    /// The action can fire at this broadcast: its messages are among those
    /// of the broadcast, and it is the emission by the origin, or a
    /// reception at a target that is still there once the emission is done.
    pub open spec fn executable(self, sub: Option<usize>, act: TraceAction, ctx: ContextView) -> bool {
        &&& act.message.resolve_spec(ctx).subset_of(self.message_type.resolve_spec(ctx))
        &&& match (self.origin, sub) {
            (Some(origin), None) => origin == act.lf_id && act.act_kind is Emission,
            (None, Some(k)) => k < self.targets.len() && act.act_kind is Reception,
            _ => false,
        }
    }

    /// What is left of the broadcast once the action has fired: after the
    /// emission the receptions of the message that was sent, and after a
    /// reception those of the other targets.
    pub open spec fn execute(self, sub: Option<usize>, act: TraceAction) -> Term {
        let targets = match sub {
            Some(k) => self.targets.remove(k as int),
            None => self.targets,
        };
        if targets.len() == 0 {
            Term::Empty
        } else {
            Term::Action(BroadcastView { origin: None, message_type: act.message, targets })
        }
    }
}

/// What follows a loop when an action of lifeline `lf` has fired in its
/// body and left `new_body` of it.
///
/// With nothing left of the body the loop starts over. Else the rest of
/// the body comes first and the loop again after it; and before the two,
/// iterations of the loop in which neither `lf` nor a lifeline of the
/// co-region takes part may still come, if there are any.
pub open spec fn follow_up_loop(
    old_body: Term,
    new_body: Term,
    cr: Seq<usize>,
    lf: usize,
    ctx: ContextView,
) -> Term {
    let orig = Term::Loop(cr, Box::new(old_body));
    if new_body is Empty {
        orig
    } else {
        let pruned = orig.prune(cr.to_set().insert(lf), ctx);
        let right = Term::CoReg(cr, Box::new(new_body), Box::new(orig));
        if pruned is Empty {
            right
        } else {
            Term::CoReg(cr, Box::new(pruned), Box::new(right))
        }
    }
}

impl Term {
    /// The position leads to an action of the term at which `act` can fire.
    pub open spec fn executable(self, pos: Position, act: TraceAction, ctx: ContextView) -> bool
        decreases self,
    {
        match pos {
            Position::Epsilon(sub) => match self {
                Term::Action(bp) => bp.executable(sub, act, ctx),
                _ => false,
            },
            Position::Left(p) => match self {
                Term::Alt(t1, _) => t1.executable(*p, act, ctx),
                Term::Loop(_, t1) => t1.executable(*p, act, ctx),
                Term::CoReg(_, t1, _) => t1.executable(*p, act, ctx),
                Term::Sync(_, t1, _) => t1.executable(*p, act, ctx),
                _ => false,
            },
            Position::Right(p) => match self {
                Term::Alt(_, t2) => t2.executable(*p, act, ctx),
                Term::CoReg(_, _, t2) => t2.executable(*p, act, ctx),
                Term::Sync(_, _, t2) => t2.executable(*p, act, ctx),
                _ => false,
            },
            Position::Both(p1, p2) => match self {
                Term::Alt(t1, t2) => t1.executable(*p1, act, ctx) && t2.executable(*p2, act, ctx),
                Term::Sync(_, t1, t2) => t1.executable(*p1, act, ctx) && t2.executable(
                    *p2,
                    act,
                    ctx,
                ),
                _ => false,
            },
        }
    }

    /// The term that is left once `act` has fired at `pos`.
    ///
    /// A choice is decided for the branch in which the action fires. After
    /// an action in the right operand of a sequence, the left operand can
    /// no longer use the lifeline of the action, unless it is in the
    /// co-region. Every operator is rebuilt by its simplifying constructor.
    pub open spec fn execute(self, pos: Position, act: TraceAction, ctx: ContextView) -> Term
        decreases self,
    {
        match pos {
            Position::Epsilon(sub) => match self {
                Term::Action(bp) => bp.execute(sub, act),
                _ => self,
            },
            Position::Left(p) => match self {
                Term::Alt(t1, _) => t1.execute(*p, act, ctx),
                Term::Loop(cr, t1) => follow_up_loop(
                    *t1,
                    t1.execute(*p, act, ctx),
                    cr,
                    act.lf_id,
                    ctx,
                ),
                Term::CoReg(cr, t1, t2) => coreg_simplified(cr, t1.execute(*p, act, ctx), *t2),
                Term::Sync(sync, t1, t2) => sync_simplified(
                    sync,
                    t1.execute(*p, act, ctx),
                    *t2,
                    ctx,
                ),
                _ => self,
            },
            Position::Right(p) => match self {
                Term::Alt(_, t2) => t2.execute(*p, act, ctx),
                Term::CoReg(cr, t1, t2) => coreg_simplified(
                    cr,
                    if cr.contains(act.lf_id) {
                        *t1
                    } else {
                        t1.prune(set![act.lf_id], ctx)
                    },
                    t2.execute(*p, act, ctx),
                ),
                Term::Sync(sync, t1, t2) => sync_simplified(
                    sync,
                    *t1,
                    t2.execute(*p, act, ctx),
                    ctx,
                ),
                _ => self,
            },
            Position::Both(p1, p2) => match self {
                Term::Alt(t1, t2) => alt_simplified(
                    t1.execute(*p1, act, ctx),
                    t2.execute(*p2, act, ctx),
                ),
                Term::Sync(sync, t1, t2) => sync_simplified(
                    sync,
                    t1.execute(*p1, act, ctx),
                    t2.execute(*p2, act, ctx),
                    ctx,
                ),
                _ => self,
            },
        }
    }
}

/// Execution keeps a term within the types of the table.
pub proof fn lemma_execute_well_formed(t: Term, pos: Position, act: TraceAction, ctx: ContextView)
    requires
        t.well_formed(ctx),
        act.well_formed(ctx),
    ensures
        t.execute(pos, act, ctx).well_formed(ctx),
    decreases t,
{
    match pos {
        Position::Epsilon(sub) => match t {
            Term::Action(bp) => {
                assert(bp.execute(sub, act).well_formed(ctx));
            },
            _ => {},
        },
        Position::Left(p) => match t {
            Term::Alt(t1, _) => {
                lemma_execute_well_formed(*t1, *p, act, ctx);
            },
            Term::Loop(cr, t1) => {
                lemma_execute_well_formed(*t1, *p, act, ctx);
                lemma_prune_well_formed(t, cr.to_set().insert(act.lf_id), ctx);
                let orig = Term::Loop(cr, Box::new(*t1));
                let right = Term::CoReg(cr, Box::new(t1.execute(*p, act, ctx)), Box::new(orig));
                assert(orig.well_formed(ctx));
                assert(right.well_formed(ctx));
            },
            Term::CoReg(_, t1, _) => {
                lemma_execute_well_formed(*t1, *p, act, ctx);
            },
            Term::Sync(_, t1, _) => {
                lemma_execute_well_formed(*t1, *p, act, ctx);
            },
            _ => {},
        },
        Position::Right(p) => match t {
            Term::Alt(_, t2) => {
                lemma_execute_well_formed(*t2, *p, act, ctx);
            },
            Term::CoReg(_, t1, t2) => {
                lemma_execute_well_formed(*t2, *p, act, ctx);
                lemma_prune_well_formed(*t1, set![act.lf_id], ctx);
            },
            Term::Sync(_, _, t2) => {
                lemma_execute_well_formed(*t2, *p, act, ctx);
            },
            _ => {},
        },
        Position::Both(p1, p2) => match t {
            Term::Alt(t1, t2) => {
                lemma_execute_well_formed(*t1, *p1, act, ctx);
                lemma_execute_well_formed(*t2, *p2, act, ctx);
            },
            Term::Sync(_, t1, t2) => {
                lemma_execute_well_formed(*t1, *p1, act, ctx);
                lemma_execute_well_formed(*t2, *p2, act, ctx);
            },
            _ => {},
        },
    }
}

/// What is left of a broadcast once the action has fired: see
/// `BroadcastView::execute`.
pub fn execute_broadcast_primitive(
    bp: &BroadcastPrimitive,
    sub_pos: &Option<usize>,
    target_action: &TraceAction,
    gen_ctx: &GeneralContext,
) -> (r: Interaction)
    requires
        bp@.executable(*sub_pos, *target_action, gen_ctx@),
    ensures
        r@ == bp@.execute(*sub_pos, *target_action),
{
    match sub_pos {
        None => {
            if bp.targets.len() == 0 {
                Interaction::Empty
            } else {
                Interaction::Action(
                    BroadcastPrimitive::new(
                        None,
                        target_action.message.clone(),
                        copy_ids(&bp.targets),
                    ),
                )
            }
        },
        Some(target_idx) => {
            let mut new_targets = copy_ids(&bp.targets);
            new_targets.remove(*target_idx);
            if new_targets.len() == 0 {
                Interaction::Empty
            } else {
                Interaction::Action(
                    BroadcastPrimitive::new(None, target_action.message.clone(), new_targets),
                )
            }
        },
    }
}

/// What follows a loop after an action in its body: see `follow_up_loop`.
pub fn make_follow_up_loop(
    old_i1: &Interaction,
    new_i1: Interaction,
    cr: &Vec<usize>,
    ex_act_lf_id: usize,
    gen_ctx: &GeneralContext,
) -> (r: Interaction)
    requires
        old_i1@.well_formed(gen_ctx@),
        new_i1@.well_formed(gen_ctx@),
    ensures
        r@ == follow_up_loop(old_i1@, new_i1@, cr@, ex_act_lf_id, gen_ctx@),
        r@.well_formed(gen_ctx@),
{
    broadcast use vstd::std_specs::hash::group_hash_axioms;
    let orig_i = Interaction::Loop(copy_ids(cr), Box::new(old_i1.clone()));
    let ghost orig = orig_i@;
    let ghost new_body = new_i1@;
    proof {
        assert(orig == Term::Loop(cr@, Box::new(old_i1@)));
        assert(orig.well_formed(gen_ctx@));
    }
    if new_i1.is_empty() {
        orig_i
    } else {
        let mut lfs_to_prune = set_of_vec(cr);
        lfs_to_prune.insert(ex_act_lf_id);
        let pruned_loop = orig_i.prune(&lfs_to_prune, gen_ctx);
        let new_right_int = Interaction::CoReg(copy_ids(cr), Box::new(new_i1), Box::new(orig_i));
        proof {
            assert(new_right_int@ == Term::CoReg(cr@, Box::new(new_body), Box::new(orig)));
            assert(new_right_int@.well_formed(gen_ctx@));
        }
        if pruned_loop.is_empty() {
            new_right_int
        } else {
            Interaction::CoReg(copy_ids(cr), Box::new(pruned_loop), Box::new(new_right_int))
        }
    }
}

/// The term that is left once the action has fired in the left operand.
pub fn execute_interaction_left(
    my_int: &Interaction,
    sub_p1: &Position,
    target_action: &TraceAction,
    gen_ctx: &GeneralContext,
) -> (r: Interaction)
    requires
        my_int@.well_formed(gen_ctx@),
        target_action.well_formed(gen_ctx@),
        my_int@.executable(Position::Left(Box::new(*sub_p1)), *target_action, gen_ctx@),
    ensures
        r@ == my_int@.execute(Position::Left(Box::new(*sub_p1)), *target_action, gen_ctx@),
        r@.well_formed(gen_ctx@),
    decreases *my_int, 0nat,
{
    match my_int {
        Interaction::Alt(i1, _) => execute_interaction(i1, sub_p1, target_action, gen_ctx),
        Interaction::Loop(cr, i1) => {
            let new_i1 = execute_interaction(i1, sub_p1, target_action, gen_ctx);
            make_follow_up_loop(i1, new_i1, cr, target_action.lf_id, gen_ctx)
        },
        Interaction::CoReg(cr, i1, i2) => {
            let new_i1 = execute_interaction(i1, sub_p1, target_action, gen_ctx);
            InteractionSyntacticSimplifier::simplify_coreg(copy_ids(cr), new_i1, (**i2).clone())
        },
        Interaction::Sync(sync, i1, i2) => {
            let new_i1 = execute_interaction(i1, sub_p1, target_action, gen_ctx);
            InteractionSyntacticSimplifier::simplify_sync(
                sync.clone(),
                new_i1,
                (**i2).clone(),
                gen_ctx,
            )
        },
        _ => Interaction::Empty,
    }
}

/// The term that is left once the action has fired in the right operand.
pub fn execute_interaction_right(
    my_int: &Interaction,
    sub_p2: &Position,
    target_action: &TraceAction,
    gen_ctx: &GeneralContext,
) -> (r: Interaction)
    requires
        my_int@.well_formed(gen_ctx@),
        target_action.well_formed(gen_ctx@),
        my_int@.executable(Position::Right(Box::new(*sub_p2)), *target_action, gen_ctx@),
    ensures
        r@ == my_int@.execute(Position::Right(Box::new(*sub_p2)), *target_action, gen_ctx@),
        r@.well_formed(gen_ctx@),
    decreases *my_int, 0nat,
{
    match my_int {
        Interaction::Alt(_, i2) => execute_interaction(i2, sub_p2, target_action, gen_ctx),
        Interaction::CoReg(cr, i1, i2) => {
            let new_i1 = if ids_contain(cr, target_action.lf_id) {
                (**i1).clone()
            } else {
                let firing = set_single(target_action.lf_id);
                i1.prune(&firing, gen_ctx)
            };
            let new_i2 = execute_interaction(i2, sub_p2, target_action, gen_ctx);
            InteractionSyntacticSimplifier::simplify_coreg(copy_ids(cr), new_i1, new_i2)
        },
        Interaction::Sync(sync, i1, i2) => {
            let new_i2 = execute_interaction(i2, sub_p2, target_action, gen_ctx);
            InteractionSyntacticSimplifier::simplify_sync(
                sync.clone(),
                (**i1).clone(),
                new_i2,
                gen_ctx,
            )
        },
        _ => Interaction::Empty,
    }
}

/// The term that is left once the action has fired in both operands.
pub fn execute_interaction_both(
    my_int: &Interaction,
    sub_p1: &Position,
    sub_p2: &Position,
    target_action: &TraceAction,
    gen_ctx: &GeneralContext,
) -> (r: Interaction)
    requires
        my_int@.well_formed(gen_ctx@),
        target_action.well_formed(gen_ctx@),
        my_int@.executable(
            Position::Both(Box::new(*sub_p1), Box::new(*sub_p2)),
            *target_action,
            gen_ctx@,
        ),
    ensures
        r@ == my_int@.execute(
            Position::Both(Box::new(*sub_p1), Box::new(*sub_p2)),
            *target_action,
            gen_ctx@,
        ),
        r@.well_formed(gen_ctx@),
    decreases *my_int, 0nat,
{
    match my_int {
        Interaction::Alt(i1, i2) => {
            let new_i1 = execute_interaction(i1, sub_p1, target_action, gen_ctx);
            let new_i2 = execute_interaction(i2, sub_p2, target_action, gen_ctx);
            InteractionSyntacticSimplifier::simplify_alt(new_i1, new_i2)
        },
        Interaction::Sync(sync, i1, i2) => {
            let new_i1 = execute_interaction(i1, sub_p1, target_action, gen_ctx);
            let new_i2 = execute_interaction(i2, sub_p2, target_action, gen_ctx);
            InteractionSyntacticSimplifier::simplify_sync(sync.clone(), new_i1, new_i2, gen_ctx)
        },
        _ => Interaction::Empty,
    }
}

/// The term that is left once `target_action` has fired at `my_pos`: see
/// `Term::execute`.
pub fn execute_interaction(
    my_int: &Interaction,
    my_pos: &Position,
    target_action: &TraceAction,
    gen_ctx: &GeneralContext,
) -> (r: Interaction)
    requires
        my_int@.well_formed(gen_ctx@),
        target_action.well_formed(gen_ctx@),
        my_int@.executable(*my_pos, *target_action, gen_ctx@),
    ensures
        r@ == my_int@.execute(*my_pos, *target_action, gen_ctx@),
        r@.well_formed(gen_ctx@),
        r@.max_nested_loop_depth() <= my_int@.max_nested_loop_depth(),
        my_int@.canonical() ==> r@.canonical(),
    decreases *my_int, 1nat,
{
    proof {
        crate::laws::lemma_execute_depth(my_int@, *my_pos, *target_action, gen_ctx@);
        gen_ctx.lemma_types_have_messages();
        if my_int@.canonical() {
            crate::invariants::lemma_execute_canonical(
                my_int@,
                *my_pos,
                *target_action,
                gen_ctx@,
            );
        }
    }
    match my_pos {
        Position::Epsilon(sub_pos) => match my_int {
            Interaction::Action(bp) => execute_broadcast_primitive(
                bp,
                sub_pos,
                target_action,
                gen_ctx,
            ),
            _ => Interaction::Empty,
        },
        Position::Left(p1) => execute_interaction_left(my_int, p1, target_action, gen_ctx),
        Position::Right(p2) => execute_interaction_right(my_int, p2, target_action, gen_ctx),
        Position::Both(p1, p2) => execute_interaction_both(
            my_int,
            p1,
            p2,
            target_action,
            gen_ctx,
        ),
    }
}

} // verus!
