//! What holds of pruning and of execution, whatever the term.

use crate::context::ContextView;
use crate::interaction::Term;
use crate::position::Position;
use crate::simplify::{
    alt_simplified, coreg_simplified, loop_simplified, sync_simplified, synchronizes,
};
use crate::sync::SyncEntry;
use crate::trace::TraceAction;
use vstd::prelude::*;

verus! {

/// A term that avoids some lifelines is pruned to a term in which none of
/// them occurs; the pruned term then avoids them too.
pub proof fn lemma_prune_avoids(t: Term, lf_ids: Set<usize>, ctx: ContextView)
    requires
        t.avoids_all_of(lf_ids),
    ensures
        !t.prune(lf_ids, ctx).involves_any_of(lf_ids),
        t.prune(lf_ids, ctx).avoids_all_of(lf_ids),
    decreases t,
{
    match t {
        Term::Empty => {},
        Term::Action(_) => {},
        Term::CoReg(_, t1, t2) => {
            lemma_prune_avoids(*t1, lf_ids, ctx);
            lemma_prune_avoids(*t2, lf_ids, ctx);
        },
        Term::Sync(_, t1, t2) => {
            lemma_prune_avoids(*t1, lf_ids, ctx);
            lemma_prune_avoids(*t2, lf_ids, ctx);
        },
        Term::Alt(t1, t2) => {
            if t1.avoids_all_of(lf_ids) {
                lemma_prune_avoids(*t1, lf_ids, ctx);
            }
            if t2.avoids_all_of(lf_ids) {
                lemma_prune_avoids(*t2, lf_ids, ctx);
            }
        },
        Term::Loop(_, t1) => {
            if t1.avoids_all_of(lf_ids) {
                lemma_prune_avoids(*t1, lf_ids, ctx);
            }
        },
    }
    crate::lifelines::lemma_uninvolved_avoids(t.prune(lf_ids, ctx), lf_ids);
}

/// Pruning twice by the same lifelines is pruning once.
pub proof fn lemma_prune_idempotent(t: Term, lf_ids: Set<usize>, ctx: ContextView)
    ensures
        t.prune(lf_ids, ctx).prune(lf_ids, ctx) == t.prune(lf_ids, ctx),
    decreases t,
{
    match t {
        Term::Empty => {},
        Term::Action(_) => {},
        Term::CoReg(cr, t1, t2) => {
            lemma_prune_idempotent(*t1, lf_ids, ctx);
            lemma_prune_idempotent(*t2, lf_ids, ctx);
        },
        Term::Sync(sync, t1, t2) => {
            lemma_prune_idempotent(*t1, lf_ids, ctx);
            lemma_prune_idempotent(*t2, lf_ids, ctx);
        },
        Term::Alt(t1, t2) => {
            lemma_prune_idempotent(*t1, lf_ids, ctx);
            lemma_prune_idempotent(*t2, lf_ids, ctx);
            if t1.avoids_all_of(lf_ids) {
                lemma_prune_avoids(*t1, lf_ids, ctx);
            }
            if t2.avoids_all_of(lf_ids) {
                lemma_prune_avoids(*t2, lf_ids, ctx);
            }
        },
        Term::Loop(_, t1) => {
            lemma_prune_idempotent(*t1, lf_ids, ctx);
            if t1.avoids_all_of(lf_ids) {
                lemma_prune_avoids(*t1, lf_ids, ctx);
            }
        },
    }
}

/// Pruning nests loops no deeper than they were.
pub proof fn lemma_prune_depth(t: Term, lf_ids: Set<usize>, ctx: ContextView)
    ensures
        t.prune(lf_ids, ctx).max_nested_loop_depth() <= t.max_nested_loop_depth(),
    decreases t,
{
    match t {
        Term::CoReg(_, t1, t2) => {
            lemma_prune_depth(*t1, lf_ids, ctx);
            lemma_prune_depth(*t2, lf_ids, ctx);
        },
        Term::Sync(_, t1, t2) => {
            lemma_prune_depth(*t1, lf_ids, ctx);
            lemma_prune_depth(*t2, lf_ids, ctx);
        },
        Term::Alt(t1, t2) => {
            lemma_prune_depth(*t1, lf_ids, ctx);
            lemma_prune_depth(*t2, lf_ids, ctx);
        },
        Term::Loop(_, t1) => {
            lemma_prune_depth(*t1, lf_ids, ctx);
        },
        _ => {},
    }
}

/// Execution nests loops no deeper than they were.
pub proof fn lemma_execute_depth(t: Term, pos: Position, act: TraceAction, ctx: ContextView)
    ensures
        t.execute(pos, act, ctx).max_nested_loop_depth() <= t.max_nested_loop_depth(),
    decreases t,
{
    match pos {
        Position::Epsilon(_) => {},
        Position::Left(p) => match t {
            Term::Alt(t1, _) => {
                lemma_execute_depth(*t1, *p, act, ctx);
            },
            Term::Loop(cr, t1) => {
                lemma_execute_depth(*t1, *p, act, ctx);
                lemma_prune_depth(t, cr.to_set().insert(act.lf_id), ctx);
                let orig = Term::Loop(cr, Box::new(*t1));
                let new_body = t1.execute(*p, act, ctx);
                let right = Term::CoReg(cr, Box::new(new_body), Box::new(orig));
                assert(orig.max_nested_loop_depth() == t.max_nested_loop_depth());
                assert(right.max_nested_loop_depth() <= t.max_nested_loop_depth());
            },
            Term::CoReg(_, t1, _) => {
                lemma_execute_depth(*t1, *p, act, ctx);
            },
            Term::Sync(_, t1, _) => {
                lemma_execute_depth(*t1, *p, act, ctx);
            },
            _ => {},
        },
        Position::Right(p) => match t {
            Term::Alt(_, t2) => {
                lemma_execute_depth(*t2, *p, act, ctx);
            },
            Term::CoReg(_, t1, t2) => {
                lemma_execute_depth(*t2, *p, act, ctx);
                lemma_prune_depth(*t1, set![act.lf_id], ctx);
            },
            Term::Sync(_, _, t2) => {
                lemma_execute_depth(*t2, *p, act, ctx);
            },
            _ => {},
        },
        Position::Both(p1, p2) => match t {
            Term::Alt(t1, t2) => {
                lemma_execute_depth(*t1, *p1, act, ctx);
                lemma_execute_depth(*t2, *p2, act, ctx);
            },
            Term::Sync(_, t1, t2) => {
                lemma_execute_depth(*t1, *p1, act, ctx);
                lemma_execute_depth(*t2, *p2, act, ctx);
            },
            _ => {},
        },
    }
}

/// After an element of its frontier has fired, a term nests loops no
/// deeper than before plus the loops that the element entered.
pub proof fn lemma_loop_depth_monotone(t: Term, ctx: ContextView, i: int)
    requires
        0 <= i < t.global_frontier(ctx, None).len(),
    ensures
        ({
            let e = t.global_frontier(ctx, None)[i];
            t.execute(e.position, e.target_action, ctx).max_nested_loop_depth()
                <= t.max_nested_loop_depth() + e.max_loop_depth
        }),
{
    let e = t.global_frontier(ctx, None)[i];
    lemma_execute_depth(t, e.position, e.target_action, ctx);
}

/// An action that fires in the right operand of a sequence leaves the left
/// operand as it is if its lifeline is in the co-region, and else prunes
/// the left operand of this lifeline.
pub proof fn lemma_coreg_commutation(
    cr: Seq<usize>,
    t1: Term,
    t2: Term,
    p: Position,
    act: TraceAction,
    ctx: ContextView,
)
    ensures
        ({
            let whole = Term::CoReg(cr, Box::new(t1), Box::new(t2));
            let left = if cr.contains(act.lf_id) {
                t1
            } else {
                t1.prune(set![act.lf_id], ctx)
            };
            whole.execute(Position::Right(Box::new(p)), act, ctx) == coreg_simplified(
                cr,
                left,
                t2.execute(p, act, ctx),
            )
        }),
{
}


/// The empty term is a unit of the simplifying constructors: of a sequence
/// on both sides, of a synchronisation on both sides where the map expects
/// no action of the other operand, and of a choice beside a loop.
pub proof fn lemma_empty_is_unit(
    cr: Seq<usize>,
    sync: Seq<SyncEntry>,
    t: Term,
    body: Term,
    ctx: ContextView,
)
    ensures
        coreg_simplified(cr, Term::Empty, t) == t,
        coreg_simplified(cr, t, Term::Empty) == t,
        !synchronizes(sync, Term::Empty, t, ctx) ==> sync_simplified(sync, Term::Empty, t, ctx)
            == t,
        !synchronizes(sync, t, Term::Empty, ctx) ==> sync_simplified(sync, t, Term::Empty, ctx)
            == t,
        alt_simplified(Term::Empty, Term::Loop(cr, Box::new(body))) == Term::Loop(
            cr,
            Box::new(body),
        ),
        alt_simplified(Term::Loop(cr, Box::new(body)), Term::Empty) == Term::Loop(
            cr,
            Box::new(body),
        ),
        loop_simplified(cr, Term::Empty) == Term::Empty,
{
}

} // verus!
