//! What holds of the frontier: which elements a choice pairs, what a
//! synchronisation keeps of an action, and that the elements can fire.

use crate::context::ContextView;
use crate::frontier::{
    all_left, alt_pairs, can_meet, commuting_right, frontier_well_formed, has_match,
    lemma_frontier_well_formed, lemma_sync_split_wf, lemma_wf_drop_last, matched_against,
    matches_of,
    meetings_with, met, narrowed, paired, pairs_with, rendezvous, shared, shifted, shifted_left,
    shifted_right, sync_candidates, sync_passing, unmatched, FrontierElement,
};
use crate::interaction::Term;
use crate::message::MessageTypeExpression;
use crate::message_laws::lemma_simplify_keeps_resolution;
use crate::position::Position;
use crate::sync::{entries_well_formed, lemma_lookup_well_formed, lookup, SyncEntry};
use crate::trace::TraceAction;
use vstd::prelude::*;

verus! {

// ---------------------------------------------------------------------
// The pairs of a choice
// ---------------------------------------------------------------------
/// `x` pairs `e1` with an element of `f2` that shows the same action.
pub open spec fn pairs_one_of(x: FrontierElement, e1: FrontierElement, f2: Seq<FrontierElement>) -> bool {
    exists|j: int|
        0 <= j < f2.len() && (#[trigger] f2[j]).target_action == e1.target_action && x == paired(
            e1,
            f2[j],
        )
}

/// `x` pairs an element of `f1` with an element of `f2` that shows the
/// same action.
pub open spec fn is_pair_of(x: FrontierElement, f1: Seq<FrontierElement>, f2: Seq<FrontierElement>) -> bool {
    exists|i: int, j: int|
        0 <= i < f1.len() && 0 <= j < f2.len() && (#[trigger] f1[i]).target_action == (
        #[trigger] f2[j]).target_action && x == paired(f1[i], f2[j])
}

/// `x` is an element of `f` that `other` does not show, shifted.
pub open spec fn is_unmatched_of(
    x: FrontierElement,
    f: Seq<FrontierElement>,
    other: Seq<FrontierElement>,
    left: bool,
) -> bool {
    exists|i: int| 0 <= i < f.len() && !has_match(#[trigger] f[i], other) && x == shifted(f[i], left)
}

pub proof fn lemma_pairs_with_members(e1: FrontierElement, f2: Seq<FrontierElement>)
    ensures
        forall|j: int|
            0 <= j < f2.len() && (#[trigger] f2[j]).target_action == e1.target_action
                ==> pairs_with(e1, f2).contains(paired(e1, f2[j])),
        forall|k: int|
            0 <= k < pairs_with(e1, f2).len() ==> pairs_one_of(
                #[trigger] pairs_with(e1, f2)[k],
                e1,
                f2,
            ),
    decreases f2.len(),
{
    if f2.len() > 0 {
        let front = f2.drop_last();
        lemma_pairs_with_members(e1, front);
        let p = pairs_with(e1, f2);
        let pf = pairs_with(e1, front);
        assert forall|j: int|
            0 <= j < f2.len() && (#[trigger] f2[j]).target_action
                == e1.target_action implies p.contains(paired(e1, f2[j])) by {
            if j < front.len() {
                assert(front[j] == f2[j]);
                assert(pf.contains(paired(e1, front[j])));
                let k = choose|k: int| 0 <= k < pf.len() && pf[k] == paired(e1, front[j]);
                assert(p[k] == pf[k]);
            } else {
                assert(f2[j] == f2.last());
                assert(p[p.len() - 1] == paired(e1, f2.last()));
            }
        }
        assert forall|k: int| 0 <= k < p.len() implies pairs_one_of(#[trigger] p[k], e1, f2) by {
            if k < pf.len() {
                assert(p[k] == pf[k]);
                assert(pairs_one_of(pf[k], e1, front));
                let j = choose|j: int|
                    0 <= j < front.len() && (#[trigger] front[j]).target_action
                        == e1.target_action && pf[k] == paired(e1, front[j]);
                assert(f2[j] == front[j]);
            } else {
                assert(f2[f2.len() - 1] == f2.last());
            }
        }
    }
}

pub proof fn lemma_alt_pairs_members(f1: Seq<FrontierElement>, f2: Seq<FrontierElement>)
    ensures
        forall|i: int, j: int|
            0 <= i < f1.len() && 0 <= j < f2.len() && (#[trigger] f1[i]).target_action == (
            #[trigger] f2[j]).target_action ==> alt_pairs(f1, f2).contains(paired(f1[i], f2[j])),
        forall|k: int|
            0 <= k < alt_pairs(f1, f2).len() ==> is_pair_of(#[trigger] alt_pairs(f1, f2)[k], f1, f2),
    decreases f1.len(),
{
    if f1.len() > 0 {
        let front = f1.drop_last();
        lemma_alt_pairs_members(front, f2);
        lemma_pairs_with_members(f1.last(), f2);
        let a = alt_pairs(f1, f2);
        let af = alt_pairs(front, f2);
        let pl = pairs_with(f1.last(), f2);
        assert forall|i: int, j: int|
            0 <= i < f1.len() && 0 <= j < f2.len() && (#[trigger] f1[i]).target_action == (
            #[trigger] f2[j]).target_action implies a.contains(paired(f1[i], f2[j])) by {
            if i < front.len() {
                assert(front[i] == f1[i]);
                assert(af.contains(paired(front[i], f2[j])));
                let k = choose|k: int| 0 <= k < af.len() && af[k] == paired(front[i], f2[j]);
                assert(a[k] == af[k]);
            } else {
                assert(f1[i] == f1.last());
                assert(pl.contains(paired(f1.last(), f2[j])));
                let k = choose|k: int| 0 <= k < pl.len() && pl[k] == paired(f1.last(), f2[j]);
                assert(a[af.len() + k] == pl[k]);
            }
        }
        assert forall|k: int| 0 <= k < a.len() implies is_pair_of(#[trigger] a[k], f1, f2) by {
            if k < af.len() {
                assert(a[k] == af[k]);
                assert(is_pair_of(af[k], front, f2));
                let (i, j) = choose|i: int, j: int|
                    0 <= i < front.len() && 0 <= j < f2.len() && (
                    #[trigger] front[i]).target_action == (#[trigger] f2[j]).target_action
                        && af[k] == paired(front[i], f2[j]);
                assert(f1[i] == front[i]);
            } else {
                assert(a[k] == pl[k - af.len()]);
                assert(pairs_one_of(pl[k - af.len()], f1.last(), f2));
                let j = choose|j: int|
                    0 <= j < f2.len() && (#[trigger] f2[j]).target_action
                        == f1.last().target_action && pl[k - af.len()] == paired(f1.last(), f2[j]);
                assert(f1[f1.len() - 1] == f1.last());
            }
        }
    }
}

pub proof fn lemma_unmatched_members(
    f: Seq<FrontierElement>,
    other: Seq<FrontierElement>,
    left: bool,
)
    ensures
        forall|k: int|
            0 <= k < unmatched(f, other, left).len() ==> is_unmatched_of(
                #[trigger] unmatched(f, other, left)[k],
                f,
                other,
                left,
            ),
        forall|i: int|
            0 <= i < f.len() && !has_match(#[trigger] f[i], other) ==> unmatched(
                f,
                other,
                left,
            ).contains(shifted(f[i], left)),
    decreases f.len(),
{
    if f.len() > 0 {
        let front = f.drop_last();
        lemma_unmatched_members(front, other, left);
        let u = unmatched(f, other, left);
        let uf = unmatched(front, other, left);
        assert forall|k: int| 0 <= k < u.len() implies is_unmatched_of(
            #[trigger] u[k],
            f,
            other,
            left,
        ) by {
            if k < uf.len() {
                assert(u[k] == uf[k]);
                assert(is_unmatched_of(uf[k], front, other, left));
                let i = choose|i: int|
                    0 <= i < front.len() && !has_match(#[trigger] front[i], other) && uf[k]
                        == shifted(front[i], left);
                assert(f[i] == front[i]);
            } else {
                assert(f[f.len() - 1] == f.last());
            }
        }
        assert forall|i: int|
            0 <= i < f.len() && !has_match(#[trigger] f[i], other) implies u.contains(
            shifted(f[i], left),
        ) by {
            if i < front.len() {
                assert(front[i] == f[i]);
                assert(uf.contains(shifted(front[i], left)));
                let k = choose|k: int| 0 <= k < uf.len() && uf[k] == shifted(front[i], left);
                assert(u[k] == uf[k]);
            } else {
                assert(f[i] == f.last());
                assert(u[u.len() - 1] == shifted(f.last(), left));
            }
        }
    }
}

/// The elements that the frontier of a choice shows for both branches at
/// once are the pairs of an element of each branch with the same action,
/// and no others.
pub proof fn lemma_alt_merge(t1: Term, t2: Term, depth: nat, ctx: ContextView)
    ensures
        ({
            let f = Term::Alt(Box::new(t1), Box::new(t2)).frontier(depth, ctx);
            let f1 = t1.frontier(depth, ctx);
            let f2 = t2.frontier(depth, ctx);
            &&& forall|i: int, j: int|
                0 <= i < f1.len() && 0 <= j < f2.len() && (#[trigger] f1[i]).target_action == (
                #[trigger] f2[j]).target_action ==> f.contains(paired(f1[i], f2[j]))
            &&& forall|k: int|
                0 <= k < f.len() && (#[trigger] f[k]).position is Both ==> is_pair_of(f[k], f1, f2)
        }),
{
    let f = Term::Alt(Box::new(t1), Box::new(t2)).frontier(depth, ctx);
    let f1 = t1.frontier(depth, ctx);
    let f2 = t2.frontier(depth, ctx);
    let a = alt_pairs(f1, f2);
    let u1 = unmatched(f1, f2, true);
    let u2 = unmatched(f2, f1, false);
    assert(f == a + u1 + u2);
    lemma_alt_pairs_members(f1, f2);
    lemma_unmatched_members(f1, f2, true);
    lemma_unmatched_members(f2, f1, false);
    assert forall|i: int, j: int|
        0 <= i < f1.len() && 0 <= j < f2.len() && (#[trigger] f1[i]).target_action == (
        #[trigger] f2[j]).target_action implies f.contains(paired(f1[i], f2[j])) by {
        assert(a.contains(paired(f1[i], f2[j])));
        let k = choose|k: int| 0 <= k < a.len() && a[k] == paired(f1[i], f2[j]);
        assert(f[k] == a[k]);
    }
    assert forall|k: int| 0 <= k < f.len() && (#[trigger] f[k]).position is Both implies is_pair_of(
        f[k],
        f1,
        f2,
    ) by {
        if k < a.len() {
            assert(f[k] == a[k]);
            assert(is_pair_of(a[k], f1, f2));
        } else if k < a.len() + u1.len() {
            assert(f[k] == u1[k - a.len()]);
            assert(is_unmatched_of(u1[k - a.len()], f1, f2, true));
            let i = choose|i: int|
                0 <= i < f1.len() && !has_match(#[trigger] f1[i], f2) && u1[k - a.len()]
                    == shifted(f1[i], true);
            assert(false);
        } else {
            assert(f[k] == u2[k - a.len() - u1.len()]);
            assert(is_unmatched_of(u2[k - a.len() - u1.len()], f2, f1, false));
            let i = choose|i: int|
                0 <= i < f2.len() && !has_match(#[trigger] f2[i], f1) && u2[k - a.len()
                    - u1.len()] == shifted(f2[i], false);
            assert(false);
        }
    }
}

// ---------------------------------------------------------------------
// What a synchronisation keeps of an action
// ---------------------------------------------------------------------
/// The messages of the actions of a frontier.
pub open spec fn messages_of(f: Seq<FrontierElement>, ctx: ContextView) -> Set<usize> {
    Set::new(
        |x: usize|
            exists|i: int|
                0 <= i < f.len() && (#[trigger] f[i]).target_action.message.resolve_spec(
                    ctx,
                ).contains(x),
    )
}

/// A synchronisation splits an action in the part that passes and the part
/// that waits for a meeting. Where the map expects messages of the action,
/// the part that waits has the expected messages of the action and the
/// part that passes has its other messages; where the map has no entry
/// for the action, all of it passes. The two parts share no message, and
/// together they have the messages of the action.
pub proof fn lemma_sync_split_sound(
    e: FrontierElement,
    sync: Seq<SyncEntry>,
    ctx: ContextView,
    left: bool,
)
    requires
        e.target_action.well_formed(ctx),
        entries_well_formed(sync, ctx),
    ensures
        messages_of(sync_passing(seq![e], sync, ctx, left), ctx).union(
            messages_of(sync_candidates(seq![e], sync, ctx), ctx),
        ) == e.target_action.message.resolve_spec(ctx),
        messages_of(sync_passing(seq![e], sync, ctx, left), ctx).disjoint(
            messages_of(sync_candidates(seq![e], sync, ctx), ctx),
        ),
        match lookup(sync, e.target_action.lf_id, e.target_action.act_kind) {
            Some(mt) => {
                &&& messages_of(sync_passing(seq![e], sync, ctx, left), ctx)
                    == e.target_action.message.resolve_spec(ctx).difference(mt.resolve_spec(ctx))
                &&& messages_of(sync_candidates(seq![e], sync, ctx), ctx)
                    == e.target_action.message.resolve_spec(ctx).intersect(mt.resolve_spec(ctx))
            },
            None => messages_of(sync_candidates(seq![e], sync, ctx), ctx).is_empty(),
        },
{
    let one = seq![e];
    let none = Seq::<FrontierElement>::empty();
    assert(one.drop_last() =~= none);
    assert(one.last() == e);
    assert(sync_passing(none, sync, ctx, left) =~= none);
    assert(sync_candidates(none, sync, ctx) =~= none);
    let passing = sync_passing(one, sync, ctx, left);
    let waiting = sync_candidates(one, sync, ctx);
    let m = e.target_action.message;
    let whole = m.resolve_spec(ctx);
    let got_passing = messages_of(passing, ctx);
    let got_waiting = messages_of(waiting, ctx);
    lemma_lookup_well_formed(sync, e.target_action.lf_id, e.target_action.act_kind, ctx);
    match lookup(sync, e.target_action.lf_id, e.target_action.act_kind) {
        None => {
            assert(passing =~= seq![shifted(e, left)]);
            assert(waiting =~= none);
            assert forall|x: usize| got_passing.contains(x) == whole.contains(x) by {
                if whole.contains(x) {
                    assert(passing[0].target_action.message.resolve_spec(ctx).contains(x));
                }
            }
            assert(got_passing =~= whole);
            assert(got_waiting =~= Set::<usize>::empty());
        },
        Some(mt) => {
            let rest = MessageTypeExpression::SetMinus(Box::new(m), Box::new(mt));
            let common = MessageTypeExpression::Intersection(Box::new(m), Box::new(mt));
            if rest.resolve_spec(ctx).is_empty() {
                assert(passing =~= none);
            } else {
                lemma_simplify_keeps_resolution(rest, ctx);
                assert(passing =~= seq![shifted(narrowed(e, rest.simplify_spec(ctx)), left)]);
            }
            if common.resolve_spec(ctx).is_empty() {
                assert(waiting =~= none);
            } else {
                lemma_simplify_keeps_resolution(common, ctx);
                assert(waiting =~= seq![narrowed(e, common.simplify_spec(ctx))]);
            }
            assert forall|x: usize| got_passing.contains(x) == rest.resolve_spec(ctx).contains(
                x,
            ) by {
                if rest.resolve_spec(ctx).contains(x) {
                    assert(passing[0].target_action.message.resolve_spec(ctx).contains(x));
                }
            }
            assert forall|x: usize| got_waiting.contains(x) == common.resolve_spec(ctx).contains(
                x,
            ) by {
                if common.resolve_spec(ctx).contains(x) {
                    assert(waiting[0].target_action.message.resolve_spec(ctx).contains(x));
                }
            }
            assert(got_passing =~= whole.difference(mt.resolve_spec(ctx)));
            assert(got_waiting =~= whole.intersect(mt.resolve_spec(ctx)));
        },
    }
    assert(got_passing.union(got_waiting) =~= whole);
}

/// `x` is `e`, narrowed to the messages that it shares with `h`: same
/// position and depth, the lifeline and kind of both, and as messages
/// those of `e` that are messages of `h`, of which there are some.
pub open spec fn narrowed_to_head(
    x: FrontierElement,
    e: FrontierElement,
    h: TraceAction,
    ctx: ContextView,
) -> bool {
    &&& x.position == e.position
    &&& x.max_loop_depth == e.max_loop_depth
    &&& x.target_action.lf_id == h.lf_id
    &&& x.target_action.act_kind == h.act_kind
    &&& e.target_action.lf_id == h.lf_id
    &&& e.target_action.act_kind == h.act_kind
    &&& x.target_action.message.resolve_spec(ctx) == h.message.resolve_spec(ctx).intersect(
        e.target_action.message.resolve_spec(ctx),
    )
    &&& !x.target_action.message.resolve_spec(ctx).is_empty()
}

/// `x` is `e` narrowed to one of the actions of `heads`.
pub open spec fn narrowed_to_one_of(
    x: FrontierElement,
    e: FrontierElement,
    heads: Seq<TraceAction>,
    ctx: ContextView,
) -> bool {
    exists|j: int| 0 <= j < heads.len() && narrowed_to_head(x, e, #[trigger] heads[j], ctx)
}

/// `x` is an element of `f` narrowed to one of the actions of `heads`.
pub open spec fn narrowed_from(
    x: FrontierElement,
    f: Seq<FrontierElement>,
    heads: Seq<TraceAction>,
    ctx: ContextView,
) -> bool {
    exists|i: int| 0 <= i < f.len() && narrowed_to_one_of(x, #[trigger] f[i], heads, ctx)
}

/// The actions fit the table.
pub open spec fn heads_well_formed(heads: Seq<TraceAction>, ctx: ContextView) -> bool {
    forall|j: int| 0 <= j < heads.len() ==> (#[trigger] heads[j]).well_formed(ctx)
}

proof fn lemma_matches_narrowed(e: FrontierElement, heads: Seq<TraceAction>, ctx: ContextView)
    requires
        e.target_action.well_formed(ctx),
        heads_well_formed(heads, ctx),
    ensures
        forall|k: int|
            0 <= k < matches_of(e, heads, ctx).len() ==> narrowed_to_one_of(
                #[trigger] matches_of(e, heads, ctx)[k],
                e,
                heads,
                ctx,
            ),
    decreases heads.len(),
{
    if heads.len() > 0 {
        let front = heads.drop_last();
        assert forall|j: int| 0 <= j < front.len() implies (#[trigger] front[j]).well_formed(
            ctx,
        ) by {
            assert(front[j] == heads[j]);
        }
        lemma_matches_narrowed(e, front, ctx);
        let mf = matches_of(e, front, ctx);
        let m = matches_of(e, heads, ctx);
        let last = heads.len() - 1;
        assert(heads[last] == heads.last());
        assert forall|k: int| 0 <= k < m.len() implies narrowed_to_one_of(
            #[trigger] m[k],
            e,
            heads,
            ctx,
        ) by {
            if k < mf.len() {
                assert(m[k] == mf[k]);
                let j = choose|j: int|
                    0 <= j < front.len() && narrowed_to_head(mf[k], e, #[trigger] front[j], ctx);
                assert(front[j] == heads[j]);
                assert(narrowed_to_head(m[k], e, heads[j], ctx));
            } else {
                lemma_simplify_keeps_resolution(shared(heads.last(), e.target_action), ctx);
                assert(narrowed_to_head(m[k], e, heads[last], ctx));
            }
        }
    }
}

/// Every element of a frontier that is narrowed to the next actions of the
/// traces is an element of the frontier, narrowed to one of these
/// actions: it has the lifeline and the kind of that action, and as
/// messages those of the element that are messages of the action, of
/// which there are some.
pub proof fn lemma_matches_within(f: Seq<FrontierElement>, heads: Seq<TraceAction>, ctx: ContextView)
    requires
        frontier_well_formed(f, ctx),
        heads_well_formed(heads, ctx),
    ensures
        forall|k: int|
            0 <= k < matched_against(f, heads, ctx).len() ==> narrowed_from(
                #[trigger] matched_against(f, heads, ctx)[k],
                f,
                heads,
                ctx,
            ),
    decreases f.len(),
{
    if f.len() > 0 {
        let front = f.drop_last();
        lemma_wf_drop_last(f, ctx);
        lemma_matches_within(front, heads, ctx);
        lemma_matches_narrowed(f.last(), heads, ctx);
        let a = matched_against(front, heads, ctx);
        let b = matches_of(f.last(), heads, ctx);
        let last = f.len() - 1;
        assert(f[last] == f.last());
        assert forall|k: int| 0 <= k < (a + b).len() implies narrowed_from(
            #[trigger] (a + b)[k],
            f,
            heads,
            ctx,
        ) by {
            if k < a.len() {
                assert((a + b)[k] == a[k]);
                let i = choose|i: int|
                    0 <= i < front.len() && narrowed_to_one_of(a[k], #[trigger] front[i], heads, ctx);
                assert(front[i] == f[i]);
                assert(narrowed_to_one_of(a[k], f[i], heads, ctx));
            } else {
                assert((a + b)[k] == b[k - a.len()]);
                assert(narrowed_to_one_of(b[k - a.len()], f[last], heads, ctx));
            }
        }
    }
}

/// The steps that consume the next action of a trace: each element of the
/// frontier of a term that is narrowed to such actions is an element of
/// the frontier of the term, narrowed to one of them.
pub proof fn lemma_global_matches_within(
    t: Term,
    heads: Seq<TraceAction>,
    ctx: ContextView,
    k: int,
)
    requires
        t.well_formed(ctx),
        heads_well_formed(heads, ctx),
        0 <= k < t.global_frontier(ctx, Some(heads)).len(),
    ensures
        narrowed_from(t.global_frontier(ctx, Some(heads))[k], t.frontier(0, ctx), heads, ctx),
{
    lemma_frontier_well_formed(t, 0, ctx);
    lemma_matches_within(t.frontier(0, ctx), heads, ctx);
}

// ---------------------------------------------------------------------
// The elements of a frontier can fire
// ---------------------------------------------------------------------
/// `x` denotes only messages that `y` denotes.
pub open spec fn within(x: MessageTypeExpression, y: MessageTypeExpression, ctx: ContextView) -> bool {
    x.resolve_spec(ctx).subset_of(y.resolve_spec(ctx))
}

impl Term {
    /// No synchronisation occurs in the term.
    pub open spec fn sync_free(self) -> bool
        decreases self,
    {
        match self {
            Term::Empty => true,
            Term::Action(_) => true,
            Term::CoReg(_, t1, t2) => t1.sync_free() && t2.sync_free(),
            Term::Loop(_, t1) => t1.sync_free(),
            Term::Alt(t1, t2) => t1.sync_free() && t2.sync_free(),
            Term::Sync(_, _, _) => false,
        }
    }
}

/// The element can fire in the term.
pub open spec fn fires_in(x: FrontierElement, t: Term, ctx: ContextView) -> bool {
    t.executable(x.position, x.target_action, ctx)
}

pub open spec fn all_fire(f: Seq<FrontierElement>, t: Term, ctx: ContextView) -> bool {
    forall|i: int| 0 <= i < f.len() ==> fires_in(#[trigger] f[i], t, ctx)
}

/// The element leads into the operand on the given side, and can fire
/// there.
pub open spec fn fires_under(x: FrontierElement, side: Term, left: bool, ctx: ContextView) -> bool {
    match x.position {
        Position::Left(p) => left && side.executable(*p, x.target_action, ctx),
        Position::Right(p) => !left && side.executable(*p, x.target_action, ctx),
        _ => false,
    }
}

pub open spec fn all_fire_under(f: Seq<FrontierElement>, side: Term, left: bool, ctx: ContextView) -> bool {
    forall|i: int| 0 <= i < f.len() ==> fires_under(#[trigger] f[i], side, left, ctx)
}

/// The element leads into both operands, and can fire in each.
pub open spec fn fires_both(x: FrontierElement, t1: Term, t2: Term, ctx: ContextView) -> bool {
    match x.position {
        Position::Both(p1, p2) => t1.executable(*p1, x.target_action, ctx) && t2.executable(
            *p2,
            x.target_action,
            ctx,
        ),
        _ => false,
    }
}

pub open spec fn all_fire_both(f: Seq<FrontierElement>, t1: Term, t2: Term, ctx: ContextView) -> bool {
    forall|i: int| 0 <= i < f.len() ==> fires_both(#[trigger] f[i], t1, t2, ctx)
}

/// An action that can fire at a position can fire there with fewer
/// messages.
pub proof fn lemma_executable_narrowed(
    t: Term,
    pos: Position,
    act: TraceAction,
    act2: TraceAction,
    ctx: ContextView,
)
    requires
        t.executable(pos, act, ctx),
        act2.lf_id == act.lf_id,
        act2.act_kind == act.act_kind,
        within(act2.message, act.message, ctx),
    ensures
        t.executable(pos, act2, ctx),
    decreases t,
{
    match pos {
        Position::Epsilon(_) => {},
        Position::Left(p) => match t {
            Term::Alt(t1, _) => {
                lemma_executable_narrowed(*t1, *p, act, act2, ctx);
            },
            Term::Loop(_, t1) => {
                lemma_executable_narrowed(*t1, *p, act, act2, ctx);
            },
            Term::CoReg(_, t1, _) => {
                lemma_executable_narrowed(*t1, *p, act, act2, ctx);
            },
            Term::Sync(_, t1, _) => {
                lemma_executable_narrowed(*t1, *p, act, act2, ctx);
            },
            _ => {},
        },
        Position::Right(p) => match t {
            Term::Alt(_, t2) => {
                lemma_executable_narrowed(*t2, *p, act, act2, ctx);
            },
            Term::CoReg(_, _, t2) => {
                lemma_executable_narrowed(*t2, *p, act, act2, ctx);
            },
            Term::Sync(_, _, t2) => {
                lemma_executable_narrowed(*t2, *p, act, act2, ctx);
            },
            _ => {},
        },
        Position::Both(p1, p2) => match t {
            Term::Alt(t1, t2) => {
                lemma_executable_narrowed(*t1, *p1, act, act2, ctx);
                lemma_executable_narrowed(*t2, *p2, act, act2, ctx);
            },
            Term::Sync(_, t1, t2) => {
                lemma_executable_narrowed(*t1, *p1, act, act2, ctx);
                lemma_executable_narrowed(*t2, *p2, act, act2, ctx);
            },
            _ => {},
        },
    }
}

proof fn lemma_all_fire_drop_last(f: Seq<FrontierElement>, t: Term, ctx: ContextView)
    requires
        all_fire(f, t, ctx),
        f.len() > 0,
    ensures
        all_fire(f.drop_last(), t, ctx),
        fires_in(f.last(), t, ctx),
{
    assert forall|i: int| 0 <= i < f.drop_last().len() implies fires_in(
        #[trigger] f.drop_last()[i],
        t,
        ctx,
    ) by {
        assert(f.drop_last()[i] == f[i]);
    }
    assert(f[f.len() - 1] == f.last());
}

proof fn lemma_under_push(
    f: Seq<FrontierElement>,
    x: FrontierElement,
    side: Term,
    left: bool,
    ctx: ContextView,
)
    requires
        all_fire_under(f, side, left, ctx),
        fires_under(x, side, left, ctx),
    ensures
        all_fire_under(f.push(x), side, left, ctx),
{
    assert forall|i: int| 0 <= i < f.push(x).len() implies fires_under(
        #[trigger] f.push(x)[i],
        side,
        left,
        ctx,
    ) by {
        if i < f.len() {
            assert(f.push(x)[i] == f[i]);
        }
    }
}

proof fn lemma_commuting_fire(
    f: Seq<FrontierElement>,
    cr: Seq<usize>,
    t1: Term,
    t2: Term,
    ctx: ContextView,
)
    requires
        all_fire(f, t2, ctx),
    ensures
        all_fire_under(commuting_right(f, cr, t1), t2, false, ctx),
    decreases f.len(),
{
    if f.len() > 0 {
        lemma_all_fire_drop_last(f, t2, ctx);
        lemma_commuting_fire(f.drop_last(), cr, t1, t2, ctx);
        lemma_under_push(commuting_right(f.drop_last(), cr, t1), shifted_right(f.last()), t2, false, ctx);
    }
}

proof fn lemma_sync_split_fire(
    f: Seq<FrontierElement>,
    sync: Seq<SyncEntry>,
    ctx: ContextView,
    left: bool,
    side: Term,
)
    requires
        all_fire(f, side, ctx),
        frontier_well_formed(f, ctx),
        entries_well_formed(sync, ctx),
    ensures
        all_fire_under(sync_passing(f, sync, ctx, left), side, left, ctx),
        all_fire(sync_candidates(f, sync, ctx), side, ctx),
    decreases f.len(),
{
    if f.len() > 0 {
        let front = f.drop_last();
        let e = f.last();
        lemma_all_fire_drop_last(f, side, ctx);
        lemma_wf_drop_last(f, ctx);
        lemma_sync_split_fire(front, sync, ctx, left, side);
        assert(f[f.len() - 1] == e);
        lemma_lookup_well_formed(sync, e.target_action.lf_id, e.target_action.act_kind, ctx);
        match lookup(sync, e.target_action.lf_id, e.target_action.act_kind) {
            None => {
                lemma_under_push(sync_passing(front, sync, ctx, left), shifted(e, left), side, left, ctx);
            },
            Some(mt) => {
                let rest = MessageTypeExpression::SetMinus(
                    Box::new(e.target_action.message),
                    Box::new(mt),
                );
                let common = MessageTypeExpression::Intersection(
                    Box::new(e.target_action.message),
                    Box::new(mt),
                );
                if !rest.resolve_spec(ctx).is_empty() {
                    lemma_simplify_keeps_resolution(rest, ctx);
                    let passing = narrowed(e, rest.simplify_spec(ctx));
                    lemma_executable_narrowed(
                        side,
                        e.position,
                        e.target_action,
                        passing.target_action,
                        ctx,
                    );
                    lemma_under_push(
                        sync_passing(front, sync, ctx, left),
                        shifted(passing, left),
                        side,
                        left,
                        ctx,
                    );
                }
                if !common.resolve_spec(ctx).is_empty() {
                    lemma_simplify_keeps_resolution(common, ctx);
                    let waiting = narrowed(e, common.simplify_spec(ctx));
                    lemma_executable_narrowed(
                        side,
                        e.position,
                        e.target_action,
                        waiting.target_action,
                        ctx,
                    );
                    let cf = sync_candidates(front, sync, ctx);
                    assert forall|i: int| 0 <= i < cf.push(waiting).len() implies fires_in(
                        #[trigger] cf.push(waiting)[i],
                        side,
                        ctx,
                    ) by {
                        if i < cf.len() {
                            assert(cf.push(waiting)[i] == cf[i]);
                        }
                    }
                }
            },
        }
    }
}

proof fn lemma_meetings_fire(
    e1: FrontierElement,
    c2: Seq<FrontierElement>,
    ctx: ContextView,
    t1: Term,
    t2: Term,
)
    requires
        fires_in(e1, t1, ctx),
        all_fire(c2, t2, ctx),
        e1.target_action.well_formed(ctx),
        frontier_well_formed(c2, ctx),
    ensures
        all_fire_both(meetings_with(e1, c2, ctx), t1, t2, ctx),
    decreases c2.len(),
{
    if c2.len() > 0 {
        let front = c2.drop_last();
        let e2 = c2.last();
        lemma_all_fire_drop_last(c2, t2, ctx);
        lemma_wf_drop_last(c2, ctx);
        lemma_meetings_fire(e1, front, ctx, t1, t2);
        let mf = meetings_with(e1, front, ctx);
        assert(c2[c2.len() - 1] == e2);
        if can_meet(e1.target_action, e2.target_action, ctx) {
            lemma_simplify_keeps_resolution(shared(e1.target_action, e2.target_action), ctx);
            let x = met(e1, e2, ctx);
            lemma_executable_narrowed(t1, e1.position, e1.target_action, x.target_action, ctx);
            lemma_executable_narrowed(t2, e2.position, e2.target_action, x.target_action, ctx);
            assert forall|i: int| 0 <= i < mf.push(x).len() implies fires_both(
                #[trigger] mf.push(x)[i],
                t1,
                t2,
                ctx,
            ) by {
                if i < mf.len() {
                    assert(mf.push(x)[i] == mf[i]);
                }
            }
        }
    }
}

proof fn lemma_rendezvous_fire(
    c1: Seq<FrontierElement>,
    c2: Seq<FrontierElement>,
    ctx: ContextView,
    t1: Term,
    t2: Term,
)
    requires
        all_fire(c1, t1, ctx),
        all_fire(c2, t2, ctx),
        frontier_well_formed(c1, ctx),
        frontier_well_formed(c2, ctx),
    ensures
        all_fire_both(rendezvous(c1, c2, ctx), t1, t2, ctx),
    decreases c1.len(),
{
    if c1.len() > 0 {
        let front = c1.drop_last();
        lemma_all_fire_drop_last(c1, t1, ctx);
        lemma_wf_drop_last(c1, ctx);
        lemma_rendezvous_fire(front, c2, ctx, t1, t2);
        assert(c1[c1.len() - 1] == c1.last());
        lemma_meetings_fire(c1.last(), c2, ctx, t1, t2);
        let a = rendezvous(front, c2, ctx);
        let b = meetings_with(c1.last(), c2, ctx);
        assert forall|i: int| 0 <= i < (a + b).len() implies fires_both(
            #[trigger] (a + b)[i],
            t1,
            t2,
            ctx,
        ) by {
            if i < a.len() {
                assert((a + b)[i] == a[i]);
            } else {
                assert((a + b)[i] == b[i - a.len()]);
            }
        }
    }
}

proof fn lemma_fires_action(t: Term, depth: nat, ctx: ContextView)
    requires
        t is Action,
    ensures
        all_fire(t.frontier(depth, ctx), t, ctx),
{
    let f = t.frontier(depth, ctx);
    assert forall|i: int| 0 <= i < f.len() implies fires_in(#[trigger] f[i], t, ctx) by {}
}

proof fn lemma_fires_loop(cr: Seq<usize>, t1: Term, depth: nat, ctx: ContextView)
    requires
        all_fire(t1.frontier(depth + 1, ctx), t1, ctx),
    ensures
        all_fire(Term::Loop(cr, Box::new(t1)).frontier(depth, ctx), Term::Loop(cr, Box::new(t1)), ctx),
{
    let t = Term::Loop(cr, Box::new(t1));
    let f = t.frontier(depth, ctx);
    let f1 = t1.frontier(depth + 1, ctx);
    assert forall|i: int| 0 <= i < f.len() implies fires_in(#[trigger] f[i], t, ctx) by {
        assert(f[i] == shifted_left(f1[i]));
        assert(fires_in(f1[i], t1, ctx));
    }
}

proof fn lemma_fires_coreg(cr: Seq<usize>, t1: Term, t2: Term, depth: nat, ctx: ContextView)
    requires
        all_fire(t1.frontier(depth, ctx), t1, ctx),
        all_fire(t2.frontier(depth, ctx), t2, ctx),
    ensures
        all_fire(
            Term::CoReg(cr, Box::new(t1), Box::new(t2)).frontier(depth, ctx),
            Term::CoReg(cr, Box::new(t1), Box::new(t2)),
            ctx,
        ),
{
    let t = Term::CoReg(cr, Box::new(t1), Box::new(t2));
    let f = t.frontier(depth, ctx);
    let f1 = t1.frontier(depth, ctx);
    let f2 = t2.frontier(depth, ctx);
    let a = all_left(f1);
    let b = commuting_right(f2, cr, t1);
    lemma_commuting_fire(f2, cr, t1, t2, ctx);
    assert(f == a + b);
    assert forall|i: int| 0 <= i < f.len() implies fires_in(#[trigger] f[i], t, ctx) by {
        if i < a.len() {
            assert(f[i] == a[i]);
            assert(a[i] == shifted_left(f1[i]));
            assert(fires_in(f1[i], t1, ctx));
        } else {
            assert(f[i] == b[i - a.len()]);
            assert(fires_under(b[i - a.len()], t2, false, ctx));
        }
    }
}

proof fn lemma_pairs_with_fire(
    e1: FrontierElement,
    f2: Seq<FrontierElement>,
    t1: Term,
    t2: Term,
    ctx: ContextView,
)
    requires
        fires_in(e1, t1, ctx),
        all_fire(f2, t2, ctx),
    ensures
        all_fire_both(pairs_with(e1, f2), t1, t2, ctx),
    decreases f2.len(),
{
    if f2.len() > 0 {
        lemma_all_fire_drop_last(f2, t2, ctx);
        lemma_pairs_with_fire(e1, f2.drop_last(), t1, t2, ctx);
        let pf = pairs_with(e1, f2.drop_last());
        let x = paired(e1, f2.last());
        if f2.last().target_action == e1.target_action {
            assert(fires_both(x, t1, t2, ctx));
            assert forall|i: int| 0 <= i < pf.push(x).len() implies fires_both(
                #[trigger] pf.push(x)[i],
                t1,
                t2,
                ctx,
            ) by {
                if i < pf.len() {
                    assert(pf.push(x)[i] == pf[i]);
                }
            }
        }
    }
}

proof fn lemma_alt_pairs_fire(
    f1: Seq<FrontierElement>,
    f2: Seq<FrontierElement>,
    t1: Term,
    t2: Term,
    ctx: ContextView,
)
    requires
        all_fire(f1, t1, ctx),
        all_fire(f2, t2, ctx),
    ensures
        all_fire_both(alt_pairs(f1, f2), t1, t2, ctx),
    decreases f1.len(),
{
    if f1.len() > 0 {
        lemma_all_fire_drop_last(f1, t1, ctx);
        lemma_alt_pairs_fire(f1.drop_last(), f2, t1, t2, ctx);
        lemma_pairs_with_fire(f1.last(), f2, t1, t2, ctx);
        let a = alt_pairs(f1.drop_last(), f2);
        let b = pairs_with(f1.last(), f2);
        assert forall|i: int| 0 <= i < (a + b).len() implies fires_both(
            #[trigger] (a + b)[i],
            t1,
            t2,
            ctx,
        ) by {
            if i < a.len() {
                assert((a + b)[i] == a[i]);
            } else {
                assert((a + b)[i] == b[i - a.len()]);
            }
        }
    }
}

proof fn lemma_unmatched_fire(
    f: Seq<FrontierElement>,
    other: Seq<FrontierElement>,
    left: bool,
    side: Term,
    ctx: ContextView,
)
    requires
        all_fire(f, side, ctx),
    ensures
        all_fire_under(unmatched(f, other, left), side, left, ctx),
    decreases f.len(),
{
    if f.len() > 0 {
        lemma_all_fire_drop_last(f, side, ctx);
        lemma_unmatched_fire(f.drop_last(), other, left, side, ctx);
        if !has_match(f.last(), other) {
            lemma_under_push(
                unmatched(f.drop_last(), other, left),
                shifted(f.last(), left),
                side,
                left,
                ctx,
            );
        }
    }
}

proof fn lemma_fires_alt(t1: Term, t2: Term, depth: nat, ctx: ContextView)
    requires
        all_fire(t1.frontier(depth, ctx), t1, ctx),
        all_fire(t2.frontier(depth, ctx), t2, ctx),
    ensures
        all_fire(
            Term::Alt(Box::new(t1), Box::new(t2)).frontier(depth, ctx),
            Term::Alt(Box::new(t1), Box::new(t2)),
            ctx,
        ),
{
    let t = Term::Alt(Box::new(t1), Box::new(t2));
    let f = t.frontier(depth, ctx);
    let f1 = t1.frontier(depth, ctx);
    let f2 = t2.frontier(depth, ctx);
    let a = alt_pairs(f1, f2);
    let u1 = unmatched(f1, f2, true);
    let u2 = unmatched(f2, f1, false);
    lemma_alt_pairs_fire(f1, f2, t1, t2, ctx);
    lemma_unmatched_fire(f1, f2, true, t1, ctx);
    lemma_unmatched_fire(f2, f1, false, t2, ctx);
    assert(f == a + u1 + u2);
    assert forall|k: int| 0 <= k < f.len() implies fires_in(#[trigger] f[k], t, ctx) by {
        if k < a.len() {
            assert(f[k] == a[k]);
            assert(fires_both(a[k], t1, t2, ctx));
        } else if k < a.len() + u1.len() {
            assert(f[k] == u1[k - a.len()]);
            assert(fires_under(u1[k - a.len()], t1, true, ctx));
        } else {
            assert(f[k] == u2[k - a.len() - u1.len()]);
            assert(fires_under(u2[k - a.len() - u1.len()], t2, false, ctx));
        }
    }
}

proof fn lemma_fires_sync(sync: Seq<SyncEntry>, t1: Term, t2: Term, depth: nat, ctx: ContextView)
    requires
        all_fire(t1.frontier(depth, ctx), t1, ctx),
        all_fire(t2.frontier(depth, ctx), t2, ctx),
        frontier_well_formed(t1.frontier(depth, ctx), ctx),
        frontier_well_formed(t2.frontier(depth, ctx), ctx),
        entries_well_formed(sync, ctx),
    ensures
        all_fire(
            Term::Sync(sync, Box::new(t1), Box::new(t2)).frontier(depth, ctx),
            Term::Sync(sync, Box::new(t1), Box::new(t2)),
            ctx,
        ),
{
    let t = Term::Sync(sync, Box::new(t1), Box::new(t2));
    let f = t.frontier(depth, ctx);
    let f1 = t1.frontier(depth, ctx);
    let f2 = t2.frontier(depth, ctx);
    lemma_sync_split_fire(f1, sync, ctx, true, t1);
    lemma_sync_split_fire(f2, sync, ctx, false, t2);
    let p1 = sync_passing(f1, sync, ctx, true);
    let p2 = sync_passing(f2, sync, ctx, false);
    let c1 = sync_candidates(f1, sync, ctx);
    let c2 = sync_candidates(f2, sync, ctx);
    lemma_sync_split_wf(f1, sync, ctx, true);
    lemma_sync_split_wf(f2, sync, ctx, false);
    lemma_rendezvous_fire(c1, c2, ctx, t1, t2);
    let r = rendezvous(c1, c2, ctx);
    assert(f == p1 + p2 + r);
    assert forall|k: int| 0 <= k < f.len() implies fires_in(#[trigger] f[k], t, ctx) by {
        if k < p1.len() {
            assert(f[k] == p1[k]);
            assert(fires_under(p1[k], t1, true, ctx));
        } else if k < p1.len() + p2.len() {
            assert(f[k] == p2[k - p1.len()]);
            assert(fires_under(p2[k - p1.len()], t2, false, ctx));
        } else {
            assert(f[k] == r[k - p1.len() - p2.len()]);
            assert(fires_both(r[k - p1.len() - p2.len()], t1, t2, ctx));
        }
    }
}

/// Every element of the frontier of a term can fire in the term.
pub proof fn lemma_frontier_fires(t: Term, depth: nat, ctx: ContextView)
    requires
        t.well_formed(ctx),
    ensures
        all_fire(t.frontier(depth, ctx), t, ctx),
    decreases t,
{
    match t {
        Term::Empty => {},
        Term::Action(bp) => {
            lemma_fires_action(t, depth, ctx);
        },
        Term::Loop(cr, t1) => {
            lemma_frontier_fires(*t1, depth + 1, ctx);
            lemma_fires_loop(cr, *t1, depth, ctx);
        },
        Term::CoReg(cr, t1, t2) => {
            lemma_frontier_fires(*t1, depth, ctx);
            lemma_frontier_fires(*t2, depth, ctx);
            lemma_fires_coreg(cr, *t1, *t2, depth, ctx);
        },
        Term::Alt(t1, t2) => {
            lemma_frontier_fires(*t1, depth, ctx);
            lemma_frontier_fires(*t2, depth, ctx);
            lemma_fires_alt(*t1, *t2, depth, ctx);
        },
        Term::Sync(sync, t1, t2) => {
            lemma_frontier_fires(*t1, depth, ctx);
            lemma_frontier_fires(*t2, depth, ctx);
            lemma_frontier_well_formed(*t1, depth, ctx);
            lemma_frontier_well_formed(*t2, depth, ctx);
            lemma_fires_sync(sync, *t1, *t2, depth, ctx);
        },
    }
}

/// Every element of the frontier of a whole term can be executed: its
/// position leads to an action of the term, and its action can fire there.
pub proof fn lemma_frontier_executable(t: Term, ctx: ContextView, i: int)
    requires
        t.well_formed(ctx),
        0 <= i < t.global_frontier(ctx, None).len(),
    ensures
        ({
            let e = t.global_frontier(ctx, None)[i];
            t.executable(e.position, e.target_action, ctx)
        }),
{
    lemma_frontier_fires(t, 0, ctx);
    let e = t.frontier(0, ctx)[i];
    assert(fires_in(e, t, ctx));
}

/// Every element of the frontier of a whole term, narrowed to the next
/// actions of the traces, can be executed.
pub proof fn lemma_matched_frontier_executable(
    t: Term,
    heads: Seq<TraceAction>,
    ctx: ContextView,
    k: int,
)
    requires
        t.well_formed(ctx),
        heads_well_formed(heads, ctx),
        0 <= k < t.global_frontier(ctx, Some(heads)).len(),
    ensures
        ({
            let x = t.global_frontier(ctx, Some(heads))[k];
            t.executable(x.position, x.target_action, ctx)
        }),
{
    let f = t.frontier(0, ctx);
    let x = t.global_frontier(ctx, Some(heads))[k];
    lemma_global_matches_within(t, heads, ctx, k);
    lemma_frontier_fires(t, 0, ctx);
    let i = choose|i: int| 0 <= i < f.len() && narrowed_to_one_of(x, #[trigger] f[i], heads, ctx);
    let j = choose|j: int|
        0 <= j < heads.len() && narrowed_to_head(x, f[i], #[trigger] heads[j], ctx);
    assert(fires_in(f[i], t, ctx));
    lemma_executable_narrowed(t, f[i].position, f[i].target_action, x.target_action, ctx);
}

// ---------------------------------------------------------------------
// A term that shows no action
// ---------------------------------------------------------------------
proof fn lemma_commuting_all(f: Seq<FrontierElement>, cr: Seq<usize>, t1: Term)
    requires
        forall|lf: usize| t1.avoids(lf),
    ensures
        commuting_right(f, cr, t1).len() == f.len(),
    decreases f.len(),
{
    if f.len() > 0 {
        lemma_commuting_all(f.drop_last(), cr, t1);
    }
}

proof fn lemma_alt_merge_empty(f1: Seq<FrontierElement>, f2: Seq<FrontierElement>)
    requires
        alt_pairs(f1, f2).len() == 0,
        unmatched(f1, f2, true).len() == 0,
        unmatched(f2, f1, false).len() == 0,
    ensures
        f1.len() == 0,
        f2.len() == 0,
{
    lemma_alt_pairs_members(f1, f2);
    lemma_unmatched_members(f1, f2, true);
    lemma_unmatched_members(f2, f1, false);
    if f1.len() > 0 {
        let e = f1[0];
        if has_match(e, f2) {
            let j = choose|j: int|
                0 <= j < f2.len() && (#[trigger] f2[j]).target_action == e.target_action;
            assert(alt_pairs(f1, f2).contains(paired(f1[0], f2[j])));
        } else {
            assert(unmatched(f1, f2, true).contains(shifted(f1[0], true)));
        }
        assert(false);
    }
    if f2.len() > 0 {
        let e = f2[0];
        assert(!has_match(e, f1));
        assert(unmatched(f2, f1, false).contains(shifted(f2[0], false)));
        assert(false);
    }
}

/// A term without synchronisation that shows no action can do without any
/// lifeline.
pub proof fn lemma_idle_term_avoids(t: Term, depth: nat, ctx: ContextView, lf_ids: Set<usize>)
    requires
        t.sync_free(),
        t.frontier(depth, ctx).len() == 0,
    ensures
        t.avoids_all_of(lf_ids),
    decreases t,
{
    match t {
        Term::Empty => {},
        Term::Action(bp) => {
            assert(bp.origin is None);
            assert(bp.targets.len() == 0);
            assert(bp.involved_lifelines() =~= Set::<usize>::empty());
        },
        Term::Loop(_, _) => {},
        Term::CoReg(cr, t1, t2) => {
            let f1 = t1.frontier(depth, ctx);
            let f2 = t2.frontier(depth, ctx);
            assert(all_left(f1).len() == f1.len());
            lemma_idle_term_avoids(*t1, depth, ctx, lf_ids);
            assert forall|lf: usize| t1.avoids(lf) by {
                lemma_idle_term_avoids(*t1, depth, ctx, set![lf]);
            }
            lemma_commuting_all(f2, cr, *t1);
            lemma_idle_term_avoids(*t2, depth, ctx, lf_ids);
        },
        Term::Alt(t1, t2) => {
            let f1 = t1.frontier(depth, ctx);
            let f2 = t2.frontier(depth, ctx);
            lemma_alt_merge_empty(f1, f2);
            lemma_idle_term_avoids(*t1, depth, ctx, lf_ids);
        },
        Term::Sync(_, _, _) => {},
    }
}

/// A term without synchronisation that shows no action can end: where the
/// frontier is empty, nothing is left to do.
pub proof fn lemma_idle_term_expresses_empty(t: Term, depth: nat, ctx: ContextView)
    requires
        t.sync_free(),
        t.frontier(depth, ctx).len() == 0,
    ensures
        t.express_empty(),
    decreases t,
{
    match t {
        Term::Empty => {},
        Term::Action(bp) => {
            assert(bp.origin is None);
            assert(bp.targets.len() == 0);
        },
        Term::Loop(_, _) => {},
        Term::CoReg(cr, t1, t2) => {
            let f1 = t1.frontier(depth, ctx);
            let f2 = t2.frontier(depth, ctx);
            assert(all_left(f1).len() == f1.len());
            lemma_idle_term_expresses_empty(*t1, depth, ctx);
            assert forall|lf: usize| t1.avoids(lf) by {
                lemma_idle_term_avoids(*t1, depth, ctx, set![lf]);
            }
            lemma_commuting_all(f2, cr, *t1);
            lemma_idle_term_expresses_empty(*t2, depth, ctx);
        },
        Term::Alt(t1, t2) => {
            let f1 = t1.frontier(depth, ctx);
            let f2 = t2.frontier(depth, ctx);
            lemma_alt_merge_empty(f1, f2);
            lemma_idle_term_expresses_empty(*t1, depth, ctx);
        },
        Term::Sync(_, _, _) => {},
    }
}

} // verus!
