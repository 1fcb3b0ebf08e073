//! The frontier of a term: the actions that can fire at once, each with the
//! position at which it fires.

use crate::context::{ContextView, GeneralContext};
use crate::ids::ids_contain;
use crate::interaction::{Interaction, Term};
use crate::message::MessageTypeExpression;
use crate::message_laws::lemma_simplify_keeps_resolution;
use crate::position::Position;
use crate::sync::{entries_well_formed, lemma_lookup_well_formed, lookup, SyncEntry, SyncMap};
use crate::trace::{TraceAction, TraceActionKind};
use vstd::prelude::*;

verus! {

/// An action that can fire: where, which, and how many loops are entered
/// on the way to it.
#[derive(Debug, PartialEq)]
pub struct FrontierElement {
    pub position: Position,
    pub target_action: TraceAction,
    pub max_loop_depth: u32,
}

impl Clone for FrontierElement {
    fn clone(&self) -> (r: Self)
        ensures
            r == *self,
    {
        FrontierElement {
            position: self.position.clone(),
            target_action: self.target_action.clone(),
            max_loop_depth: self.max_loop_depth,
        }
    }
}

impl FrontierElement {
    pub fn new(position: Position, target_action: TraceAction, max_loop_depth: u32) -> (r: Self)
        ensures
            r == (FrontierElement { position, target_action, max_loop_depth }),
    {
        FrontierElement { position, target_action, max_loop_depth }
    }
}

/// Every action of the frontier names only types of the table.
pub open spec fn frontier_well_formed(f: Seq<FrontierElement>, ctx: ContextView) -> bool {
    forall|i: int| 0 <= i < f.len() ==> (#[trigger] f[i]).target_action.well_formed(ctx)
}

/// The element seen from the operator above, which holds it on the left.
pub open spec fn shifted_left(e: FrontierElement) -> FrontierElement {
    FrontierElement { position: Position::Left(Box::new(e.position)), ..e }
}

/// The element seen from the operator above, which holds it on the right.
pub open spec fn shifted_right(e: FrontierElement) -> FrontierElement {
    FrontierElement { position: Position::Right(Box::new(e.position)), ..e }
}

pub open spec fn shifted(e: FrontierElement, left: bool) -> FrontierElement {
    if left {
        shifted_left(e)
    } else {
        shifted_right(e)
    }
}

pub open spec fn all_left(f: Seq<FrontierElement>) -> Seq<FrontierElement> {
    Seq::new(f.len(), |i: int| shifted_left(f[i]))
}

/// The element with its messages narrowed to `m`.
pub open spec fn narrowed(e: FrontierElement, m: MessageTypeExpression) -> FrontierElement {
    FrontierElement {
        target_action: TraceAction {
            lf_id: e.target_action.lf_id,
            act_kind: e.target_action.act_kind,
            message: m,
        },
        ..e
    }
}

pub open spec fn max_depth(a: u32, b: u32) -> u32 {
    if a >= b {
        a
    } else {
        b
    }
}

/// The frontier of the right operand of a sequence: an element stays if
/// its lifeline is in the co-region or if the left operand avoids it.
pub open spec fn commuting_right(f: Seq<FrontierElement>, cr: Seq<usize>, t1: Term) -> Seq<
    FrontierElement,
>
    decreases f.len(),
{
    if f.len() == 0 {
        f
    } else {
        let front = commuting_right(f.drop_last(), cr, t1);
        let e = f.last();
        if cr.contains(e.target_action.lf_id) || t1.avoids(e.target_action.lf_id) {
            front.push(shifted_right(e))
        } else {
            front
        }
    }
}

/// One element for the two branches of a choice that show the same action.
pub open spec fn paired(e1: FrontierElement, e2: FrontierElement) -> FrontierElement {
    FrontierElement {
        position: Position::Both(Box::new(e1.position), Box::new(e2.position)),
        target_action: e1.target_action,
        max_loop_depth: max_depth(e1.max_loop_depth, e2.max_loop_depth),
    }
}

/// `e1` paired with each element of `f2` that shows the same action.
pub open spec fn pairs_with(e1: FrontierElement, f2: Seq<FrontierElement>) -> Seq<FrontierElement>
    decreases f2.len(),
{
    if f2.len() == 0 {
        f2
    } else {
        let front = pairs_with(e1, f2.drop_last());
        if f2.last().target_action == e1.target_action {
            front.push(paired(e1, f2.last()))
        } else {
            front
        }
    }
}

/// The pairs of an element of `f1` and an element of `f2` that show the
/// same action, by the order of `f1` and then of `f2`.
pub open spec fn alt_pairs(f1: Seq<FrontierElement>, f2: Seq<FrontierElement>) -> Seq<
    FrontierElement,
>
    decreases f1.len(),
{
    if f1.len() == 0 {
        f1
    } else {
        alt_pairs(f1.drop_last(), f2) + pairs_with(f1.last(), f2)
    }
}

/// Some element of `f` shows the action of `e`.
pub open spec fn has_match(e: FrontierElement, f: Seq<FrontierElement>) -> bool {
    exists|j: int| 0 <= j < f.len() && (#[trigger] f[j]).target_action == e.target_action
}

/// The elements of `f` whose action no element of `other` shows, shifted
/// to the side they come from.
pub open spec fn unmatched(f: Seq<FrontierElement>, other: Seq<FrontierElement>, left: bool) -> Seq<
    FrontierElement,
>
    decreases f.len(),
{
    if f.len() == 0 {
        f
    } else {
        let front = unmatched(f.drop_last(), other, left);
        if has_match(f.last(), other) {
            front
        } else {
            front.push(shifted(f.last(), left))
        }
    }
}

/// The part of an action that the map leaves alone: the whole action where
/// the map has no entry for it, and else its messages without the expected
/// ones, if any are left.
pub open spec fn sync_passing(
    f: Seq<FrontierElement>,
    sync: Seq<SyncEntry>,
    ctx: ContextView,
    left: bool,
) -> Seq<FrontierElement>
    decreases f.len(),
{
    if f.len() == 0 {
        f
    } else {
        let front = sync_passing(f.drop_last(), sync, ctx, left);
        let e = f.last();
        match lookup(sync, e.target_action.lf_id, e.target_action.act_kind) {
            None => front.push(shifted(e, left)),
            Some(mt) => {
                let rest = MessageTypeExpression::SetMinus(
                    Box::new(e.target_action.message),
                    Box::new(mt),
                );
                if rest.resolve_spec(ctx).is_empty() {
                    front
                } else {
                    front.push(shifted(narrowed(e, rest.simplify_spec(ctx)), left))
                }
            },
        }
    }
}

/// The part of an action on which the two operands must meet: its messages
/// among the expected ones, if there are any.
pub open spec fn sync_candidates(
    f: Seq<FrontierElement>,
    sync: Seq<SyncEntry>,
    ctx: ContextView,
) -> Seq<FrontierElement>
    decreases f.len(),
{
    if f.len() == 0 {
        f
    } else {
        let front = sync_candidates(f.drop_last(), sync, ctx);
        let e = f.last();
        match lookup(sync, e.target_action.lf_id, e.target_action.act_kind) {
            None => front,
            Some(mt) => {
                let common = MessageTypeExpression::Intersection(
                    Box::new(e.target_action.message),
                    Box::new(mt),
                );
                if common.resolve_spec(ctx).is_empty() {
                    front
                } else {
                    front.push(narrowed(e, common.simplify_spec(ctx)))
                }
            },
        }
    }
}

/// The messages that two actions share.
pub open spec fn shared(a: TraceAction, b: TraceAction) -> MessageTypeExpression {
    MessageTypeExpression::Intersection(Box::new(a.message), Box::new(b.message))
}

/// Same lifeline, same kind, and a message in common.
pub open spec fn can_meet(a: TraceAction, b: TraceAction, ctx: ContextView) -> bool {
    a.lf_id == b.lf_id && a.act_kind == b.act_kind && !shared(a, b).resolve_spec(ctx).is_empty()
}

/// The one element for two candidates that meet.
pub open spec fn met(e1: FrontierElement, e2: FrontierElement, ctx: ContextView) -> FrontierElement {
    FrontierElement {
        position: Position::Both(Box::new(e1.position), Box::new(e2.position)),
        target_action: TraceAction {
            lf_id: e1.target_action.lf_id,
            act_kind: e1.target_action.act_kind,
            message: shared(e1.target_action, e2.target_action).simplify_spec(ctx),
        },
        max_loop_depth: max_depth(e1.max_loop_depth, e2.max_loop_depth),
    }
}

/// `e1` met with each candidate of `c2` that it can meet.
pub open spec fn meetings_with(e1: FrontierElement, c2: Seq<FrontierElement>, ctx: ContextView) -> Seq<
    FrontierElement,
>
    decreases c2.len(),
{
    if c2.len() == 0 {
        c2
    } else {
        let front = meetings_with(e1, c2.drop_last(), ctx);
        if can_meet(e1.target_action, c2.last().target_action, ctx) {
            front.push(met(e1, c2.last(), ctx))
        } else {
            front
        }
    }
}

/// The meetings of a candidate of `c1` and one of `c2`, by the order of
/// `c1` and then of `c2`.
pub open spec fn rendezvous(c1: Seq<FrontierElement>, c2: Seq<FrontierElement>, ctx: ContextView) -> Seq<
    FrontierElement,
>
    decreases c1.len(),
{
    if c1.len() == 0 {
        c1
    } else {
        rendezvous(c1.drop_last(), c2, ctx) + meetings_with(c1.last(), c2, ctx)
    }
}

/// `e` narrowed to each action of `heads` that it can meet.
pub open spec fn matches_of(e: FrontierElement, heads: Seq<TraceAction>, ctx: ContextView) -> Seq<
    FrontierElement,
>
    decreases heads.len(),
{
    if heads.len() == 0 {
        Seq::empty()
    } else {
        let front = matches_of(e, heads.drop_last(), ctx);
        if can_meet(heads.last(), e.target_action, ctx) {
            front.push(narrowed(e, shared(heads.last(), e.target_action).simplify_spec(ctx)))
        } else {
            front
        }
    }
}

/// The elements of `f` narrowed to the actions of `heads`, by the order of
/// `f` and then of `heads`.
pub open spec fn matched_against(f: Seq<FrontierElement>, heads: Seq<TraceAction>, ctx: ContextView) -> Seq<
    FrontierElement,
>
    decreases f.len(),
{
    if f.len() == 0 {
        f
    } else {
        matched_against(f.drop_last(), heads, ctx) + matches_of(f.last(), heads, ctx)
    }
}

impl Term {
    /// The actions that can fire at once in the term, which stands under
    /// `depth` loops.
    ///
    /// An action shows its emission, or else one reception for each target
    /// left. A loop shows what its body shows, one loop deeper. A sequence
    /// shows its left operand, and of its right operand what commutes with
    /// the left. A choice shows each action once: an action that both
    /// branches show fires in both. A synchronisation lets pass what its
    /// map does not expect, and shows one element where both operands offer
    /// the same expected action.
    pub open spec fn frontier(self, depth: nat, ctx: ContextView) -> Seq<FrontierElement>
        decreases self,
    {
        match self {
            Term::Empty => Seq::empty(),
            Term::Action(bp) => match bp.origin {
                Some(origin) => seq![
                    FrontierElement {
                        position: Position::Epsilon(None),
                        target_action: TraceAction {
                            lf_id: origin,
                            act_kind: TraceActionKind::Emission,
                            message: bp.message_type,
                        },
                        max_loop_depth: depth as u32,
                    },
                ],
                None => Seq::new(
                    bp.targets.len(),
                    |k: int|
                        FrontierElement {
                            position: Position::Epsilon(Some(k as usize)),
                            target_action: TraceAction {
                                lf_id: bp.targets[k],
                                act_kind: TraceActionKind::Reception,
                                message: bp.message_type,
                            },
                            max_loop_depth: depth as u32,
                        },
                ),
            },
            Term::Loop(_, t1) => all_left(t1.frontier(depth + 1, ctx)),
            Term::CoReg(cr, t1, t2) => all_left(t1.frontier(depth, ctx)) + commuting_right(
                t2.frontier(depth, ctx),
                cr,
                *t1,
            ),
            Term::Alt(t1, t2) => {
                let f1 = t1.frontier(depth, ctx);
                let f2 = t2.frontier(depth, ctx);
                alt_pairs(f1, f2) + unmatched(f1, f2, true) + unmatched(f2, f1, false)
            },
            Term::Sync(sync, t1, t2) => {
                let f1 = t1.frontier(depth, ctx);
                let f2 = t2.frontier(depth, ctx);
                sync_passing(f1, sync, ctx, true) + sync_passing(f2, sync, ctx, false) + rendezvous(
                    sync_candidates(f1, sync, ctx),
                    sync_candidates(f2, sync, ctx),
                    ctx,
                )
            },
        }
    }

    /// The frontier of a whole term. With actions to match, each element
    /// is narrowed to each of them that it can meet, and the others are
    /// left out.
    pub open spec fn global_frontier(self, ctx: ContextView, to_match: Option<Seq<TraceAction>>) -> Seq<
        FrontierElement,
    > {
        match to_match {
            None => self.frontier(0, ctx),
            Some(heads) => matched_against(self.frontier(0, ctx), heads, ctx),
        }
    }
}


fn push_frontier_left(frontier: &mut Vec<FrontierElement>) -> (r: Vec<FrontierElement>)
    ensures
        r@ == all_left(old(frontier)@),
        final(frontier)@.len() == 0,
{
    let mut r: Vec<FrontierElement> = Vec::new();
    let mut i: usize = 0;
    while i < frontier.len()
        invariant
            i <= frontier.len(),
            frontier@ == old(frontier)@,
            r@.len() == i,
            forall|j: int| 0 <= j < i ==> r@[j] == shifted_left(frontier@[j]),
        decreases frontier.len() - i,
    {
        let e = &frontier[i];
        r.push(
            FrontierElement::new(
                Position::Left(Box::new(e.position.clone())),
                e.target_action.clone(),
                e.max_loop_depth,
            ),
        );
        i += 1;
    }
    frontier.clear();
    proof {
        assert(r@ =~= all_left(old(frontier)@));
    }
    r
}

fn shift(e: &FrontierElement, message: MessageTypeExpression, left: bool) -> (r: FrontierElement)
    ensures
        r == shifted(narrowed(*e, message), left),
{
    let position = if left {
        Position::Left(Box::new(e.position.clone()))
    } else {
        Position::Right(Box::new(e.position.clone()))
    };
    FrontierElement::new(
        position,
        TraceAction::new(e.target_action.lf_id, e.target_action.act_kind, message),
        e.max_loop_depth,
    )
}

/// Appends to `front` what the right operand of a sequence shows.
fn push_commuting(
    front: &mut Vec<FrontierElement>,
    f2: &Vec<FrontierElement>,
    cr: &Vec<usize>,
    i1: &Interaction,
)
    ensures
        final(front)@ == old(front)@ + commuting_right(f2@, cr@, i1@),
{
    let ghost head = front@;
    let mut i: usize = 0;
    proof {
        assert(f2@.take(0) =~= Seq::<FrontierElement>::empty());
        assert(front@ =~= head + commuting_right(f2@.take(0), cr@, i1@));
    }
    while i < f2.len()
        invariant
            i <= f2.len(),
            front@ == head + commuting_right(f2@.take(i as int), cr@, i1@),
        decreases f2.len() - i,
    {
        proof {
            assert(f2@.take(i + 1).drop_last() =~= f2@.take(i as int));
            assert(f2@.take(i + 1).last() == f2@[i as int]);
        }
        let e = &f2[i];
        if ids_contain(cr, e.target_action.lf_id) || i1.avoids(e.target_action.lf_id) {
            let ghost before = commuting_right(f2@.take(i as int), cr@, i1@);
            front.push(shift(e, e.target_action.message.clone(), false));
            proof {
                assert(narrowed(*e, e.target_action.message) == *e);
                assert(head + before.push(shifted_right(*e)) =~= (head + before).push(
                    shifted_right(*e),
                ));
            }
        }
        i += 1;
    }
    proof {
        assert(f2@.take(f2.len() as int) =~= f2@);
    }
}

fn shows(f: &Vec<FrontierElement>, e: &FrontierElement) -> (r: bool)
    ensures
        r == has_match(*e, f@),
{
    let mut j: usize = 0;
    while j < f.len()
        invariant
            j <= f.len(),
            forall|k: int| 0 <= k < j ==> (#[trigger] f@[k]).target_action != e.target_action,
        decreases f.len() - j,
    {
        if f[j].target_action == e.target_action {
            return true;
        }
        j += 1;
    }
    false
}

/// Appends to `front` the elements of `f` that `other` does not show.
fn push_unmatched(
    front: &mut Vec<FrontierElement>,
    f: &Vec<FrontierElement>,
    other: &Vec<FrontierElement>,
    left: bool,
)
    ensures
        final(front)@ == old(front)@ + unmatched(f@, other@, left),
{
    let ghost head = front@;
    let mut i: usize = 0;
    proof {
        assert(f@.take(0) =~= Seq::<FrontierElement>::empty());
        assert(front@ =~= head + unmatched(f@.take(0), other@, left));
    }
    while i < f.len()
        invariant
            i <= f.len(),
            front@ == head + unmatched(f@.take(i as int), other@, left),
        decreases f.len() - i,
    {
        proof {
            assert(f@.take(i + 1).drop_last() =~= f@.take(i as int));
            assert(f@.take(i + 1).last() == f@[i as int]);
        }
        let e = &f[i];
        if !shows(other, e) {
            let ghost before = unmatched(f@.take(i as int), other@, left);
            front.push(shift(e, e.target_action.message.clone(), left));
            proof {
                assert(narrowed(*e, e.target_action.message) == *e);
                assert(head + before.push(shifted(*e, left)) =~= (head + before).push(
                    shifted(*e, left),
                ));
            }
        }
        i += 1;
    }
    proof {
        assert(f@.take(f.len() as int) =~= f@);
    }
}

/// The pairs of elements of the two frontiers that show the same action.
fn pair_up(f1: &Vec<FrontierElement>, f2: &Vec<FrontierElement>) -> (r: Vec<FrontierElement>)
    ensures
        r@ == alt_pairs(f1@, f2@),
{
    let mut r: Vec<FrontierElement> = Vec::new();
    let mut i: usize = 0;
    proof {
        assert(f1@.take(0) =~= Seq::<FrontierElement>::empty());
    }
    while i < f1.len()
        invariant
            i <= f1.len(),
            r@ == alt_pairs(f1@.take(i as int), f2@),
        decreases f1.len() - i,
    {
        proof {
            assert(f1@.take(i + 1).drop_last() =~= f1@.take(i as int));
            assert(f1@.take(i + 1).last() == f1@[i as int]);
        }
        let e1 = &f1[i];
        let ghost head = r@;
        let mut j: usize = 0;
        proof {
            assert(f2@.take(0) =~= Seq::<FrontierElement>::empty());
            assert(r@ =~= head + pairs_with(*e1, f2@.take(0)));
        }
        while j < f2.len()
            invariant
                j <= f2.len(),
                r@ == head + pairs_with(*e1, f2@.take(j as int)),
            decreases f2.len() - j,
        {
            proof {
                assert(f2@.take(j + 1).drop_last() =~= f2@.take(j as int));
                assert(f2@.take(j + 1).last() == f2@[j as int]);
            }
            let e2 = &f2[j];
            if e1.target_action == e2.target_action {
                let ghost before = pairs_with(*e1, f2@.take(j as int));
                let depth = if e1.max_loop_depth >= e2.max_loop_depth {
                    e1.max_loop_depth
                } else {
                    e2.max_loop_depth
                };
                r.push(
                    FrontierElement::new(
                        Position::Both(
                            Box::new(e1.position.clone()),
                            Box::new(e2.position.clone()),
                        ),
                        e1.target_action.clone(),
                        depth,
                    ),
                );
                proof {
                    assert(head + before.push(paired(*e1, *e2)) =~= (head + before).push(
                        paired(*e1, *e2),
                    ));
                }
            }
            j += 1;
        }
        proof {
            assert(f2@.take(f2.len() as int) =~= f2@);
        }
        i += 1;
    }
    proof {
        assert(f1@.take(f1.len() as int) =~= f1@);
    }
    r
}

/// Appends to `front` what the map lets pass of `f`, and to `candidates`
/// what it holds back for a meeting.
fn split_by_sync(
    front: &mut Vec<FrontierElement>,
    candidates: &mut Vec<FrontierElement>,
    f: &Vec<FrontierElement>,
    sync: &SyncMap,
    gen_ctx: &GeneralContext,
    left: bool,
)
    requires
        old(candidates)@.len() == 0,
        frontier_well_formed(old(front)@, gen_ctx@),
        frontier_well_formed(f@, gen_ctx@),
        entries_well_formed(sync@, gen_ctx@),
    ensures
        final(front)@ == old(front)@ + sync_passing(f@, sync@, gen_ctx@, left),
        final(candidates)@ == sync_candidates(f@, sync@, gen_ctx@),
        frontier_well_formed(final(front)@, gen_ctx@),
        frontier_well_formed(final(candidates)@, gen_ctx@),
{
    let ghost head = front@;
    let mut i: usize = 0;
    proof {
        assert(f@.take(0) =~= Seq::<FrontierElement>::empty());
        assert(front@ =~= head + sync_passing(f@.take(0), sync@, gen_ctx@, left));
        assert(candidates@ =~= sync_candidates(f@.take(0), sync@, gen_ctx@));
    }
    while i < f.len()
        invariant
            i <= f.len(),
            frontier_well_formed(f@, gen_ctx@),
            entries_well_formed(sync@, gen_ctx@),
            front@ == head + sync_passing(f@.take(i as int), sync@, gen_ctx@, left),
            candidates@ == sync_candidates(f@.take(i as int), sync@, gen_ctx@),
            frontier_well_formed(front@, gen_ctx@),
            frontier_well_formed(candidates@, gen_ctx@),
        decreases f.len() - i,
    {
        proof {
            assert(f@.take(i + 1).drop_last() =~= f@.take(i as int));
            assert(f@.take(i + 1).last() == f@[i as int]);
            lemma_lookup_well_formed(
                sync@,
                f@[i as int].target_action.lf_id,
                f@[i as int].target_action.act_kind,
                gen_ctx@,
            );
        }
        let e = &f[i];
        let ghost passing = sync_passing(f@.take(i as int), sync@, gen_ctx@, left);
        let ghost old_front = front@;
        let ghost old_candidates = candidates@;
        match sync.get(e.target_action.lf_id, e.target_action.act_kind) {
            None => {
                front.push(shift(e, e.target_action.message.clone(), left));
                proof {
                    assert(narrowed(*e, e.target_action.message) == *e);
                    assert(head + passing.push(shifted(*e, left)) =~= (head + passing).push(
                        shifted(*e, left),
                    ));
                    assert forall|k: int| 0 <= k < front@.len() implies (
                    #[trigger] front@[k]).target_action.well_formed(gen_ctx@) by {
                        if k < old_front.len() {
                            assert(front@[k] == old_front[k]);
                        }
                    }
                }
            },
            Some(ms_type) => {
                let intersect = MessageTypeExpression::Intersection(
                    Box::new(e.target_action.message.clone()),
                    Box::new(ms_type.clone()),
                );
                if !intersect.resolve(gen_ctx).is_empty() {
                    candidates.push(
                        FrontierElement::new(
                            e.position.clone(),
                            TraceAction::new(
                                e.target_action.lf_id,
                                e.target_action.act_kind,
                                intersect.simplify(gen_ctx),
                            ),
                            e.max_loop_depth,
                        ),
                    );
                    proof {
                        assert forall|k: int| 0 <= k < candidates@.len() implies (
                        #[trigger] candidates@[k]).target_action.well_formed(gen_ctx@) by {
                            if k < old_candidates.len() {
                                assert(candidates@[k] == old_candidates[k]);
                            }
                        }
                    }
                }
                let setminus = MessageTypeExpression::SetMinus(
                    Box::new(e.target_action.message.clone()),
                    Box::new(ms_type.clone()),
                );
                if !setminus.resolve(gen_ctx).is_empty() {
                    let rest = setminus.simplify(gen_ctx);
                    front.push(shift(e, rest, left));
                    proof {
                        assert(head + passing.push(shifted(narrowed(*e, rest), left)) =~= (head
                            + passing).push(shifted(narrowed(*e, rest), left)));
                        assert forall|k: int| 0 <= k < front@.len() implies (
                        #[trigger] front@[k]).target_action.well_formed(gen_ctx@) by {
                            if k < old_front.len() {
                                assert(front@[k] == old_front[k]);
                            }
                        }
                    }
                }
            },
        }
        i += 1;
    }
    proof {
        assert(f@.take(f.len() as int) =~= f@);
    }
}

/// Appends to `front` the meetings of the candidates of the two operands.
fn push_rendezvous(
    front: &mut Vec<FrontierElement>,
    c1: &Vec<FrontierElement>,
    c2: &Vec<FrontierElement>,
    gen_ctx: &GeneralContext,
)
    requires
        frontier_well_formed(old(front)@, gen_ctx@),
        frontier_well_formed(c1@, gen_ctx@),
        frontier_well_formed(c2@, gen_ctx@),
    ensures
        final(front)@ == old(front)@ + rendezvous(c1@, c2@, gen_ctx@),
        frontier_well_formed(final(front)@, gen_ctx@),
{
    let ghost head = front@;
    let mut i: usize = 0;
    proof {
        assert(c1@.take(0) =~= Seq::<FrontierElement>::empty());
        assert(front@ =~= head + rendezvous(c1@.take(0), c2@, gen_ctx@));
    }
    while i < c1.len()
        invariant
            i <= c1.len(),
            frontier_well_formed(c1@, gen_ctx@),
            frontier_well_formed(c2@, gen_ctx@),
            frontier_well_formed(front@, gen_ctx@),
            front@ == head + rendezvous(c1@.take(i as int), c2@, gen_ctx@),
        decreases c1.len() - i,
    {
        proof {
            assert(c1@.take(i + 1).drop_last() =~= c1@.take(i as int));
            assert(c1@.take(i + 1).last() == c1@[i as int]);
        }
        let e1 = &c1[i];
        let ghost outer = front@;
        let mut j: usize = 0;
        proof {
            assert(c2@.take(0) =~= Seq::<FrontierElement>::empty());
            assert(front@ =~= outer + meetings_with(*e1, c2@.take(0), gen_ctx@));
        }
        while j < c2.len()
            invariant
                j <= c2.len(),
                e1.target_action.well_formed(gen_ctx@),
                frontier_well_formed(c2@, gen_ctx@),
                frontier_well_formed(front@, gen_ctx@),
                front@ == outer + meetings_with(*e1, c2@.take(j as int), gen_ctx@),
            decreases c2.len() - j,
        {
            proof {
                assert(c2@.take(j + 1).drop_last() =~= c2@.take(j as int));
                assert(c2@.take(j + 1).last() == c2@[j as int]);
            }
            let e2 = &c2[j];
            if e1.target_action.lf_id == e2.target_action.lf_id && e1.target_action.act_kind
                == e2.target_action.act_kind {
                let intersect = MessageTypeExpression::Intersection(
                    Box::new(e1.target_action.message.clone()),
                    Box::new(e2.target_action.message.clone()),
                );
                if !intersect.resolve(gen_ctx).is_empty() {
                    let ghost before = meetings_with(*e1, c2@.take(j as int), gen_ctx@);
                    let ghost old_front = front@;
                    let depth = if e1.max_loop_depth >= e2.max_loop_depth {
                        e1.max_loop_depth
                    } else {
                        e2.max_loop_depth
                    };
                    front.push(
                        FrontierElement::new(
                            Position::Both(
                                Box::new(e1.position.clone()),
                                Box::new(e2.position.clone()),
                            ),
                            TraceAction::new(
                                e1.target_action.lf_id,
                                e1.target_action.act_kind,
                                intersect.simplify(gen_ctx),
                            ),
                            depth,
                        ),
                    );
                    proof {
                        assert(outer + before.push(met(*e1, *e2, gen_ctx@)) =~= (outer
                            + before).push(met(*e1, *e2, gen_ctx@)));
                        assert forall|k: int| 0 <= k < front@.len() implies (
                        #[trigger] front@[k]).target_action.well_formed(gen_ctx@) by {
                            if k < old_front.len() {
                                assert(front@[k] == old_front[k]);
                            }
                        }
                    }
                }
            }
            j += 1;
        }
        proof {
            assert(c2@.take(c2.len() as int) =~= c2@);
            assert(head + (rendezvous(c1@.take(i as int), c2@, gen_ctx@) + meetings_with(
                *e1,
                c2@,
                gen_ctx@,
            )) =~= (head + rendezvous(c1@.take(i as int), c2@, gen_ctx@)) + meetings_with(
                *e1,
                c2@,
                gen_ctx@,
            ));
        }
        i += 1;
    }
    proof {
        assert(c1@.take(c1.len() as int) =~= c1@);
    }
}

/// The elements of `f` narrowed to the actions of `heads`.
fn match_heads(f: &Vec<FrontierElement>, heads: &Vec<TraceAction>, gen_ctx: &GeneralContext) -> (r:
    Vec<FrontierElement>)
    requires
        frontier_well_formed(f@, gen_ctx@),
        forall|i: int| 0 <= i < heads@.len() ==> (#[trigger] heads@[i]).well_formed(gen_ctx@),
    ensures
        r@ == matched_against(f@, heads@, gen_ctx@),
        frontier_well_formed(r@, gen_ctx@),
{
    let mut frt: Vec<FrontierElement> = Vec::new();
    let mut i: usize = 0;
    proof {
        assert(f@.take(0) =~= Seq::<FrontierElement>::empty());
    }
    while i < f.len()
        invariant
            i <= f.len(),
            frontier_well_formed(f@, gen_ctx@),
            forall|k: int| 0 <= k < heads@.len() ==> (#[trigger] heads@[k]).well_formed(gen_ctx@),
            frontier_well_formed(frt@, gen_ctx@),
            frt@ == matched_against(f@.take(i as int), heads@, gen_ctx@),
        decreases f.len() - i,
    {
        proof {
            assert(f@.take(i + 1).drop_last() =~= f@.take(i as int));
            assert(f@.take(i + 1).last() == f@[i as int]);
        }
        let frt_elt = &f[i];
        let ghost outer = frt@;
        let mut j: usize = 0;
        proof {
            assert(heads@.take(0) =~= Seq::<TraceAction>::empty());
            assert(frt@ =~= outer + matches_of(*frt_elt, heads@.take(0), gen_ctx@));
        }
        while j < heads.len()
            invariant
                j <= heads.len(),
                frt_elt.target_action.well_formed(gen_ctx@),
                forall|k: int|
                    0 <= k < heads@.len() ==> (#[trigger] heads@[k]).well_formed(gen_ctx@),
                frontier_well_formed(frt@, gen_ctx@),
                frt@ == outer + matches_of(*frt_elt, heads@.take(j as int), gen_ctx@),
            decreases heads.len() - j,
        {
            proof {
                assert(heads@.take(j + 1).drop_last() =~= heads@.take(j as int));
                assert(heads@.take(j + 1).last() == heads@[j as int]);
            }
            let to_match = &heads[j];
            if to_match.lf_id == frt_elt.target_action.lf_id && to_match.act_kind
                == frt_elt.target_action.act_kind {
                let intersect = MessageTypeExpression::Intersection(
                    Box::new(to_match.message.clone()),
                    Box::new(frt_elt.target_action.message.clone()),
                );
                if !intersect.resolve(gen_ctx).is_empty() {
                    let ghost before = matches_of(*frt_elt, heads@.take(j as int), gen_ctx@);
                    let ghost old_frt = frt@;
                    let narrowed_to = intersect.simplify(gen_ctx);
                    frt.push(
                        FrontierElement::new(
                            frt_elt.position.clone(),
                            TraceAction::new(
                                frt_elt.target_action.lf_id,
                                frt_elt.target_action.act_kind,
                                narrowed_to,
                            ),
                            frt_elt.max_loop_depth,
                        ),
                    );
                    proof {
                        assert(outer + before.push(narrowed(*frt_elt, narrowed_to)) =~= (outer
                            + before).push(narrowed(*frt_elt, narrowed_to)));
                        assert forall|k: int| 0 <= k < frt@.len() implies (
                        #[trigger] frt@[k]).target_action.well_formed(gen_ctx@) by {
                            if k < old_frt.len() {
                                assert(frt@[k] == old_frt[k]);
                            }
                        }
                    }
                }
            }
            j += 1;
        }
        proof {
            assert(heads@.take(heads.len() as int) =~= heads@);
        }
        i += 1;
    }
    proof {
        assert(f@.take(f.len() as int) =~= f@);
    }
    frt
}

/// The frontier of a whole term: see `Term::global_frontier`. Each of its
/// elements can be executed in the term.
pub fn global_frontier(
    interaction: &Interaction,
    gen_ctx: &GeneralContext,
    to_match: &Option<Vec<TraceAction>>,
) -> (r: Vec<FrontierElement>)
    requires
        interaction@.well_formed(gen_ctx@),
        interaction@.max_nested_loop_depth() <= u32::MAX,
        to_match matches Some(heads) ==> forall|i: int|
            0 <= i < heads@.len() ==> (#[trigger] heads@[i]).well_formed(gen_ctx@),
    ensures
        r@ == interaction@.global_frontier(
            gen_ctx@,
            match to_match {
                Some(heads) => Some(heads@),
                None => None,
            },
        ),
        frontier_well_formed(r@, gen_ctx@),
        forall|i: int|
            0 <= i < r@.len() ==> interaction@.executable(
                (#[trigger] r@[i]).position,
                r@[i].target_action,
                gen_ctx@,
            ),
{
    let whole = abstract_frontier_rec(interaction, 0, gen_ctx);
    let r = match to_match {
        None => whole,
        Some(to_match_set) => match_heads(&whole, to_match_set, gen_ctx),
    };
    proof {
        assert forall|i: int| 0 <= i < r@.len() implies interaction@.executable(
            (#[trigger] r@[i]).position,
            r@[i].target_action,
            gen_ctx@,
        ) by {
            match to_match {
                None => {
                    crate::frontier_laws::lemma_frontier_executable(interaction@, gen_ctx@, i);
                },
                Some(heads) => {
                    crate::frontier_laws::lemma_matched_frontier_executable(
                        interaction@,
                        heads@,
                        gen_ctx@,
                        i,
                    );
                },
            }
        }
    }
    r
}

/// The frontier of a term that stands under `loop_depth` loops: see
/// `Term::frontier`.
pub fn abstract_frontier_rec(interaction: &Interaction, loop_depth: u32, gen_ctx: &GeneralContext) -> (r:
    Vec<FrontierElement>)
    requires
        interaction@.well_formed(gen_ctx@),
        loop_depth + interaction@.max_nested_loop_depth() <= u32::MAX,
    ensures
        r@ == interaction@.frontier(loop_depth as nat, gen_ctx@),
        frontier_well_formed(r@, gen_ctx@),
    decreases *interaction,
{
    match interaction {
        Interaction::Empty => Vec::new(),
        Interaction::Action(bp) => {
            let mut frt: Vec<FrontierElement> = Vec::new();
            if let Some(origin) = bp.origin_on_emission {
                frt.push(
                    FrontierElement::new(
                        Position::Epsilon(None),
                        TraceAction::new(
                            origin,
                            TraceActionKind::Emission,
                            bp.message_type.clone(),
                        ),
                        loop_depth,
                    ),
                );
                proof {
                    assert(frt@ =~= interaction@.frontier(loop_depth as nat, gen_ctx@));
                }
            } else {
                let mut rcp_idx: usize = 0;
                while rcp_idx < bp.targets.len()
                    invariant
                        rcp_idx <= bp.targets.len(),
                        bp.message_type.well_formed(gen_ctx@),
                        frt@.len() == rcp_idx,
                        forall|k: int|
                            0 <= k < rcp_idx ==> #[trigger] frt@[k] == (FrontierElement {
                                position: Position::Epsilon(Some(k as usize)),
                                target_action: TraceAction {
                                    lf_id: bp.targets@[k],
                                    act_kind: TraceActionKind::Reception,
                                    message: bp.message_type,
                                },
                                max_loop_depth: loop_depth,
                            }),
                    decreases bp.targets.len() - rcp_idx,
                {
                    frt.push(
                        FrontierElement::new(
                            Position::Epsilon(Some(rcp_idx)),
                            TraceAction::new(
                                bp.targets[rcp_idx],
                                TraceActionKind::Reception,
                                bp.message_type.clone(),
                            ),
                            loop_depth,
                        ),
                    );
                    rcp_idx += 1;
                }
                proof {
                    assert(frt@ =~= interaction@.frontier(loop_depth as nat, gen_ctx@));
                }
            }
            frt
        },
        Interaction::CoReg(cr, i1, i2) => {
            let mut left = abstract_frontier_rec(i1, loop_depth, gen_ctx);
            let mut front = push_frontier_left(&mut left);
            let right = abstract_frontier_rec(i2, loop_depth, gen_ctx);
            push_commuting(&mut front, &right, cr, i1);
            proof {
                lemma_frontier_well_formed(interaction@, loop_depth as nat, gen_ctx@);
            }
            front
        },
        Interaction::Alt(i1, i2) => {
            let frt1 = abstract_frontier_rec(i1, loop_depth, gen_ctx);
            let frt2 = abstract_frontier_rec(i2, loop_depth, gen_ctx);
            let mut new_front = pair_up(&frt1, &frt2);
            push_unmatched(&mut new_front, &frt1, &frt2, true);
            push_unmatched(&mut new_front, &frt2, &frt1, false);
            proof {
                lemma_frontier_well_formed(interaction@, loop_depth as nat, gen_ctx@);
            }
            new_front
        },
        Interaction::Sync(sync_acts, i1, i2) => {
            let mut new_front: Vec<FrontierElement> = Vec::new();
            let mut rem_frt1: Vec<FrontierElement> = Vec::new();
            let mut rem_frt2: Vec<FrontierElement> = Vec::new();
            let frt1 = abstract_frontier_rec(i1, loop_depth, gen_ctx);
            split_by_sync(&mut new_front, &mut rem_frt1, &frt1, sync_acts, gen_ctx, true);
            let frt2 = abstract_frontier_rec(i2, loop_depth, gen_ctx);
            split_by_sync(&mut new_front, &mut rem_frt2, &frt2, sync_acts, gen_ctx, false);
            push_rendezvous(&mut new_front, &rem_frt1, &rem_frt2, gen_ctx);
            proof {
                assert(new_front@ =~= interaction@.frontier(loop_depth as nat, gen_ctx@));
            }
            new_front
        },
        Interaction::Loop(_, i1) => {
            let mut inner = abstract_frontier_rec(i1, loop_depth + 1, gen_ctx);
            let r = push_frontier_left(&mut inner);
            proof {
                lemma_frontier_well_formed(interaction@, loop_depth as nat, gen_ctx@);
            }
            r
        },
    }
}


pub proof fn lemma_wf_push(f: Seq<FrontierElement>, e: FrontierElement, ctx: ContextView)
    requires
        frontier_well_formed(f, ctx),
        e.target_action.well_formed(ctx),
    ensures
        frontier_well_formed(f.push(e), ctx),
{
    assert forall|i: int| 0 <= i < f.push(e).len() implies (
    #[trigger] f.push(e)[i]).target_action.well_formed(ctx) by {
        if i < f.len() {
            assert(f.push(e)[i] == f[i]);
        }
    }
}

pub proof fn lemma_wf_concat(a: Seq<FrontierElement>, b: Seq<FrontierElement>, ctx: ContextView)
    requires
        frontier_well_formed(a, ctx),
        frontier_well_formed(b, ctx),
    ensures
        frontier_well_formed(a + b, ctx),
{
    assert forall|i: int| 0 <= i < (a + b).len() implies (
    #[trigger] (a + b)[i]).target_action.well_formed(ctx) by {
        if i < a.len() {
            assert((a + b)[i] == a[i]);
        } else {
            assert((a + b)[i] == b[i - a.len()]);
        }
    }
}

pub proof fn lemma_wf_drop_last(f: Seq<FrontierElement>, ctx: ContextView)
    requires
        frontier_well_formed(f, ctx),
        f.len() > 0,
    ensures
        frontier_well_formed(f.drop_last(), ctx),
        f.last().target_action.well_formed(ctx),
{
    assert forall|i: int| 0 <= i < f.drop_last().len() implies (
    #[trigger] f.drop_last()[i]).target_action.well_formed(ctx) by {
        assert(f.drop_last()[i] == f[i]);
    }
    assert(f[f.len() - 1] == f.last());
}

pub proof fn lemma_commuting_wf(f: Seq<FrontierElement>, cr: Seq<usize>, t1: Term, ctx: ContextView)
    requires
        frontier_well_formed(f, ctx),
    ensures
        frontier_well_formed(commuting_right(f, cr, t1), ctx),
    decreases f.len(),
{
    if f.len() > 0 {
        lemma_wf_drop_last(f, ctx);
        lemma_commuting_wf(f.drop_last(), cr, t1, ctx);
        lemma_wf_push(commuting_right(f.drop_last(), cr, t1), shifted_right(f.last()), ctx);
    }
}

pub proof fn lemma_pairs_with_wf(e1: FrontierElement, f2: Seq<FrontierElement>, ctx: ContextView)
    requires
        e1.target_action.well_formed(ctx),
    ensures
        frontier_well_formed(pairs_with(e1, f2), ctx),
    decreases f2.len(),
{
    if f2.len() > 0 {
        lemma_pairs_with_wf(e1, f2.drop_last(), ctx);
        lemma_wf_push(pairs_with(e1, f2.drop_last()), paired(e1, f2.last()), ctx);
    }
}

pub proof fn lemma_alt_pairs_wf(f1: Seq<FrontierElement>, f2: Seq<FrontierElement>, ctx: ContextView)
    requires
        frontier_well_formed(f1, ctx),
    ensures
        frontier_well_formed(alt_pairs(f1, f2), ctx),
    decreases f1.len(),
{
    if f1.len() > 0 {
        lemma_wf_drop_last(f1, ctx);
        lemma_alt_pairs_wf(f1.drop_last(), f2, ctx);
        lemma_pairs_with_wf(f1.last(), f2, ctx);
        lemma_wf_concat(alt_pairs(f1.drop_last(), f2), pairs_with(f1.last(), f2), ctx);
    }
}

pub proof fn lemma_unmatched_wf(
    f: Seq<FrontierElement>,
    other: Seq<FrontierElement>,
    left: bool,
    ctx: ContextView,
)
    requires
        frontier_well_formed(f, ctx),
    ensures
        frontier_well_formed(unmatched(f, other, left), ctx),
    decreases f.len(),
{
    if f.len() > 0 {
        lemma_wf_drop_last(f, ctx);
        lemma_unmatched_wf(f.drop_last(), other, left, ctx);
        lemma_wf_push(unmatched(f.drop_last(), other, left), shifted(f.last(), left), ctx);
    }
}

pub proof fn lemma_sync_split_wf(
    f: Seq<FrontierElement>,
    sync: Seq<SyncEntry>,
    ctx: ContextView,
    left: bool,
)
    requires
        frontier_well_formed(f, ctx),
        entries_well_formed(sync, ctx),
    ensures
        frontier_well_formed(sync_passing(f, sync, ctx, left), ctx),
        frontier_well_formed(sync_candidates(f, sync, ctx), ctx),
    decreases f.len(),
{
    if f.len() > 0 {
        lemma_wf_drop_last(f, ctx);
        lemma_sync_split_wf(f.drop_last(), sync, ctx, left);
        let e = f.last();
        lemma_lookup_well_formed(sync, e.target_action.lf_id, e.target_action.act_kind, ctx);
        match lookup(sync, e.target_action.lf_id, e.target_action.act_kind) {
            None => {
                lemma_wf_push(sync_passing(f.drop_last(), sync, ctx, left), shifted(e, left), ctx);
            },
            Some(mt) => {
                let rest = MessageTypeExpression::SetMinus(
                    Box::new(e.target_action.message),
                    Box::new(mt),
                );
                if !rest.resolve_spec(ctx).is_empty() {
                    lemma_simplify_keeps_resolution(rest, ctx);
                    lemma_wf_push(
                        sync_passing(f.drop_last(), sync, ctx, left),
                        shifted(narrowed(e, rest.simplify_spec(ctx)), left),
                        ctx,
                    );
                }
                let common = MessageTypeExpression::Intersection(
                    Box::new(e.target_action.message),
                    Box::new(mt),
                );
                if !common.resolve_spec(ctx).is_empty() {
                    lemma_simplify_keeps_resolution(common, ctx);
                    lemma_wf_push(
                        sync_candidates(f.drop_last(), sync, ctx),
                        narrowed(e, common.simplify_spec(ctx)),
                        ctx,
                    );
                }
            },
        }
    }
}

pub proof fn lemma_meetings_wf(e1: FrontierElement, c2: Seq<FrontierElement>, ctx: ContextView)
    requires
        e1.target_action.well_formed(ctx),
        frontier_well_formed(c2, ctx),
    ensures
        frontier_well_formed(meetings_with(e1, c2, ctx), ctx),
    decreases c2.len(),
{
    if c2.len() > 0 {
        lemma_wf_drop_last(c2, ctx);
        lemma_meetings_wf(e1, c2.drop_last(), ctx);
        if can_meet(e1.target_action, c2.last().target_action, ctx) {
            lemma_simplify_keeps_resolution(
                shared(e1.target_action, c2.last().target_action),
                ctx,
            );
            lemma_wf_push(meetings_with(e1, c2.drop_last(), ctx), met(e1, c2.last(), ctx), ctx);
        }
    }
}

pub proof fn lemma_rendezvous_wf(c1: Seq<FrontierElement>, c2: Seq<FrontierElement>, ctx: ContextView)
    requires
        frontier_well_formed(c1, ctx),
        frontier_well_formed(c2, ctx),
    ensures
        frontier_well_formed(rendezvous(c1, c2, ctx), ctx),
    decreases c1.len(),
{
    if c1.len() > 0 {
        lemma_wf_drop_last(c1, ctx);
        lemma_rendezvous_wf(c1.drop_last(), c2, ctx);
        lemma_meetings_wf(c1.last(), c2, ctx);
        lemma_wf_concat(rendezvous(c1.drop_last(), c2, ctx), meetings_with(c1.last(), c2, ctx), ctx);
    }
}

/// The frontier of a well-formed term holds well-formed actions.
pub proof fn lemma_frontier_well_formed(t: Term, depth: nat, ctx: ContextView)
    requires
        t.well_formed(ctx),
    ensures
        frontier_well_formed(t.frontier(depth, ctx), ctx),
    decreases t,
{
    match t {
        Term::Empty => {},
        Term::Action(bp) => {},
        Term::Loop(_, t1) => {
            lemma_frontier_well_formed(*t1, depth + 1, ctx);
        },
        Term::CoReg(cr, t1, t2) => {
            lemma_frontier_well_formed(*t1, depth, ctx);
            lemma_frontier_well_formed(*t2, depth, ctx);
            lemma_commuting_wf(t2.frontier(depth, ctx), cr, *t1, ctx);
            lemma_wf_concat(
                all_left(t1.frontier(depth, ctx)),
                commuting_right(t2.frontier(depth, ctx), cr, *t1),
                ctx,
            );
        },
        Term::Alt(t1, t2) => {
            let f1 = t1.frontier(depth, ctx);
            let f2 = t2.frontier(depth, ctx);
            lemma_frontier_well_formed(*t1, depth, ctx);
            lemma_frontier_well_formed(*t2, depth, ctx);
            lemma_alt_pairs_wf(f1, f2, ctx);
            lemma_unmatched_wf(f1, f2, true, ctx);
            lemma_unmatched_wf(f2, f1, false, ctx);
            lemma_wf_concat(alt_pairs(f1, f2), unmatched(f1, f2, true), ctx);
            lemma_wf_concat(alt_pairs(f1, f2) + unmatched(f1, f2, true), unmatched(f2, f1, false), ctx);
        },
        Term::Sync(sync, t1, t2) => {
            let f1 = t1.frontier(depth, ctx);
            let f2 = t2.frontier(depth, ctx);
            lemma_frontier_well_formed(*t1, depth, ctx);
            lemma_frontier_well_formed(*t2, depth, ctx);
            lemma_sync_split_wf(f1, sync, ctx, true);
            lemma_sync_split_wf(f2, sync, ctx, false);
            lemma_rendezvous_wf(sync_candidates(f1, sync, ctx), sync_candidates(f2, sync, ctx), ctx);
            lemma_wf_concat(sync_passing(f1, sync, ctx, true), sync_passing(f2, sync, ctx, false), ctx);
            lemma_wf_concat(
                sync_passing(f1, sync, ctx, true) + sync_passing(f2, sync, ctx, false),
                rendezvous(sync_candidates(f1, sync, ctx), sync_candidates(f2, sync, ctx), ctx),
                ctx,
            );
        },
    }
}

} // verus!
