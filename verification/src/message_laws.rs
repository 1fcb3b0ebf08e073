//! Simplifying a message-type expression keeps the set that it denotes, and
//! gives a form that simplifying leaves as it is.

use crate::context::ContextView;
use crate::message::{
    all_well_formed, folded_inter, folded_union, lemma_folded, lemma_merged, lemma_type_denoting,
    merged, reaching_outside, unique, MessageTypeExpression,
};
use vstd::prelude::*;

verus! {

pub open spec fn union_of(frags: Seq<MessageTypeExpression>, ctx: ContextView) -> Set<usize>
    decreases frags.len(),
{
    if frags.len() == 0 {
        Set::empty()
    } else {
        union_of(frags.drop_last(), ctx).union(frags.last().resolve_spec(ctx))
    }
}

/// The messages that every fragment denotes.
pub open spec fn inter_of(frags: Seq<MessageTypeExpression>, ctx: ContextView) -> Set<usize>
    decreases frags.len(),
{
    if frags.len() == 0 {
        Set::full()
    } else {
        inter_of(frags.drop_last(), ctx).intersect(frags.last().resolve_spec(ctx))
    }
}

pub proof fn lemma_union_of_members(frags: Seq<MessageTypeExpression>, ctx: ContextView)
    ensures
        forall|x: usize|
            union_of(frags, ctx).contains(x) <==> exists|i: int|
                0 <= i < frags.len() && (#[trigger] frags[i]).resolve_spec(ctx).contains(x),
        forall|x: usize|
            inter_of(frags, ctx).contains(x) <==> forall|i: int|
                0 <= i < frags.len() ==> (#[trigger] frags[i]).resolve_spec(ctx).contains(x),
    decreases frags.len(),
{
    if frags.len() == 0 {
    } else {
        let front = frags.drop_last();
        lemma_union_of_members(front, ctx);
        assert forall|x: usize|
            union_of(frags, ctx).contains(x) <==> exists|i: int|
                0 <= i < frags.len() && (#[trigger] frags[i]).resolve_spec(ctx).contains(x) by {
            if union_of(front, ctx).contains(x) {
                let i = choose|i: int|
                    0 <= i < front.len() && (#[trigger] front[i]).resolve_spec(ctx).contains(x);
                assert(frags[i] == front[i]);
            }
            if frags.last().resolve_spec(ctx).contains(x) {
                assert(frags[frags.len() - 1].resolve_spec(ctx).contains(x));
            }
            if exists|i: int|
                0 <= i < frags.len() && (#[trigger] frags[i]).resolve_spec(ctx).contains(x) {
                let i = choose|i: int|
                    0 <= i < frags.len() && (#[trigger] frags[i]).resolve_spec(ctx).contains(x);
                if i < front.len() {
                    assert(front[i] == frags[i]);
                }
            }
        }
        assert forall|x: usize|
            inter_of(frags, ctx).contains(x) <==> forall|i: int|
                0 <= i < frags.len() ==> (#[trigger] frags[i]).resolve_spec(ctx).contains(x) by {
            if inter_of(frags, ctx).contains(x) {
                assert(inter_of(front, ctx).contains(x));
                assert forall|i: int| 0 <= i < frags.len() implies (
                #[trigger] frags[i]).resolve_spec(ctx).contains(x) by {
                    if i < front.len() {
                        assert(front[i].resolve_spec(ctx).contains(x));
                        assert(front[i] == frags[i]);
                    } else {
                        assert(frags[i] == frags.last());
                    }
                }
            }
            if forall|i: int|
                0 <= i < frags.len() ==> (#[trigger] frags[i]).resolve_spec(ctx).contains(x) {
                assert forall|i: int| 0 <= i < front.len() implies (
                #[trigger] front[i]).resolve_spec(ctx).contains(x) by {
                    assert(front[i] == frags[i]);
                }
                assert(frags[frags.len() - 1].resolve_spec(ctx).contains(x));
                assert(inter_of(front, ctx).contains(x));
            }
        }
    }
}

pub proof fn lemma_merged_denotes(
    l: Seq<MessageTypeExpression>,
    r: Seq<MessageTypeExpression>,
    ctx: ContextView,
)
    ensures
        union_of(merged(l, r), ctx) == union_of(l, ctx).union(union_of(r, ctx)),
        inter_of(merged(l, r), ctx) == inter_of(l, ctx).intersect(inter_of(r, ctx)),
{
    let m = merged(l, r);
    lemma_merged(l, r, ctx);
    lemma_union_of_members(m, ctx);
    lemma_union_of_members(l, ctx);
    lemma_union_of_members(r, ctx);
    assert forall|x: usize|
        union_of(m, ctx).contains(x) == union_of(l, ctx).union(union_of(r, ctx)).contains(x) by {
        if union_of(m, ctx).contains(x) {
            let i = choose|i: int|
                0 <= i < m.len() && (#[trigger] m[i]).resolve_spec(ctx).contains(x);
            assert(m.contains(m[i]));
            if l.contains(m[i]) {
                let j = choose|j: int| 0 <= j < l.len() && l[j] == m[i];
                assert(l[j].resolve_spec(ctx).contains(x));
            } else {
                let j = choose|j: int| 0 <= j < r.len() && r[j] == m[i];
                assert(r[j].resolve_spec(ctx).contains(x));
            }
        }
        if union_of(l, ctx).contains(x) {
            let j = choose|j: int|
                0 <= j < l.len() && (#[trigger] l[j]).resolve_spec(ctx).contains(x);
            assert(l.contains(l[j]));
            let i = choose|i: int| 0 <= i < m.len() && m[i] == l[j];
            assert(m[i].resolve_spec(ctx).contains(x));
        }
        if union_of(r, ctx).contains(x) {
            let j = choose|j: int|
                0 <= j < r.len() && (#[trigger] r[j]).resolve_spec(ctx).contains(x);
            assert(r.contains(r[j]));
            let i = choose|i: int| 0 <= i < m.len() && m[i] == r[j];
            assert(m[i].resolve_spec(ctx).contains(x));
        }
    }
    assert(union_of(m, ctx) =~= union_of(l, ctx).union(union_of(r, ctx)));
    assert forall|x: usize|
        inter_of(m, ctx).contains(x) == inter_of(l, ctx).intersect(inter_of(r, ctx)).contains(
            x,
        ) by {
        if inter_of(m, ctx).contains(x) {
            assert forall|j: int| 0 <= j < l.len() implies (#[trigger] l[j]).resolve_spec(
                ctx,
            ).contains(x) by {
                assert(l.contains(l[j]));
                let i = choose|i: int| 0 <= i < m.len() && m[i] == l[j];
                assert(m[i].resolve_spec(ctx).contains(x));
            }
            assert forall|j: int| 0 <= j < r.len() implies (#[trigger] r[j]).resolve_spec(
                ctx,
            ).contains(x) by {
                assert(r.contains(r[j]));
                let i = choose|i: int| 0 <= i < m.len() && m[i] == r[j];
                assert(m[i].resolve_spec(ctx).contains(x));
            }
        }
        if inter_of(l, ctx).contains(x) && inter_of(r, ctx).contains(x) {
            assert forall|i: int| 0 <= i < m.len() implies (#[trigger] m[i]).resolve_spec(
                ctx,
            ).contains(x) by {
                assert(m.contains(m[i]));
                if l.contains(m[i]) {
                    let j = choose|j: int| 0 <= j < l.len() && l[j] == m[i];
                    assert(l[j].resolve_spec(ctx).contains(x));
                } else {
                    let j = choose|j: int| 0 <= j < r.len() && r[j] == m[i];
                    assert(r[j].resolve_spec(ctx).contains(x));
                }
            }
        }
    }
    assert(inter_of(m, ctx) =~= inter_of(l, ctx).intersect(inter_of(r, ctx)));
}

pub proof fn lemma_folded_denotes(frags: Seq<MessageTypeExpression>, ctx: ContextView)
    requires
        frags.len() > 0,
    ensures
        folded_union(frags).resolve_spec(ctx) == union_of(frags, ctx),
        folded_inter(frags).resolve_spec(ctx) == inter_of(frags, ctx),
    decreases frags.len(),
{
    lemma_union_of_members(frags, ctx);
    if frags.len() == 1 {
        assert forall|x: usize|
            frags[0].resolve_spec(ctx).contains(x) == union_of(frags, ctx).contains(x) by {}
        assert(frags[0].resolve_spec(ctx) =~= union_of(frags, ctx));
        assert forall|x: usize|
            frags[0].resolve_spec(ctx).contains(x) == inter_of(frags, ctx).contains(x) by {}
        assert(frags[0].resolve_spec(ctx) =~= inter_of(frags, ctx));
    } else {
        let rest = frags.drop_first();
        lemma_folded_denotes(rest, ctx);
        lemma_union_of_members(rest, ctx);
        assert forall|x: usize|
            folded_union(frags).resolve_spec(ctx).contains(x) == union_of(frags, ctx).contains(
                x,
            ) by {
            if union_of(rest, ctx).contains(x) {
                let i = choose|i: int|
                    0 <= i < rest.len() && (#[trigger] rest[i]).resolve_spec(ctx).contains(x);
                assert(frags[i + 1] == rest[i]);
            }
            if union_of(frags, ctx).contains(x) {
                let i = choose|i: int|
                    0 <= i < frags.len() && (#[trigger] frags[i]).resolve_spec(ctx).contains(x);
                if i > 0 {
                    assert(rest[i - 1] == frags[i]);
                }
            }
        }
        assert(folded_union(frags).resolve_spec(ctx) =~= union_of(frags, ctx));
        assert forall|x: usize|
            folded_inter(frags).resolve_spec(ctx).contains(x) == inter_of(frags, ctx).contains(
                x,
            ) by {
            if frags[0].resolve_spec(ctx).contains(x) && inter_of(rest, ctx).contains(x) {
                assert forall|i: int| 0 <= i < frags.len() implies (
                #[trigger] frags[i]).resolve_spec(ctx).contains(x) by {
                    if i > 0 {
                        assert(rest[i - 1] == frags[i]);
                    }
                }
            }
            if inter_of(frags, ctx).contains(x) {
                assert forall|i: int| 0 <= i < rest.len() implies (
                #[trigger] rest[i]).resolve_spec(ctx).contains(x) by {
                    assert(frags[i + 1] == rest[i]);
                }
            }
        }
        assert(folded_inter(frags).resolve_spec(ctx) =~= inter_of(frags, ctx));
    }
}

pub proof fn lemma_one_denotes(e: MessageTypeExpression, ctx: ContextView)
    ensures
        union_of(seq![e], ctx) == e.resolve_spec(ctx),
        inter_of(seq![e], ctx) == e.resolve_spec(ctx),
        union_of(Seq::empty(), ctx) == Set::<usize>::empty(),
        inter_of(Seq::empty(), ctx) == Set::<usize>::full(),
{
    let s = seq![e];
    assert(s.drop_last() =~= Seq::<MessageTypeExpression>::empty());
    assert(s.last() == e);
    assert(union_of(s.drop_last(), ctx) =~= Set::<usize>::empty());
    assert(inter_of(s.drop_last(), ctx) =~= Set::<usize>::full());
    assert(union_of(s, ctx) =~= e.resolve_spec(ctx));
    assert(inter_of(s, ctx) =~= e.resolve_spec(ctx));
}

pub proof fn lemma_concat_denotes(
    l: Seq<MessageTypeExpression>,
    r: Seq<MessageTypeExpression>,
    ctx: ContextView,
)
    ensures
        union_of(l + r, ctx) == union_of(l, ctx).union(union_of(r, ctx)),
        inter_of(l + r, ctx) == inter_of(l, ctx).intersect(inter_of(r, ctx)),
        all_well_formed(l, ctx) && all_well_formed(r, ctx) ==> all_well_formed(l + r, ctx),
{
    let m = l + r;
    lemma_union_of_members(m, ctx);
    lemma_union_of_members(l, ctx);
    lemma_union_of_members(r, ctx);
    assert forall|x: usize|
        union_of(m, ctx).contains(x) == union_of(l, ctx).union(union_of(r, ctx)).contains(x) by {
        if union_of(m, ctx).contains(x) {
            let i = choose|i: int|
                0 <= i < m.len() && (#[trigger] m[i]).resolve_spec(ctx).contains(x);
            if i < l.len() {
                assert(l[i] == m[i]);
            } else {
                assert(r[i - l.len()] == m[i]);
            }
        }
        if union_of(l, ctx).contains(x) {
            let j = choose|j: int|
                0 <= j < l.len() && (#[trigger] l[j]).resolve_spec(ctx).contains(x);
            assert(m[j] == l[j]);
        }
        if union_of(r, ctx).contains(x) {
            let j = choose|j: int|
                0 <= j < r.len() && (#[trigger] r[j]).resolve_spec(ctx).contains(x);
            assert(m[j + l.len()] == r[j]);
        }
    }
    assert(union_of(m, ctx) =~= union_of(l, ctx).union(union_of(r, ctx)));
    assert forall|x: usize|
        inter_of(m, ctx).contains(x) == inter_of(l, ctx).intersect(inter_of(r, ctx)).contains(
            x,
        ) by {
        if inter_of(m, ctx).contains(x) {
            assert forall|j: int| 0 <= j < l.len() implies (#[trigger] l[j]).resolve_spec(
                ctx,
            ).contains(x) by {
                assert(m[j] == l[j]);
            }
            assert forall|j: int| 0 <= j < r.len() implies (#[trigger] r[j]).resolve_spec(
                ctx,
            ).contains(x) by {
                assert(m[j + l.len()] == r[j]);
            }
        }
        if inter_of(l, ctx).contains(x) && inter_of(r, ctx).contains(x) {
            assert forall|i: int| 0 <= i < m.len() implies (#[trigger] m[i]).resolve_spec(
                ctx,
            ).contains(x) by {
                if i < l.len() {
                    assert(l[i] == m[i]);
                } else {
                    assert(r[i - l.len()] == m[i]);
                }
            }
        }
    }
    assert(inter_of(m, ctx) =~= inter_of(l, ctx).intersect(inter_of(r, ctx)));
    if all_well_formed(l, ctx) && all_well_formed(r, ctx) {
        assert forall|i: int| 0 <= i < m.len() implies (#[trigger] m[i]).well_formed(ctx) by {
            if i < l.len() {
                assert(l[i] == m[i]);
            } else {
                assert(r[i - l.len()] == m[i]);
            }
        }
    }
}

/// Removing the repetitions keeps the fragments, and what they denote
/// together.
pub proof fn lemma_unique(s: Seq<MessageTypeExpression>, ctx: ContextView)
    ensures
        union_of(unique(s), ctx) == union_of(s, ctx),
        inter_of(unique(s), ctx) == inter_of(s, ctx),
        all_well_formed(s, ctx) ==> all_well_formed(unique(s), ctx),
        s.len() > 0 ==> unique(s).len() > 0,
        unique(s).no_duplicates(),
        forall|x: MessageTypeExpression| unique(s).contains(x) <==> s.contains(x),
{
    let none = Seq::<MessageTypeExpression>::empty();
    lemma_merged(none, s, ctx);
    lemma_merged_denotes(none, s, ctx);
    assert(union_of(none, ctx).union(union_of(s, ctx)) =~= union_of(s, ctx));
    assert(inter_of(none, ctx).intersect(inter_of(s, ctx)) =~= inter_of(s, ctx));
}

/// The operands of a nest denote together what the nest denotes.
pub proof fn lemma_leaves(e: MessageTypeExpression, ctx: ContextView)
    ensures
        union_of(e.union_leaves(), ctx) == e.resolve_spec(ctx),
        inter_of(e.inter_leaves(), ctx) == e.resolve_spec(ctx),
        e.union_leaves().len() > 0,
        e.inter_leaves().len() > 0,
        e.well_formed(ctx) ==> all_well_formed(e.union_leaves(), ctx) && all_well_formed(
            e.inter_leaves(),
            ctx,
        ),
    decreases e,
{
    lemma_one_denotes(e, ctx);
    match e {
        MessageTypeExpression::Union(a, b) => {
            lemma_leaves(*a, ctx);
            lemma_leaves(*b, ctx);
            lemma_concat_denotes(a.union_leaves(), b.union_leaves(), ctx);
        },
        MessageTypeExpression::Intersection(a, b) => {
            lemma_leaves(*a, ctx);
            lemma_leaves(*b, ctx);
            lemma_concat_denotes(a.inter_leaves(), b.inter_leaves(), ctx);
        },
        _ => {},
    }
}

/// Leaving out the fragments within `b` loses no message outside `b`.
pub proof fn lemma_reaching_outside(
    frags: Seq<MessageTypeExpression>,
    b: Set<usize>,
    ctx: ContextView,
)
    ensures
        union_of(reaching_outside(frags, b, ctx), ctx).difference(b) == union_of(
            frags,
            ctx,
        ).difference(b),
        all_well_formed(frags, ctx) ==> all_well_formed(reaching_outside(frags, b, ctx), ctx),
    decreases frags.len(),
{
    let rest = reaching_outside(frags, b, ctx);
    if frags.len() > 0 {
        let front = reaching_outside(frags.drop_last(), b, ctx);
        lemma_reaching_outside(frags.drop_last(), b, ctx);
        let last = frags.last();
        assert(frags[frags.len() - 1] == last);
        if all_well_formed(frags, ctx) {
            assert forall|i: int| 0 <= i < frags.drop_last().len() implies (
            #[trigger] frags.drop_last()[i]).well_formed(ctx) by {
                assert(frags.drop_last()[i] == frags[i]);
            }
        }
        assert forall|x: usize|
            union_of(rest, ctx).difference(b).contains(x) == union_of(frags, ctx).difference(
                b,
            ).contains(x) by {
            assert(union_of(front, ctx).difference(b).contains(x) == union_of(
                frags.drop_last(),
                ctx,
            ).difference(b).contains(x));
            if last.resolve_spec(ctx).subset_of(b) && last.resolve_spec(ctx).contains(x) {
                assert(b.contains(x));
            }
            if !last.resolve_spec(ctx).subset_of(b) {
                let m = front.push(last);
                assert(m.drop_last() =~= front);
                assert(m.last() == last);
            }
        }
        assert(union_of(rest, ctx).difference(b) =~= union_of(frags, ctx).difference(b));
        if !last.resolve_spec(ctx).subset_of(b) && all_well_formed(frags, ctx) {
            let m = front.push(last);
            assert forall|i: int| 0 <= i < m.len() implies (#[trigger] m[i]).well_formed(
                ctx,
            ) by {
                if i < front.len() {
                    assert(m[i] == front[i]);
                }
            }
        }
    }
}

/// The shortest name of an expression denotes what the expression denotes.
pub proof fn lemma_collapsed(e: MessageTypeExpression, ctx: ContextView)
    ensures
        e.collapsed(ctx).resolve_spec(ctx) == e.resolve_spec(ctx),
        e.well_formed(ctx) ==> e.collapsed(ctx).well_formed(ctx),
{
    let resolved = e.resolve_spec(ctx);
    lemma_type_denoting(ctx, resolved);
}

/// What stays of a minuend `sa` once its fragments within `rb` are
/// cancelled.
pub open spec fn kept_of(
    sa: MessageTypeExpression,
    rb: Set<usize>,
    ctx: ContextView,
) -> MessageTypeExpression {
    folded_union(reaching_outside(sa.union_leaves(), rb, ctx)).collapsed(ctx)
}

/// Cancelling the fragments of a minuend that lie within the subtrahend
/// keeps the difference.
pub proof fn lemma_kept(sa: MessageTypeExpression, rb: Set<usize>, ctx: ContextView)
    requires
        sa.well_formed(ctx),
        !sa.resolve_spec(ctx).difference(rb).is_empty(),
    ensures
        all_well_formed(sa.union_leaves(), ctx),
        all_well_formed(reaching_outside(sa.union_leaves(), rb, ctx), ctx),
        reaching_outside(sa.union_leaves(), rb, ctx).len() > 0,
        folded_union(reaching_outside(sa.union_leaves(), rb, ctx)).well_formed(ctx),
        kept_of(sa, rb, ctx).well_formed(ctx),
        kept_of(sa, rb, ctx).resolve_spec(ctx).difference(rb) == sa.resolve_spec(ctx).difference(
            rb,
        ),
{
    let la = sa.union_leaves();
    let rest = reaching_outside(la, rb, ctx);
    lemma_leaves(sa, ctx);
    lemma_reaching_outside(la, rb, ctx);
    if rest.len() == 0 {
        assert(union_of(rest, ctx) =~= Set::<usize>::empty());
        assert(union_of(rest, ctx).difference(rb) =~= Set::<usize>::empty());
    }
    lemma_folded(rest, ctx);
    lemma_folded_denotes(rest, ctx);
    lemma_collapsed(folded_union(rest), ctx);
}

/// What stays of the minuend of a difference whose operands meet: see
/// `lemma_kept`.
pub proof fn lemma_kept_minuend(
    a: MessageTypeExpression,
    b: MessageTypeExpression,
    ctx: ContextView,
)
    requires
        a.well_formed(ctx),
        !a.resolve_spec(ctx).difference(b.resolve_spec(ctx)).is_empty(),
    ensures
        a.simplify_spec(ctx).well_formed(ctx),
        all_well_formed(a.simplify_spec(ctx).union_leaves(), ctx),
        reaching_outside(a.simplify_spec(ctx).union_leaves(), b.resolve_spec(ctx), ctx).len() > 0,
        folded_union(
            reaching_outside(a.simplify_spec(ctx).union_leaves(), b.resolve_spec(ctx), ctx),
        ).well_formed(ctx),
        kept_of(a.simplify_spec(ctx), b.resolve_spec(ctx), ctx).well_formed(ctx),
{
    assert(!a.resolve_spec(ctx).is_empty()) by {
        if a.resolve_spec(ctx).is_empty() {
            assert(a.resolve_spec(ctx).difference(b.resolve_spec(ctx)) =~= Set::<usize>::empty());
        }
    }
    lemma_simplify_keeps_resolution(a, ctx);
    lemma_kept(a.simplify_spec(ctx), b.resolve_spec(ctx), ctx);
}

/// Simplifying keeps the set that the expression denotes.
pub proof fn lemma_simplify_keeps_resolution(e: MessageTypeExpression, ctx: ContextView)
    requires
        e.well_formed(ctx),
        !e.resolve_spec(ctx).is_empty(),
    ensures
        e.simplify_spec(ctx).well_formed(ctx),
        e.simplify_spec(ctx).resolve_spec(ctx) == e.resolve_spec(ctx),
    decreases e.size(), 0nat,
{
    reveal(MessageTypeExpression::simplify_spec);
    lemma_collapsed(e, ctx);
    if e.collapsed(ctx) != e {
    } else {
        match e {
            MessageTypeExpression::SetMinus(a, b) => {
                let ra = a.resolve_spec(ctx);
                let rb = b.resolve_spec(ctx);
                if ra.disjoint(rb) {
                    assert(ra.difference(rb) =~= ra);
                    lemma_simplify_keeps_resolution(*a, ctx);
                } else {
                    assert(!ra.is_empty() && !rb.is_empty()) by {
                        if ra.is_empty() || rb.is_empty() {
                            assert(ra.disjoint(rb));
                        }
                    }
                    lemma_simplify_keeps_resolution(*a, ctx);
                    lemma_simplify_keeps_resolution(*b, ctx);
                    let sa = a.simplify_spec(ctx);
                    lemma_kept(sa, rb, ctx);
                    let kept = kept_of(sa, rb, ctx);
                    if kept.resolve_spec(ctx).disjoint(rb) {
                        assert(kept.resolve_spec(ctx).difference(rb) =~= kept.resolve_spec(ctx));
                    }
                }
            },
            MessageTypeExpression::Union(a, b) => {
                lemma_union_parts(*a, ctx);
                lemma_union_parts(*b, ctx);
                lemma_folded_parts(a.union_parts(ctx), b.union_parts(ctx), ctx);
                if (a.union_parts(ctx) + b.union_parts(ctx)).len() == 0 {
                    assert(union_of(a.union_parts(ctx) + b.union_parts(ctx), ctx)
                        =~= Set::<usize>::empty());
                }
            },
            MessageTypeExpression::Intersection(a, b) => {
                assert(!a.resolve_spec(ctx).is_empty() && !b.resolve_spec(ctx).is_empty()) by {
                    if a.resolve_spec(ctx).is_empty() || b.resolve_spec(ctx).is_empty() {
                        assert(e.resolve_spec(ctx) =~= Set::<usize>::empty());
                    }
                }
                lemma_inter_parts(*a, ctx);
                lemma_inter_parts(*b, ctx);
                lemma_folded_parts(a.inter_parts(ctx), b.inter_parts(ctx), ctx);
            },
            _ => {},
        }
    }
}

/// Folding the parts of two operands, each once, gives what the parts
/// denote together.
pub proof fn lemma_folded_parts(
    l: Seq<MessageTypeExpression>,
    r: Seq<MessageTypeExpression>,
    ctx: ContextView,
)
    requires
        all_well_formed(l, ctx),
        all_well_formed(r, ctx),
    ensures
        (l + r).len() > 0 ==> {
            &&& unique(l + r).len() > 0
            &&& folded_union(unique(l + r)).well_formed(ctx)
            &&& folded_inter(unique(l + r)).well_formed(ctx)
            &&& folded_union(unique(l + r)).resolve_spec(ctx) == union_of(l, ctx).union(
                union_of(r, ctx),
            )
            &&& folded_inter(unique(l + r)).resolve_spec(ctx) == inter_of(l, ctx).intersect(
                inter_of(r, ctx),
            )
        },
{
    if (l + r).len() > 0 {
        lemma_concat_denotes(l, r, ctx);
        lemma_unique(l + r, ctx);
        lemma_folded(unique(l + r), ctx);
        lemma_folded_denotes(unique(l + r), ctx);
    }
}

/// The parts of a nest of unions denote together what the nest denotes.
pub proof fn lemma_union_parts(e: MessageTypeExpression, ctx: ContextView)
    requires
        e.well_formed(ctx),
    ensures
        all_well_formed(e.union_parts(ctx), ctx),
        union_of(e.union_parts(ctx), ctx) == e.resolve_spec(ctx),
    decreases e.size(), 1nat,
{
    reveal(MessageTypeExpression::simplify_spec);
    match e {
        MessageTypeExpression::Union(a, b) => {
            lemma_union_parts(*a, ctx);
            lemma_union_parts(*b, ctx);
            lemma_concat_denotes(a.union_parts(ctx), b.union_parts(ctx), ctx);
        },
        _ => {
            if e.resolve_spec(ctx).is_empty() {
                assert(union_of(Seq::<MessageTypeExpression>::empty(), ctx) =~= e.resolve_spec(
                    ctx,
                ));
            } else {
                lemma_simplify_keeps_resolution(e, ctx);
                lemma_leaves(e.simplify_spec(ctx), ctx);
            }
        },
    }
}

/// The parts of a nest of intersections denote together what the nest
/// denotes.
pub proof fn lemma_inter_parts(e: MessageTypeExpression, ctx: ContextView)
    requires
        e.well_formed(ctx),
        !e.resolve_spec(ctx).is_empty(),
    ensures
        all_well_formed(e.inter_parts(ctx), ctx),
        inter_of(e.inter_parts(ctx), ctx) == e.resolve_spec(ctx),
        e.inter_parts(ctx).len() > 0,
    decreases e.size(), 1nat,
{
    reveal(MessageTypeExpression::simplify_spec);
    match e {
        MessageTypeExpression::Intersection(a, b) => {
            assert(!a.resolve_spec(ctx).is_empty() && !b.resolve_spec(ctx).is_empty()) by {
                if a.resolve_spec(ctx).is_empty() || b.resolve_spec(ctx).is_empty() {
                    assert(e.resolve_spec(ctx) =~= Set::<usize>::empty());
                }
            }
            lemma_inter_parts(*a, ctx);
            lemma_inter_parts(*b, ctx);
            lemma_concat_denotes(a.inter_parts(ctx), b.inter_parts(ctx), ctx);
        },
        _ => {
            lemma_simplify_keeps_resolution(e, ctx);
            lemma_leaves(e.simplify_spec(ctx), ctx);
        },
    }
}

/// The fragments that a union or an intersection is folded from are some,
/// and fit the table.
pub proof fn lemma_nest_parts(e: MessageTypeExpression, ctx: ContextView)
    requires
        e.well_formed(ctx),
        !e.resolve_spec(ctx).is_empty(),
    ensures
        e matches MessageTypeExpression::Union(a, b) ==> unique(
            a.union_parts(ctx) + b.union_parts(ctx),
        ).len() > 0,
        e matches MessageTypeExpression::Intersection(a, b) ==> unique(
            a.inter_parts(ctx) + b.inter_parts(ctx),
        ).len() > 0,
        all_well_formed(e.union_frags(ctx), ctx),
        all_well_formed(e.inter_frags(ctx), ctx),
        e.union_frags(ctx).len() > 0,
        e.inter_frags(ctx).len() > 0,
{
    lemma_union_parts(e, ctx);
    lemma_inter_parts(e, ctx);
    lemma_unique(e.union_parts(ctx), ctx);
    lemma_unique(e.inter_parts(ctx), ctx);
    if e.union_parts(ctx).len() == 0 {
        assert(union_of(e.union_parts(ctx), ctx) =~= Set::<usize>::empty());
    }
    match e {
        MessageTypeExpression::Union(a, b) => {
            lemma_unique(a.union_parts(ctx) + b.union_parts(ctx), ctx);
        },
        MessageTypeExpression::Intersection(a, b) => {
            lemma_unique(a.inter_parts(ctx) + b.inter_parts(ctx), ctx);
        },
        _ => {},
    }
}

} // verus!
