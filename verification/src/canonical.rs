//! The canonical form of a message-type expression: what it is, that
//! simplifying gives it, and that simplifying leaves it as it is.

use crate::context::ContextView;
use crate::message::{
    folded_inter, folded_union, merged, reaching_outside, unique, MessageTypeExpression,
};
use crate::message_laws::{
    kept_of, lemma_collapsed, lemma_folded_denotes, lemma_kept, lemma_nest_parts,
    lemma_simplify_keeps_resolution, lemma_union_of_members, lemma_unique, union_of,
};
use vstd::prelude::*;

verus! {

/// Every fragment denotes some message outside `b`.
pub open spec fn all_reach_outside(
    l: Seq<MessageTypeExpression>,
    b: Set<usize>,
    ctx: ContextView,
) -> bool {
    forall|i: int| 0 <= i < l.len() ==> !(#[trigger] l[i]).resolve_spec(ctx).subset_of(b)
}

impl MessageTypeExpression {
    /// The expression is in canonical form.
    ///
    /// A singleton or a named type is. Another expression is if it has no
    /// shorter name and, by its kind: a union is a nest to the right of
    /// two or more canonical operands that are no unions and denote some
    /// message, each once; an intersection is a nest to the right of two
    /// or more canonical operands that are no intersections, each once; a
    /// difference has canonical operands that meet, and each operand of
    /// the nest of unions of its minuend denotes some message outside the
    /// subtrahend.
    pub open spec fn canonical(self, ctx: ContextView) -> bool
        decreases self, 1nat,
    {
        match self {
            MessageTypeExpression::Singleton(_) => true,
            MessageTypeExpression::NamedType(_) => true,
            MessageTypeExpression::Union(_, _) => self.collapsed(ctx) == self && self.union_spine(
                ctx,
            ),
            MessageTypeExpression::Intersection(_, _) => self.collapsed(ctx) == self
                && self.inter_spine(ctx),
            MessageTypeExpression::SetMinus(a, b) => {
                &&& self.collapsed(ctx) == self
                &&& a.canonical(ctx)
                &&& b.canonical(ctx)
                &&& !a.resolve_spec(ctx).disjoint(b.resolve_spec(ctx))
                &&& all_reach_outside(a.union_leaves(), b.resolve_spec(ctx), ctx)
            },
        }
    }

    /// A nest of unions to the right, of canonical operands that are no
    /// unions and denote some message, each once.
    pub open spec fn union_spine(self, ctx: ContextView) -> bool
        decreases self, 0nat,
    {
        match self {
            MessageTypeExpression::Union(a, b) => {
                &&& !(*a is Union)
                &&& a.canonical(ctx)
                &&& !a.resolve_spec(ctx).is_empty()
                &&& !b.union_leaves().contains(*a)
                &&& if *b is Union {
                    b.union_spine(ctx)
                } else {
                    b.canonical(ctx) && !b.resolve_spec(ctx).is_empty()
                }
            },
            _ => false,
        }
    }

    /// A nest of intersections to the right, of canonical operands that
    /// are no intersections, each once.
    pub open spec fn inter_spine(self, ctx: ContextView) -> bool
        decreases self, 0nat,
    {
        match self {
            MessageTypeExpression::Intersection(a, b) => {
                &&& !(*a is Intersection)
                &&& a.canonical(ctx)
                &&& !b.inter_leaves().contains(*a)
                &&& if *b is Intersection {
                    b.inter_spine(ctx)
                } else {
                    b.canonical(ctx)
                }
            },
            _ => false,
        }
    }
}

/// A sequence without repetition is what is left of it without repetition.
proof fn lemma_unique_fixed(s: Seq<MessageTypeExpression>)
    requires
        s.no_duplicates(),
    ensures
        unique(s) == s,
    decreases s.len(),
{
    if s.len() == 0 {
        assert(unique(s) =~= s);
    } else {
        let front = s.drop_last();
        assert forall|i: int, j: int|
            0 <= i < front.len() && 0 <= j < front.len() && i != j implies front[i]
            != front[j] by {
            assert(front[i] == s[i]);
            assert(front[j] == s[j]);
        }
        lemma_unique_fixed(front);
        assert(merged(Seq::empty(), front) == front);
        if front.contains(s.last()) {
            let i = choose|i: int| 0 <= i < front.len() && front[i] == s.last();
            assert(s[i] == s[s.len() - 1]);
        }
        assert(front.push(s.last()) =~= s);
    }
}

/// Where every fragment denotes some message outside `b`, all stay.
proof fn lemma_reaching_all(l: Seq<MessageTypeExpression>, b: Set<usize>, ctx: ContextView)
    requires
        all_reach_outside(l, b, ctx),
    ensures
        reaching_outside(l, b, ctx) == l,
    decreases l.len(),
{
    if l.len() == 0 {
    } else {
        let front = l.drop_last();
        assert forall|i: int| 0 <= i < front.len() implies !(#[trigger] front[i]).resolve_spec(
            ctx,
        ).subset_of(b) by {
            assert(front[i] == l[i]);
        }
        lemma_reaching_all(front, b, ctx);
        assert(l[l.len() - 1] == l.last());
        assert(front.push(l.last()) =~= l);
    }
}

/// Each fragment is canonical, is no union, and denotes some message.
pub open spec fn good_union_leaves(l: Seq<MessageTypeExpression>, ctx: ContextView) -> bool {
    forall|i: int|
        0 <= i < l.len() ==> {
            &&& !((#[trigger] l[i]) is Union)
            &&& l[i].canonical(ctx)
            &&& !l[i].resolve_spec(ctx).is_empty()
        }
}

proof fn lemma_union_good_concat(
    l: Seq<MessageTypeExpression>,
    r: Seq<MessageTypeExpression>,
    ctx: ContextView,
)
    requires
        good_union_leaves(l, ctx),
        good_union_leaves(r, ctx),
    ensures
        good_union_leaves(l + r, ctx),
{
    let m = l + r;
    assert forall|i: int| 0 <= i < m.len() implies {
        &&& !((#[trigger] m[i]) is Union)
        &&& m[i].canonical(ctx)
        &&& !m[i].resolve_spec(ctx).is_empty()
    } by {
        if i < l.len() {
            assert(m[i] == l[i]);
        } else {
            assert(m[i] == r[i - l.len()]);
        }
    }
}

proof fn lemma_union_good_members(
    l: Seq<MessageTypeExpression>,
    d: Seq<MessageTypeExpression>,
    ctx: ContextView,
)
    requires
        good_union_leaves(l, ctx),
        forall|x: MessageTypeExpression| d.contains(x) ==> l.contains(x),
    ensures
        good_union_leaves(d, ctx),
{
    assert forall|i: int| 0 <= i < d.len() implies {
        &&& !((#[trigger] d[i]) is Union)
        &&& d[i].canonical(ctx)
        &&& !d[i].resolve_spec(ctx).is_empty()
    } by {
        assert(d.contains(d[i]));
        let j = choose|j: int| 0 <= j < l.len() && l[j] == d[i];
        assert(l[j] == d[i]);
    }
}

/// Folding two or more good fragments, each once, gives a nest whose
/// operands they are.
proof fn lemma_union_fold_spine(l: Seq<MessageTypeExpression>, ctx: ContextView)
    requires
        l.len() >= 2,
        l.no_duplicates(),
        good_union_leaves(l, ctx),
    ensures
        folded_union(l).union_spine(ctx),
        folded_union(l).union_leaves() == l,
        folded_union(l) is Union,
    decreases l.len(),
{
    let rest = l.drop_first();
    let e = folded_union(l);
    assert(e == MessageTypeExpression::Union(Box::new(l[0]), Box::new(folded_union(rest))));
    assert(l[0].union_leaves() =~= seq![l[0]]);
    assert forall|i: int| 0 <= i < rest.len() implies {
        &&& !((#[trigger] rest[i]) is Union)
        &&& rest[i].canonical(ctx)
        &&& !rest[i].resolve_spec(ctx).is_empty()
    } by {
        assert(rest[i] == l[i + 1]);
    }
    assert forall|i: int, j: int|
        0 <= i < rest.len() && 0 <= j < rest.len() && i != j implies rest[i] != rest[j] by {
        assert(rest[i] == l[i + 1]);
        assert(rest[j] == l[j + 1]);
    }
    if rest.len() == 1 {
        assert(folded_union(rest) == rest[0]);
        assert(rest[0] == l[1]);
        assert(rest[0].union_leaves() =~= seq![rest[0]]);
    } else {
        lemma_union_fold_spine(rest, ctx);
    }
    let lb = folded_union(rest).union_leaves();
    assert(lb =~= rest);
    assert(e.union_leaves() =~= l);
    if lb.contains(l[0]) {
        let i = choose|i: int| 0 <= i < lb.len() && lb[i] == l[0];
        assert(rest[i] == l[i + 1]);
        assert(l[0] != l[i + 1]);
    }
}

/// The operands of a nest in canonical form are good fragments, each
/// once, and the nest is what they fold to.
proof fn lemma_union_spine_leaves(e: MessageTypeExpression, ctx: ContextView)
    requires
        e.union_spine(ctx),
    ensures
        e.union_leaves().len() >= 2,
        e.union_leaves().no_duplicates(),
        good_union_leaves(e.union_leaves(), ctx),
        folded_union(e.union_leaves()) == e,
    decreases e,
{
    match e {
        MessageTypeExpression::Union(a, b) => {
            assert(a.union_leaves() =~= seq![*a]);
            if *b is Union {
                lemma_union_spine_leaves(*b, ctx);
            } else {
                assert(b.union_leaves() =~= seq![*b]);
                assert(folded_union(b.union_leaves()) == *b);
            }
            let lb = b.union_leaves();
            let l = e.union_leaves();
            assert(l =~= seq![*a] + lb);
            assert(l[0] == *a);
            assert(l.drop_first() =~= lb);
            assert(folded_union(l) == e);
            assert forall|i: int, j: int|
                0 <= i < l.len() && 0 <= j < l.len() && i != j implies l[i] != l[j] by {
                if i == 0 {
                    assert(l[j] == lb[j - 1]);
                    assert(lb.contains(lb[j - 1]));
                } else if j == 0 {
                    assert(l[i] == lb[i - 1]);
                    assert(lb.contains(lb[i - 1]));
                } else {
                    assert(l[i] == lb[i - 1]);
                    assert(l[j] == lb[j - 1]);
                }
            }
            assert forall|i: int| 0 <= i < l.len() implies {
                &&& !((#[trigger] l[i]) is Union)
                &&& l[i].canonical(ctx)
                &&& !l[i].resolve_spec(ctx).is_empty()
            } by {
                if i > 0 {
                    assert(l[i] == lb[i - 1]);
                }
            }
        },
        _ => {},
    }
}

/// The operands of a canonical expression that denotes some message are
/// good fragments, each once, and the expression is what they fold to.
proof fn lemma_canonical_union_leaves(x: MessageTypeExpression, ctx: ContextView)
    requires
        x.canonical(ctx),
        !x.resolve_spec(ctx).is_empty(),
    ensures
        x.union_leaves().len() >= 1,
        x.union_leaves().no_duplicates(),
        good_union_leaves(x.union_leaves(), ctx),
        folded_union(x.union_leaves()) == x,
{
    if x is Union {
        lemma_union_spine_leaves(x, ctx);
    } else {
        assert(x.union_leaves() =~= seq![x]);
    }
}

/// The parts of a nest are good fragments.
proof fn lemma_union_parts_good(e: MessageTypeExpression, ctx: ContextView)
    requires
        e.well_formed(ctx),
    ensures
        good_union_leaves(e.union_parts(ctx), ctx),
    decreases e.size(), 1nat,
{
    reveal(MessageTypeExpression::simplify_spec);
    match e {
        MessageTypeExpression::Union(a, b) => {
            lemma_union_parts_good(*a, ctx);
            lemma_union_parts_good(*b, ctx);
            lemma_union_good_concat(a.union_parts(ctx), b.union_parts(ctx), ctx);
        },
        _ => {
            if !e.resolve_spec(ctx).is_empty() {
                lemma_canonical_form_canonical(e, ctx);
                lemma_simplify_keeps_resolution(e, ctx);
                lemma_canonical_union_leaves(e.canonical_form(ctx), ctx);
            }
        },
    }
}

/// The parts of a nest in canonical form are its operands.
proof fn lemma_union_spine_parts(e: MessageTypeExpression, ctx: ContextView)
    requires
        e.union_spine(ctx),
    ensures
        e.union_parts(ctx) == e.union_leaves(),
    decreases e.size(), 1nat,
{
    match e {
        MessageTypeExpression::Union(a, b) => {
            assert(e.union_spine(ctx));
            assert(a.canonical(ctx) && !(*a is Union));
            lemma_canonical_fixed(*a, ctx);
            assert(a.union_parts(ctx) == a.union_leaves());
            if *b is Union {
                lemma_union_spine_parts(*b, ctx);
            } else {
                lemma_canonical_fixed(*b, ctx);
                assert(b.union_parts(ctx) == b.union_leaves());
            }
        },
        _ => {},
    }
}

/// Folding the parts of a union that has no shorter name gives a canonical
/// form.
proof fn lemma_union_folded_canonical(e: MessageTypeExpression, ctx: ContextView)
    requires
        e.well_formed(ctx),
        !e.resolve_spec(ctx).is_empty(),
        e is Union,
        e.collapsed(ctx) == e,
        good_union_leaves(e.union_parts(ctx), ctx),
    ensures
        e.canonical_form(ctx).canonical(ctx),
{
    reveal(MessageTypeExpression::simplify_spec);
    lemma_simplify_keeps_resolution(e, ctx);
    lemma_nest_parts(e, ctx);
    let p = e.union_parts(ctx);
    let d = unique(p);
    lemma_unique(p, ctx);
    lemma_union_good_members(p, d, ctx);
    let r = folded_union(d);
    assert(e.canonical_form(ctx) == r);
    if d.len() >= 2 {
        lemma_union_fold_spine(d, ctx);
        assert(r.collapsed(ctx) == r);
    } else {
        assert(r == d[0]);
    }
}

/// Simplifying a union in canonical form gives the union.
proof fn lemma_union_canonical_fixed(e: MessageTypeExpression, ctx: ContextView)
    requires
        e is Union,
        e.canonical(ctx),
        e.union_parts(ctx) == e.union_leaves(),
    ensures
        e.canonical_form(ctx) == e,
{
    lemma_union_spine_leaves(e, ctx);
    lemma_unique_fixed(e.union_leaves());
}

/// Each fragment is canonical and is no intersection.
pub open spec fn good_inter_leaves(l: Seq<MessageTypeExpression>, ctx: ContextView) -> bool {
    forall|i: int|
        0 <= i < l.len() ==> {
            &&& !((#[trigger] l[i]) is Intersection)
            &&& l[i].canonical(ctx)
        }
}

proof fn lemma_inter_good_concat(
    l: Seq<MessageTypeExpression>,
    r: Seq<MessageTypeExpression>,
    ctx: ContextView,
)
    requires
        good_inter_leaves(l, ctx),
        good_inter_leaves(r, ctx),
    ensures
        good_inter_leaves(l + r, ctx),
{
    let m = l + r;
    assert forall|i: int| 0 <= i < m.len() implies {
        &&& !((#[trigger] m[i]) is Intersection)
        &&& m[i].canonical(ctx)
    } by {
        if i < l.len() {
            assert(m[i] == l[i]);
        } else {
            assert(m[i] == r[i - l.len()]);
        }
    }
}

proof fn lemma_inter_good_members(
    l: Seq<MessageTypeExpression>,
    d: Seq<MessageTypeExpression>,
    ctx: ContextView,
)
    requires
        good_inter_leaves(l, ctx),
        forall|x: MessageTypeExpression| d.contains(x) ==> l.contains(x),
    ensures
        good_inter_leaves(d, ctx),
{
    assert forall|i: int| 0 <= i < d.len() implies {
        &&& !((#[trigger] d[i]) is Intersection)
        &&& d[i].canonical(ctx)
    } by {
        assert(d.contains(d[i]));
        let j = choose|j: int| 0 <= j < l.len() && l[j] == d[i];
        assert(l[j] == d[i]);
    }
}

/// Folding two or more good fragments, each once, gives a nest whose
/// operands they are.
proof fn lemma_inter_fold_spine(l: Seq<MessageTypeExpression>, ctx: ContextView)
    requires
        l.len() >= 2,
        l.no_duplicates(),
        good_inter_leaves(l, ctx),
    ensures
        folded_inter(l).inter_spine(ctx),
        folded_inter(l).inter_leaves() == l,
        folded_inter(l) is Intersection,
    decreases l.len(),
{
    let rest = l.drop_first();
    let e = folded_inter(l);
    assert(e == MessageTypeExpression::Intersection(Box::new(l[0]), Box::new(folded_inter(rest))));
    assert(l[0].inter_leaves() =~= seq![l[0]]);
    assert forall|i: int| 0 <= i < rest.len() implies {
        &&& !((#[trigger] rest[i]) is Intersection)
        &&& rest[i].canonical(ctx)
    } by {
        assert(rest[i] == l[i + 1]);
    }
    assert forall|i: int, j: int|
        0 <= i < rest.len() && 0 <= j < rest.len() && i != j implies rest[i] != rest[j] by {
        assert(rest[i] == l[i + 1]);
        assert(rest[j] == l[j + 1]);
    }
    if rest.len() == 1 {
        assert(folded_inter(rest) == rest[0]);
        assert(rest[0] == l[1]);
        assert(rest[0].inter_leaves() =~= seq![rest[0]]);
    } else {
        lemma_inter_fold_spine(rest, ctx);
    }
    let lb = folded_inter(rest).inter_leaves();
    assert(lb =~= rest);
    assert(e.inter_leaves() =~= l);
    if lb.contains(l[0]) {
        let i = choose|i: int| 0 <= i < lb.len() && lb[i] == l[0];
        assert(rest[i] == l[i + 1]);
        assert(l[0] != l[i + 1]);
    }
}

/// The operands of a nest in canonical form are good fragments, each
/// once, and the nest is what they fold to.
proof fn lemma_inter_spine_leaves(e: MessageTypeExpression, ctx: ContextView)
    requires
        e.inter_spine(ctx),
    ensures
        e.inter_leaves().len() >= 2,
        e.inter_leaves().no_duplicates(),
        good_inter_leaves(e.inter_leaves(), ctx),
        folded_inter(e.inter_leaves()) == e,
    decreases e,
{
    match e {
        MessageTypeExpression::Intersection(a, b) => {
            assert(a.inter_leaves() =~= seq![*a]);
            if *b is Intersection {
                lemma_inter_spine_leaves(*b, ctx);
            } else {
                assert(b.inter_leaves() =~= seq![*b]);
                assert(folded_inter(b.inter_leaves()) == *b);
            }
            let lb = b.inter_leaves();
            let l = e.inter_leaves();
            assert(l =~= seq![*a] + lb);
            assert(l[0] == *a);
            assert(l.drop_first() =~= lb);
            assert(folded_inter(l) == e);
            assert forall|i: int, j: int|
                0 <= i < l.len() && 0 <= j < l.len() && i != j implies l[i] != l[j] by {
                if i == 0 {
                    assert(l[j] == lb[j - 1]);
                    assert(lb.contains(lb[j - 1]));
                } else if j == 0 {
                    assert(l[i] == lb[i - 1]);
                    assert(lb.contains(lb[i - 1]));
                } else {
                    assert(l[i] == lb[i - 1]);
                    assert(l[j] == lb[j - 1]);
                }
            }
            assert forall|i: int| 0 <= i < l.len() implies {
                &&& !((#[trigger] l[i]) is Intersection)
                &&& l[i].canonical(ctx)
            } by {
                if i > 0 {
                    assert(l[i] == lb[i - 1]);
                }
            }
        },
        _ => {},
    }
}

/// The operands of a canonical expression are good fragments, each once,
/// and the expression is what they fold to.
proof fn lemma_canonical_inter_leaves(x: MessageTypeExpression, ctx: ContextView)
    requires
        x.canonical(ctx),
    ensures
        x.inter_leaves().len() >= 1,
        x.inter_leaves().no_duplicates(),
        good_inter_leaves(x.inter_leaves(), ctx),
        folded_inter(x.inter_leaves()) == x,
{
    if x is Intersection {
        lemma_inter_spine_leaves(x, ctx);
    } else {
        assert(x.inter_leaves() =~= seq![x]);
    }
}

/// The parts of a nest are good fragments.
proof fn lemma_inter_parts_good(e: MessageTypeExpression, ctx: ContextView)
    requires
        e.well_formed(ctx),
        !e.resolve_spec(ctx).is_empty(),
    ensures
        good_inter_leaves(e.inter_parts(ctx), ctx),
    decreases e.size(), 1nat,
{
    reveal(MessageTypeExpression::simplify_spec);
    match e {
        MessageTypeExpression::Intersection(a, b) => {
            if a.resolve_spec(ctx).is_empty() || b.resolve_spec(ctx).is_empty() {
                assert(e.resolve_spec(ctx) =~= Set::<usize>::empty());
            }
            lemma_inter_parts_good(*a, ctx);
            lemma_inter_parts_good(*b, ctx);
            lemma_inter_good_concat(a.inter_parts(ctx), b.inter_parts(ctx), ctx);
        },
        _ => {
            lemma_canonical_form_canonical(e, ctx);
            lemma_canonical_inter_leaves(e.canonical_form(ctx), ctx);
        },
    }
}

/// The parts of a nest in canonical form are its operands.
proof fn lemma_inter_spine_parts(e: MessageTypeExpression, ctx: ContextView)
    requires
        e.inter_spine(ctx),
    ensures
        e.inter_parts(ctx) == e.inter_leaves(),
    decreases e.size(), 1nat,
{
    match e {
        MessageTypeExpression::Intersection(a, b) => {
            assert(e.inter_spine(ctx));
            assert(a.canonical(ctx) && !(*a is Intersection));
            lemma_canonical_fixed(*a, ctx);
            assert(a.inter_parts(ctx) == a.inter_leaves());
            if *b is Intersection {
                lemma_inter_spine_parts(*b, ctx);
            } else {
                lemma_canonical_fixed(*b, ctx);
                assert(b.inter_parts(ctx) == b.inter_leaves());
            }
        },
        _ => {},
    }
}

/// Folding the parts of an intersection that has no shorter name gives a
/// canonical form.
proof fn lemma_inter_folded_canonical(e: MessageTypeExpression, ctx: ContextView)
    requires
        e.well_formed(ctx),
        !e.resolve_spec(ctx).is_empty(),
        e is Intersection,
        e.collapsed(ctx) == e,
        good_inter_leaves(e.inter_parts(ctx), ctx),
    ensures
        e.canonical_form(ctx).canonical(ctx),
{
    reveal(MessageTypeExpression::simplify_spec);
    lemma_simplify_keeps_resolution(e, ctx);
    lemma_nest_parts(e, ctx);
    let p = e.inter_parts(ctx);
    let d = unique(p);
    lemma_unique(p, ctx);
    lemma_inter_good_members(p, d, ctx);
    let r = folded_inter(d);
    assert(e.canonical_form(ctx) == r);
    if d.len() >= 2 {
        lemma_inter_fold_spine(d, ctx);
        assert(r.collapsed(ctx) == r);
    } else {
        assert(r == d[0]);
    }
}

/// Simplifying an intersection in canonical form gives the intersection.
proof fn lemma_inter_canonical_fixed(e: MessageTypeExpression, ctx: ContextView)
    requires
        e is Intersection,
        e.canonical(ctx),
        e.inter_parts(ctx) == e.inter_leaves(),
    ensures
        e.canonical_form(ctx) == e,
{
    lemma_inter_spine_leaves(e, ctx);
    lemma_unique_fixed(e.inter_leaves());
}

/// What stays of a canonical minuend, once its fragments within `rb` are
/// cancelled, is in canonical form, and each of its operands denotes some
/// message outside `rb`.
proof fn lemma_kept_canonical(sa: MessageTypeExpression, rb: Set<usize>, ctx: ContextView)
    requires
        sa.canonical(ctx),
        sa.well_formed(ctx),
        !sa.resolve_spec(ctx).difference(rb).is_empty(),
    ensures
        kept_of(sa, rb, ctx).canonical(ctx),
        all_reach_outside(kept_of(sa, rb, ctx).union_leaves(), rb, ctx),
{
    let la = sa.union_leaves();
    let rest = reaching_outside(la, rb, ctx);
    assert(rest.len() > 0) by {
        lemma_kept(sa, rb, ctx);
    }
    assert(!sa.resolve_spec(ctx).is_empty()) by {
        if sa.resolve_spec(ctx).is_empty() {
            assert(sa.resolve_spec(ctx).difference(rb) =~= Set::<usize>::empty());
        }
    }
    lemma_canonical_union_leaves(sa, ctx);
    lemma_rest_good(la, rb, ctx);
    lemma_rest_canonical(rest, rb, ctx);
}

/// Of good fragments, each once, those that denote some message outside
/// `rb` are good fragments, each once.
proof fn lemma_rest_good(la: Seq<MessageTypeExpression>, rb: Set<usize>, ctx: ContextView)
    requires
        la.no_duplicates(),
        good_union_leaves(la, ctx),
    ensures
        reaching_outside(la, rb, ctx).no_duplicates(),
        good_union_leaves(reaching_outside(la, rb, ctx), ctx),
        all_reach_outside(reaching_outside(la, rb, ctx), rb, ctx),
        forall|i: int|
            0 <= i < reaching_outside(la, rb, ctx).len() ==> la.contains(
                #[trigger] reaching_outside(la, rb, ctx)[i],
            ),
    decreases la.len(),
{
    if la.len() > 0 {
        let front = la.drop_last();
        let last = la.last();
        assert(la[la.len() - 1] == last);
        assert forall|i: int, j: int|
            0 <= i < front.len() && 0 <= j < front.len() && i != j implies front[i]
            != front[j] by {
            assert(front[i] == la[i]);
            assert(front[j] == la[j]);
        }
        assert forall|i: int| 0 <= i < front.len() implies {
            &&& !((#[trigger] front[i]) is Union)
            &&& front[i].canonical(ctx)
            &&& !front[i].resolve_spec(ctx).is_empty()
        } by {
            assert(front[i] == la[i]);
        }
        lemma_rest_good(front, rb, ctx);
        let rf = reaching_outside(front, rb, ctx);
        let rest = reaching_outside(la, rb, ctx);
        assert forall|i: int| 0 <= i < rf.len() implies la.contains(#[trigger] rf[i]) by {
            assert(front.contains(rf[i]));
            let j = choose|j: int| 0 <= j < front.len() && front[j] == rf[i];
            assert(la[j] == rf[i]);
        }
        if last.resolve_spec(ctx).subset_of(rb) {
            assert(rest == rf);
        } else {
            assert(rest == rf.push(last));
            assert forall|i: int| 0 <= i < rest.len() implies la.contains(#[trigger] rest[i]) by {
                if i < rf.len() {
                    assert(rest[i] == rf[i]);
                }
            }
            assert forall|i: int, j: int|
                0 <= i < rest.len() && 0 <= j < rest.len() && i != j implies rest[i]
                != rest[j] by {
                if i < rf.len() && j < rf.len() {
                    assert(rf[i] != rf[j]);
                } else {
                    let k = if i < rf.len() {
                        i
                    } else {
                        j
                    };
                    assert(front.contains(rf[k]));
                    let m = choose|m: int| 0 <= m < front.len() && front[m] == rf[k];
                    assert(la[m] == front[m]);
                    assert(la[m] != la[la.len() - 1]);
                }
            }
            assert forall|i: int| 0 <= i < rest.len() implies {
                &&& !((#[trigger] rest[i]) is Union)
                &&& rest[i].canonical(ctx)
                &&& !rest[i].resolve_spec(ctx).is_empty()
            } by {
                if i < rf.len() {
                    assert(rest[i] == rf[i]);
                }
            }
            assert forall|i: int| 0 <= i < rest.len() implies !(#[trigger] rest[i]).resolve_spec(
                ctx,
            ).subset_of(rb) by {
                if i < rf.len() {
                    assert(rest[i] == rf[i]);
                }
            }
        }
    }
}

/// Some good fragments, each once and each with a message outside `rb`,
/// fold to an expression whose shortest name is in canonical form, and
/// each operand of that denotes some message outside `rb`.
proof fn lemma_rest_canonical(rest: Seq<MessageTypeExpression>, rb: Set<usize>, ctx: ContextView)
    requires
        rest.len() > 0,
        rest.no_duplicates(),
        good_union_leaves(rest, ctx),
        all_reach_outside(rest, rb, ctx),
    ensures
        folded_union(rest).collapsed(ctx).canonical(ctx),
        all_reach_outside(folded_union(rest).collapsed(ctx).union_leaves(), rb, ctx),
{
    let f = folded_union(rest);
    let kept = f.collapsed(ctx);
    if kept != f {
        lemma_shorter_name_reaches(rest, rb, ctx);
    } else if rest.len() >= 2 {
        lemma_union_fold_spine(rest, ctx);
    } else {
        assert(f == rest[0]);
        assert(kept.union_leaves() =~= seq![kept]);
    }
}

/// The shorter name of what some fragments fold to denotes some message
/// outside `rb`, if the first fragment does.
proof fn lemma_shorter_name_reaches(
    rest: Seq<MessageTypeExpression>,
    rb: Set<usize>,
    ctx: ContextView,
)
    requires
        rest.len() > 0,
        !rest[0].resolve_spec(ctx).subset_of(rb),
        folded_union(rest).collapsed(ctx) != folded_union(rest),
    ensures
        folded_union(rest).collapsed(ctx).canonical(ctx),
        all_reach_outside(folded_union(rest).collapsed(ctx).union_leaves(), rb, ctx),
{
    let f = folded_union(rest);
    let kept = f.collapsed(ctx);
    lemma_collapsed(f, ctx);
    lemma_folded_denotes(rest, ctx);
    lemma_union_of_members(rest, ctx);
    assert(kept is Singleton || kept is NamedType);
    assert(kept.union_leaves() =~= seq![kept]);
    let s0 = rest[0].resolve_spec(ctx);
    let x = choose|x: usize| s0.contains(x) && !rb.contains(x);
    assert(s0.contains(x) && !rb.contains(x));
    assert(union_of(rest, ctx).contains(x));
    assert(kept.resolve_spec(ctx).contains(x));
    assert(!kept.resolve_spec(ctx).subset_of(rb));
}

/// What stays of a difference whose operands meet, once the fragments of
/// its minuend within the subtrahend are cancelled, is in canonical form.
proof fn lemma_difference_canonical(
    e: MessageTypeExpression,
    a: MessageTypeExpression,
    b: MessageTypeExpression,
    ctx: ContextView,
)
    requires
        e == MessageTypeExpression::SetMinus(Box::new(a), Box::new(b)),
        e.well_formed(ctx),
        !e.resolve_spec(ctx).is_empty(),
        e.collapsed(ctx) == e,
        !a.resolve_spec(ctx).disjoint(b.resolve_spec(ctx)),
        a.canonical_form(ctx).canonical(ctx),
        b.canonical_form(ctx).canonical(ctx),
    ensures
        e.canonical_form(ctx).canonical(ctx),
{
    reveal(MessageTypeExpression::simplify_spec);
    let ra = a.resolve_spec(ctx);
    let rb = b.resolve_spec(ctx);
    assert(!ra.is_empty() && !rb.is_empty()) by {
        if ra.is_empty() || rb.is_empty() {
            assert(ra.disjoint(rb));
        }
    }
    lemma_simplify_keeps_resolution(e, ctx);
    lemma_simplify_keeps_resolution(a, ctx);
    lemma_simplify_keeps_resolution(b, ctx);
    let sa = a.canonical_form(ctx);
    let sb = b.canonical_form(ctx);
    lemma_kept_canonical(sa, rb, ctx);
    let kept = kept_of(sa, rb, ctx);
    if !kept.resolve_spec(ctx).disjoint(rb) {
        let r = MessageTypeExpression::SetMinus(Box::new(kept), Box::new(sb));
        assert(e.canonical_form(ctx) == r);
        assert(r.resolve_spec(ctx) == e.resolve_spec(ctx));
        assert(r.collapsed(ctx) == r);
    } else {
        assert(e.canonical_form(ctx) == kept);
    }
}

/// Simplifying gives a canonical form.
pub proof fn lemma_canonical_form_canonical(e: MessageTypeExpression, ctx: ContextView)
    requires
        e.well_formed(ctx),
        !e.resolve_spec(ctx).is_empty(),
    ensures
        e.canonical_form(ctx).canonical(ctx),
    decreases e.size(), 0nat,
{
    if e.collapsed(ctx) != e {
    } else {
        match e {
            MessageTypeExpression::Union(a, b) => {
                lemma_union_parts_good(*a, ctx);
                lemma_union_parts_good(*b, ctx);
                lemma_union_good_concat(a.union_parts(ctx), b.union_parts(ctx), ctx);
                lemma_union_folded_canonical(e, ctx);
            },
            MessageTypeExpression::Intersection(a, b) => {
                if a.resolve_spec(ctx).is_empty() || b.resolve_spec(ctx).is_empty() {
                    assert(e.resolve_spec(ctx) =~= Set::<usize>::empty());
                }
                lemma_inter_parts_good(*a, ctx);
                lemma_inter_parts_good(*b, ctx);
                lemma_inter_good_concat(a.inter_parts(ctx), b.inter_parts(ctx), ctx);
                lemma_inter_folded_canonical(e, ctx);
            },
            MessageTypeExpression::SetMinus(a, b) => {
                let ra = a.resolve_spec(ctx);
                let rb = b.resolve_spec(ctx);
                if ra.disjoint(rb) {
                    assert(ra.difference(rb) =~= ra);
                    lemma_canonical_form_canonical(*a, ctx);
                } else {
                    assert(!ra.is_empty() && !rb.is_empty()) by {
                        if ra.is_empty() || rb.is_empty() {
                            assert(ra.disjoint(rb));
                        }
                    }
                    lemma_canonical_form_canonical(*a, ctx);
                    lemma_canonical_form_canonical(*b, ctx);
                    lemma_difference_canonical(e, *a, *b, ctx);
                }
            },
            _ => {},
        }
    }
}

/// Simplifying leaves a canonical form as it is.
pub proof fn lemma_canonical_fixed(e: MessageTypeExpression, ctx: ContextView)
    requires
        e.canonical(ctx),
    ensures
        e.canonical_form(ctx) == e,
    decreases e.size(), 0nat,
{
    match e {
        MessageTypeExpression::Union(a, b) => {
            assert(e.union_spine(ctx));
            assert(a.canonical(ctx) && !(*a is Union));
            lemma_canonical_fixed(*a, ctx);
            assert(a.union_parts(ctx) == a.union_leaves());
            if *b is Union {
                lemma_union_spine_parts(*b, ctx);
            } else {
                lemma_canonical_fixed(*b, ctx);
                assert(b.union_parts(ctx) == b.union_leaves());
            }
            lemma_union_canonical_fixed(e, ctx);
        },
        MessageTypeExpression::Intersection(a, b) => {
            assert(e.inter_spine(ctx));
            assert(a.canonical(ctx) && !(*a is Intersection));
            lemma_canonical_fixed(*a, ctx);
            assert(a.inter_parts(ctx) == a.inter_leaves());
            if *b is Intersection {
                lemma_inter_spine_parts(*b, ctx);
            } else {
                lemma_canonical_fixed(*b, ctx);
                assert(b.inter_parts(ctx) == b.inter_leaves());
            }
            lemma_inter_canonical_fixed(e, ctx);
        },
        MessageTypeExpression::SetMinus(a, b) => {
            lemma_canonical_fixed(*a, ctx);
            lemma_canonical_fixed(*b, ctx);
            let ra = a.resolve_spec(ctx);
            let rb = b.resolve_spec(ctx);
            assert(!ra.is_empty()) by {
                if ra.is_empty() {
                    assert(ra.disjoint(rb));
                }
            }
            lemma_canonical_union_leaves(*a, ctx);
            lemma_reaching_all(a.union_leaves(), rb, ctx);
            assert(a.collapsed(ctx) == *a);
        },
        _ => {},
    }
}

/// Simplifying is idempotent: the canonical form of an expression that
/// denotes some message is in canonical form, and simplifying it gives it
/// again.
pub proof fn lemma_simplify_idempotent(e: MessageTypeExpression, ctx: ContextView)
    requires
        e.well_formed(ctx),
        !e.resolve_spec(ctx).is_empty(),
    ensures
        e.simplify_spec(ctx).canonical(ctx),
        e.simplify_spec(ctx).simplify_spec(ctx) == e.simplify_spec(ctx),
{
    reveal(MessageTypeExpression::simplify_spec);
    lemma_canonical_form_canonical(e, ctx);
    lemma_canonical_fixed(e.canonical_form(ctx), ctx);
}

} // verus!
