//! Message-type expressions: a small set algebra over message identifiers.

use crate::context::{ContextView, GeneralContext};
use crate::message_laws::lemma_simplify_keeps_resolution;
use crate::sets::{
    is_single, set_difference, set_disjoint, set_equal, set_intersection, set_is_subset,
    set_single, set_sole_element, set_union,
};
use std::collections::HashSet;
use vstd::prelude::*;

verus! {

/// An expression that denotes a set of messages.
#[derive(Debug, Eq, Hash)]
pub enum MessageTypeExpression {
    /// The set that holds one message.
    Singleton(usize),
    /// The set that a named type of the symbol table denotes.
    NamedType(usize),
    Union(Box<MessageTypeExpression>, Box<MessageTypeExpression>),
    Intersection(Box<MessageTypeExpression>, Box<MessageTypeExpression>),
    SetMinus(Box<MessageTypeExpression>, Box<MessageTypeExpression>),
}

impl Clone for MessageTypeExpression {
    fn clone(&self) -> (r: Self)
        ensures
            r == *self,
        decreases *self,
    {
        match self {
            MessageTypeExpression::Singleton(m) => MessageTypeExpression::Singleton(*m),
            MessageTypeExpression::NamedType(t) => MessageTypeExpression::NamedType(*t),
            MessageTypeExpression::Union(a, b) => MessageTypeExpression::Union(
                Box::new((**a).clone()),
                Box::new((**b).clone()),
            ),
            MessageTypeExpression::Intersection(a, b) => MessageTypeExpression::Intersection(
                Box::new((**a).clone()),
                Box::new((**b).clone()),
            ),
            MessageTypeExpression::SetMinus(a, b) => MessageTypeExpression::SetMinus(
                Box::new((**a).clone()),
                Box::new((**b).clone()),
            ),
        }
    }
}

impl PartialEq for MessageTypeExpression {
    fn eq(&self, other: &Self) -> (r: bool)
        decreases *self,
    {
        match (self, other) {
            (MessageTypeExpression::Singleton(a), MessageTypeExpression::Singleton(b)) => *a == *b,
            (MessageTypeExpression::NamedType(a), MessageTypeExpression::NamedType(b)) => *a == *b,
            (MessageTypeExpression::Union(a1, a2), MessageTypeExpression::Union(b1, b2)) => {
                (**a1).eq(&**b1) && (**a2).eq(&**b2)
            },
            (
                MessageTypeExpression::Intersection(a1, a2),
                MessageTypeExpression::Intersection(b1, b2),
            ) => (**a1).eq(&**b1) && (**a2).eq(&**b2),
            (MessageTypeExpression::SetMinus(a1, a2), MessageTypeExpression::SetMinus(b1, b2)) => {
                (**a1).eq(&**b1) && (**a2).eq(&**b2)
            },
            _ => false,
        }
    }
}

impl vstd::std_specs::cmp::PartialEqSpecImpl for MessageTypeExpression {
    open spec fn obeys_eq_spec() -> bool {
        true
    }

    open spec fn eq_spec(&self, other: &Self) -> bool {
        *self == *other
    }
}


/// `l`, followed by the fragments of `r` that have not occurred before.
pub open spec fn merged(
    l: Seq<MessageTypeExpression>,
    r: Seq<MessageTypeExpression>,
) -> Seq<MessageTypeExpression>
    decreases r.len(),
{
    if r.len() == 0 {
        l
    } else {
        let front = merged(l, r.drop_last());
        if front.contains(r.last()) {
            front
        } else {
            front.push(r.last())
        }
    }
}

/// The union of the fragments, nested to the right. Not meant for an empty
/// sequence.
pub open spec fn folded_union(frags: Seq<MessageTypeExpression>) -> MessageTypeExpression
    decreases frags.len(),
{
    if frags.len() <= 1 {
        if frags.len() == 1 {
            frags[0]
        } else {
            MessageTypeExpression::Singleton(0)
        }
    } else {
        MessageTypeExpression::Union(
            Box::new(frags[0]),
            Box::new(folded_union(frags.drop_first())),
        )
    }
}

/// The intersection of the fragments, nested to the right. Not meant for
/// an empty sequence.
pub open spec fn folded_inter(frags: Seq<MessageTypeExpression>) -> MessageTypeExpression
    decreases frags.len(),
{
    if frags.len() <= 1 {
        if frags.len() == 1 {
            frags[0]
        } else {
            MessageTypeExpression::Singleton(0)
        }
    } else {
        MessageTypeExpression::Intersection(
            Box::new(frags[0]),
            Box::new(folded_inter(frags.drop_first())),
        )
    }
}

/// Every fragment names only types that the table holds.
pub open spec fn all_well_formed(frags: Seq<MessageTypeExpression>, ctx: ContextView) -> bool {
    forall|i: int| 0 <= i < frags.len() ==> (#[trigger] frags[i]).well_formed(ctx)
}

/// `s` without repetition: of each fragment the first occurrence stays.
pub open spec fn unique(s: Seq<MessageTypeExpression>) -> Seq<MessageTypeExpression> {
    merged(Seq::empty(), s)
}

/// The fragments that denote some message outside `b`, in their order.
pub open spec fn reaching_outside(
    frags: Seq<MessageTypeExpression>,
    b: Set<usize>,
    ctx: ContextView,
) -> Seq<MessageTypeExpression>
    decreases frags.len(),
{
    if frags.len() == 0 {
        frags
    } else {
        let front = reaching_outside(frags.drop_last(), b, ctx);
        if frags.last().resolve_spec(ctx).subset_of(b) {
            front
        } else {
            front.push(frags.last())
        }
    }
}

impl MessageTypeExpression {
    /// The number of nodes of the expression.
    pub open spec fn size(self) -> nat
        decreases self,
    {
        match self {
            MessageTypeExpression::Singleton(_) => 1,
            MessageTypeExpression::NamedType(_) => 1,
            MessageTypeExpression::Union(a, b) => 1 + a.size() + b.size(),
            MessageTypeExpression::Intersection(a, b) => 1 + a.size() + b.size(),
            MessageTypeExpression::SetMinus(a, b) => 1 + a.size() + b.size(),
        }
    }

    /// Every named type in the expression is one of the table.
    pub open spec fn well_formed(self, ctx: ContextView) -> bool
        decreases self,
    {
        match self {
            MessageTypeExpression::Singleton(_) => true,
            MessageTypeExpression::NamedType(t) => t < ctx.mt_num(),
            MessageTypeExpression::Union(a, b) => a.well_formed(ctx) && b.well_formed(ctx),
            MessageTypeExpression::Intersection(a, b) => a.well_formed(ctx) && b.well_formed(ctx),
            MessageTypeExpression::SetMinus(a, b) => a.well_formed(ctx) && b.well_formed(ctx),
        }
    }

    /// The set of messages that the expression denotes.
    pub open spec fn resolve_spec(self, ctx: ContextView) -> Set<usize>
        decreases self,
    {
        match self {
            MessageTypeExpression::Singleton(m) => set![m],
            MessageTypeExpression::NamedType(t) => if t < ctx.mt_num() {
                ctx.mt_messages[t as int]
            } else {
                Set::empty()
            },
            MessageTypeExpression::Union(a, b) => a.resolve_spec(ctx).union(b.resolve_spec(ctx)),
            MessageTypeExpression::Intersection(a, b) => a.resolve_spec(ctx).intersect(
                b.resolve_spec(ctx),
            ),
            MessageTypeExpression::SetMinus(a, b) => a.resolve_spec(ctx).difference(
                b.resolve_spec(ctx),
            ),
        }
    }

    /// The operands of a nest of unions, as they stand and in their order.
    pub open spec fn union_leaves(self) -> Seq<MessageTypeExpression>
        decreases self,
    {
        match self {
            MessageTypeExpression::Union(a, b) => a.union_leaves() + b.union_leaves(),
            _ => seq![self],
        }
    }

    /// The operands of a nest of intersections, as they stand and in their
    /// order.
    pub open spec fn inter_leaves(self) -> Seq<MessageTypeExpression>
        decreases self,
    {
        match self {
            MessageTypeExpression::Intersection(a, b) => a.inter_leaves() + b.inter_leaves(),
            _ => seq![self],
        }
    }

    /// The expression, or the shortest name of what it denotes: a singleton
    /// or a named type stands as it is; another expression that denotes one
    /// message becomes that singleton, and one that denotes what a named
    /// type denotes becomes the first such type.
    pub open spec fn collapsed(self, ctx: ContextView) -> MessageTypeExpression {
        let resolved = self.resolve_spec(ctx);
        match self {
            MessageTypeExpression::Singleton(_) => self,
            MessageTypeExpression::NamedType(_) => self,
            _ => if is_single(resolved) {
                MessageTypeExpression::Singleton(resolved.choose())
            } else if let Some(t) = ctx.type_denoting(resolved) {
                MessageTypeExpression::NamedType(t)
            } else {
                self
            },
        }
    }

    /// The canonical form of an expression that denotes some message.
    ///
    /// Where the expression has a shorter name (see `collapsed`), that is
    /// its canonical form. Otherwise a union is folded from the parts of
    /// its nest, each once, and so is an intersection. A difference of
    /// disjoint operands is its simplified minuend. In another difference
    /// the fragments of the simplified minuend that lie within the
    /// subtrahend are cancelled: what stays of the minuend is folded and
    /// given its shortest name, and is the result where it no longer meets
    /// the subtrahend, and else the minuend of a difference with the
    /// simplified subtrahend.
    pub open spec fn canonical_form(self, ctx: ContextView) -> MessageTypeExpression
        decreases self.size(), 0nat,
    {
        if self.collapsed(ctx) != self {
            self.collapsed(ctx)
        } else {
            match self {
                MessageTypeExpression::SetMinus(a, b) => {
                    if a.resolve_spec(ctx).disjoint(b.resolve_spec(ctx)) {
                        a.canonical_form(ctx)
                    } else {
                        let kept = folded_union(
                            reaching_outside(
                                a.canonical_form(ctx).union_leaves(),
                                b.resolve_spec(ctx),
                                ctx,
                            ),
                        ).collapsed(ctx);
                        if kept.resolve_spec(ctx).disjoint(b.resolve_spec(ctx)) {
                            kept
                        } else {
                            MessageTypeExpression::SetMinus(
                                Box::new(kept),
                                Box::new(b.canonical_form(ctx)),
                            )
                        }
                    }
                },
                MessageTypeExpression::Union(a, b) => folded_union(
                    unique(a.union_parts(ctx) + b.union_parts(ctx)),
                ),
                MessageTypeExpression::Intersection(a, b) => folded_inter(
                    unique(a.inter_parts(ctx) + b.inter_parts(ctx)),
                ),
                _ => self,
            }
        }
    }

    /// The parts of a nest of unions: for each operand that denotes some
    /// message, the operands of its canonical form.
    pub open spec fn union_parts(self, ctx: ContextView) -> Seq<MessageTypeExpression>
        decreases self.size(), 1nat,
    {
        match self {
            MessageTypeExpression::Union(a, b) => a.union_parts(ctx) + b.union_parts(ctx),
            _ => if self.resolve_spec(ctx).is_empty() {
                Seq::empty()
            } else {
                self.canonical_form(ctx).union_leaves()
            },
        }
    }

    /// The parts of a nest of intersections: for each operand, the operands
    /// of its canonical form.
    pub open spec fn inter_parts(self, ctx: ContextView) -> Seq<MessageTypeExpression>
        decreases self.size(), 1nat,
    {
        match self {
            MessageTypeExpression::Intersection(a, b) => a.inter_parts(ctx) + b.inter_parts(ctx),
            _ => self.canonical_form(ctx).inter_leaves(),
        }
    }

    /// The canonical form of an expression that denotes some message: see
    /// `canonical_form`.
    #[verifier::opaque]
    pub open spec fn simplify_spec(self, ctx: ContextView) -> MessageTypeExpression {
        self.canonical_form(ctx)
    }

    /// The parts of a nest of unions, each once.
    pub open spec fn union_frags(self, ctx: ContextView) -> Seq<MessageTypeExpression> {
        unique(self.union_parts(ctx))
    }

    /// The parts of a nest of intersections, each once.
    pub open spec fn inter_frags(self, ctx: ContextView) -> Seq<MessageTypeExpression> {
        unique(self.inter_parts(ctx))
    }
}

pub proof fn lemma_merged(
    l: Seq<MessageTypeExpression>,
    r: Seq<MessageTypeExpression>,
    ctx: ContextView,
)
    ensures
        merged(l, r).len() >= l.len(),
        r.len() > 0 ==> merged(l, r).len() > 0,
        all_well_formed(l, ctx) && all_well_formed(r, ctx) ==> all_well_formed(merged(l, r), ctx),
        forall|x: MessageTypeExpression|
            merged(l, r).contains(x) <==> l.contains(x) || r.contains(x),
        l.no_duplicates() ==> merged(l, r).no_duplicates(),
    decreases r.len(),
{
    if r.len() == 0 {
        assert forall|x: MessageTypeExpression| !r.contains(x) by {}
    } else {
        let front = merged(l, r.drop_last());
        lemma_merged(l, r.drop_last(), ctx);
        assert(all_well_formed(r, ctx) ==> all_well_formed(r.drop_last(), ctx)) by {
            if all_well_formed(r, ctx) {
                assert forall|i: int| 0 <= i < r.drop_last().len() implies (
                #[trigger] r.drop_last()[i]).well_formed(ctx) by {
                    assert(r.drop_last()[i] == r[i]);
                }
            }
        }
        assert(r.contains(r.last())) by {
            assert(r[r.len() - 1] == r.last());
        }
        assert forall|x: MessageTypeExpression|
            merged(l, r).contains(x) <==> l.contains(x) || r.contains(x) by {
            if r.contains(x) {
                let i = choose|i: int| 0 <= i < r.len() && r[i] == x;
                if i < r.len() - 1 {
                    assert(r.drop_last()[i] == x);
                    assert(r.drop_last().contains(x));
                }
            }
            if r.drop_last().contains(x) {
                let i = choose|i: int| 0 <= i < r.drop_last().len() && r.drop_last()[i] == x;
                assert(r[i] == x);
            }
            if front.contains(r.last()) {
            } else {
                let m = front.push(r.last());
                if m.contains(x) {
                    let i = choose|i: int| 0 <= i < m.len() && m[i] == x;
                    if i < front.len() {
                        assert(front[i] == x);
                        assert(front.contains(x));
                    }
                }
                if front.contains(x) {
                    let i = choose|i: int| 0 <= i < front.len() && front[i] == x;
                    assert(m[i] == x);
                }
                assert(m[front.len() as int] == r.last());
            }
        }
        if front.contains(r.last()) {
        } else {
            let m = front.push(r.last());
            if all_well_formed(l, ctx) && all_well_formed(r, ctx) {
                assert forall|i: int| 0 <= i < m.len() implies (#[trigger] m[i]).well_formed(
                    ctx,
                ) by {
                    if i < front.len() {
                        assert(m[i] == front[i]);
                    } else {
                        assert(m[i] == r[r.len() - 1]);
                    }
                }
            }
            if l.no_duplicates() {
                assert forall|i: int, j: int| 0 <= i < m.len() && 0 <= j < m.len() && i != j implies m[i] != m[j] by {
                    if i < front.len() && j < front.len() {
                        assert(front[i] != front[j]);
                    } else if i < front.len() {
                        assert(front.contains(front[i]));
                    } else {
                        assert(front.contains(front[j]));
                    }
                }
            }
        }
    }
}

pub proof fn lemma_folded(frags: Seq<MessageTypeExpression>, ctx: ContextView)
    requires
        frags.len() > 0,
        all_well_formed(frags, ctx),
    ensures
        folded_union(frags).well_formed(ctx),
        folded_inter(frags).well_formed(ctx),
    decreases frags.len(),
{
    if frags.len() == 1 {
    } else {
        assert forall|i: int| 0 <= i < frags.drop_first().len() implies (
        #[trigger] frags.drop_first()[i]).well_formed(ctx) by {
            assert(frags.drop_first()[i] == frags[i + 1]);
        }
        lemma_folded(frags.drop_first(), ctx);
    }
}

pub proof fn lemma_type_denoting(ctx: ContextView, s: Set<usize>)
    ensures
        match ctx.type_denoting(s) {
            Some(t) => t < ctx.mt_num() && ctx.mt_messages[t as int] == s && forall|j: usize|
                j < t ==> ctx.mt_messages[j as int] != s,
            None => forall|j: usize| j < ctx.mt_num() ==> ctx.mt_messages[j as int] != s,
        },
{
    if exists|i: usize| i < ctx.mt_messages.len() && ctx.mt_messages[i as int] == s {
        let w = choose|i: usize| i < ctx.mt_messages.len() && ctx.mt_messages[i as int] == s;
        lemma_first_index(ctx.mt_messages, s, w);
    }
}

proof fn lemma_first_index(sets: Seq<Set<usize>>, s: Set<usize>, w: usize)
    requires
        w < sets.len(),
        sets[w as int] == s,
    ensures
        exists|i: usize|
            i < sets.len() && sets[i as int] == s && forall|j: usize|
                j < i ==> sets[j as int] != s,
    decreases w,
{
    if exists|j: usize| j < w && sets[j as int] == s {
        let j = choose|j: usize| j < w && sets[j as int] == s;
        lemma_first_index(sets, s, j);
    } else {
        assert(w < sets.len() && sets[w as int] == s && forall|j: usize|
            j < w ==> sets[j as int] != s);
    }
}

proof fn lemma_fold_last_two(
    s: Seq<MessageTypeExpression>,
    x: MessageTypeExpression,
    y: MessageTypeExpression,
)
    ensures
        folded_union(s.push(x).push(y)) == folded_union(
            s.push(MessageTypeExpression::Union(Box::new(x), Box::new(y))),
        ),
        folded_inter(s.push(x).push(y)) == folded_inter(
            s.push(MessageTypeExpression::Intersection(Box::new(x), Box::new(y))),
        ),
    decreases s.len(),
{
    let long = s.push(x).push(y);
    if s.len() == 0 {
        assert(long.drop_first() =~= seq![y]);
        assert(folded_union(long.drop_first()) == y);
        assert(folded_inter(long.drop_first()) == y);
    } else {
        lemma_fold_last_two(s.drop_first(), x, y);
        assert(long.drop_first() =~= s.drop_first().push(x).push(y));
        let u = s.push(MessageTypeExpression::Union(Box::new(x), Box::new(y)));
        assert(u.drop_first() =~= s.drop_first().push(
            MessageTypeExpression::Union(Box::new(x), Box::new(y)),
        ));
        let i = s.push(MessageTypeExpression::Intersection(Box::new(x), Box::new(y)));
        assert(i.drop_first() =~= s.drop_first().push(
            MessageTypeExpression::Intersection(Box::new(x), Box::new(y)),
        ));
    }
}

fn holds(v: &Vec<MessageTypeExpression>, x: &MessageTypeExpression) -> (r: bool)
    ensures
        r == v@.contains(*x),
{
    let mut i: usize = 0;
    while i < v.len()
        invariant
            i <= v.len(),
            forall|j: int| 0 <= j < i ==> v@[j] != *x,
        decreases v.len() - i,
    {
        if v[i] == *x {
            return true;
        }
        i += 1;
    }
    false
}

/// Appends to `dst` the fragments of `src` that it does not hold yet.
fn merge_into(dst: &mut Vec<MessageTypeExpression>, src: &Vec<MessageTypeExpression>)
    ensures
        final(dst)@ == merged(old(dst)@, src@),
{
    let ghost orig = dst@;
    let mut i: usize = 0;
    proof {
        assert(src@.take(0) =~= Seq::<MessageTypeExpression>::empty());
    }
    while i < src.len()
        invariant
            i <= src.len(),
            dst@ == merged(orig, src@.take(i as int)),
        decreases src.len() - i,
    {
        proof {
            assert(src@.take(i + 1).drop_last() =~= src@.take(i as int));
            assert(src@.take(i + 1).last() == src@[i as int]);
        }
        if !holds(dst, &src[i]) {
            dst.push(src[i].clone());
        }
        i += 1;
    }
    proof {
        assert(src@.take(src.len() as int) =~= src@);
    }
}

/// The fragments of `frags` that denote some message outside `b`.
fn keep_reaching_outside(
    frags: &Vec<MessageTypeExpression>,
    b: &HashSet<usize>,
    gen_ctx: &GeneralContext,
) -> (out: Vec<MessageTypeExpression>)
    requires
        all_well_formed(frags@, gen_ctx@),
    ensures
        out@ == reaching_outside(frags@, b@, gen_ctx@),
{
    let mut out: Vec<MessageTypeExpression> = Vec::new();
    let mut i: usize = 0;
    proof {
        assert(frags@.take(0) =~= Seq::<MessageTypeExpression>::empty());
    }
    while i < frags.len()
        invariant
            i <= frags.len(),
            all_well_formed(frags@, gen_ctx@),
            out@ == reaching_outside(frags@.take(i as int), b@, gen_ctx@),
        decreases frags.len() - i,
    {
        proof {
            assert(frags@.take(i + 1).drop_last() =~= frags@.take(i as int));
            assert(frags@.take(i + 1).last() == frags@[i as int]);
            assert(frags@[i as int].well_formed(gen_ctx@));
        }
        let denoted = frags[i].resolve(gen_ctx);
        if !set_is_subset(&denoted, b) {
            out.push(frags[i].clone());
        }
        i += 1;
    }
    proof {
        assert(frags@.take(frags.len() as int) =~= frags@);
    }
    out
}

impl MessageTypeExpression {
    /// The set of messages that the expression denotes.
    pub fn resolve(&self, gen_ctx: &GeneralContext) -> (r: HashSet<usize>)
        requires
            self.well_formed(gen_ctx@),
        ensures
            r@ == self.resolve_spec(gen_ctx@),
        decreases *self,
    {
        match self {
            MessageTypeExpression::Singleton(ms_id) => set_single(*ms_id),
            MessageTypeExpression::NamedType(mt_id) => {
                match gen_ctx.get_mt_messages(*mt_id) {
                    Ok(messages) => messages,
                    Err(_) => HashSet::new(),
                }
            },
            MessageTypeExpression::Union(mte1, mte2) => {
                let s1 = mte1.resolve(gen_ctx);
                let s2 = mte2.resolve(gen_ctx);
                set_union(&s1, &s2)
            },
            MessageTypeExpression::Intersection(mte1, mte2) => {
                let s1 = mte1.resolve(gen_ctx);
                let s2 = mte2.resolve(gen_ctx);
                set_intersection(&s1, &s2)
            },
            MessageTypeExpression::SetMinus(mte1, mte2) => {
                let s1 = mte1.resolve(gen_ctx);
                let s2 = mte2.resolve(gen_ctx);
                set_difference(&s1, &s2)
            },
        }
    }


    /// The operands of a nest of unions: see `union_leaves`.
    pub fn into_union_leaves(self) -> (r: Vec<MessageTypeExpression>)
        ensures
            r@ == self.union_leaves(),
        decreases self,
    {
        match self {
            MessageTypeExpression::Union(mte1, mte2) => {
                let mut left = (*mte1).into_union_leaves();
                let mut right = (*mte2).into_union_leaves();
                left.append(&mut right);
                left
            },
            x => {
                let mut leaves: Vec<MessageTypeExpression> = Vec::new();
                leaves.push(x);
                proof {
                    assert(leaves@ =~= seq![self]);
                }
                leaves
            },
        }
    }

    /// The operands of a nest of intersections: see `inter_leaves`.
    pub fn into_inter_leaves(self) -> (r: Vec<MessageTypeExpression>)
        ensures
            r@ == self.inter_leaves(),
        decreases self,
    {
        match self {
            MessageTypeExpression::Intersection(mte1, mte2) => {
                let mut left = (*mte1).into_inter_leaves();
                let mut right = (*mte2).into_inter_leaves();
                left.append(&mut right);
                left
            },
            x => {
                let mut leaves: Vec<MessageTypeExpression> = Vec::new();
                leaves.push(x);
                proof {
                    assert(leaves@ =~= seq![self]);
                }
                leaves
            },
        }
    }

    /// The shorter name of what the expression denotes, if it has one: see
    /// `collapsed`.
    pub fn shorter_name(&self, gen_ctx: &GeneralContext) -> (r: Option<MessageTypeExpression>)
        requires
            self.well_formed(gen_ctx@),
        ensures
            r == (if self.collapsed(gen_ctx@) != *self {
                Some(self.collapsed(gen_ctx@))
            } else {
                None
            }),
    {
        match self {
            MessageTypeExpression::Singleton(_) => {
                return None;
            },
            MessageTypeExpression::NamedType(_) => {
                return None;
            },
            _ => {},
        }
        let resolved = self.resolve(gen_ctx);
        if let Some(ms_id) = set_sole_element(&resolved) {
            return Some(MessageTypeExpression::Singleton(ms_id));
        }
        let mt_num = gen_ctx.get_mt_num();
        let mut ms_ty_idx: usize = 0;
        while ms_ty_idx < mt_num
            invariant
                ms_ty_idx <= mt_num,
                mt_num == gen_ctx@.mt_num(),
                resolved@ == self.resolve_spec(gen_ctx@),
                !is_single(resolved@),
                !(self is Singleton),
                !(self is NamedType),
                forall|j: usize| j < ms_ty_idx ==> gen_ctx@.mt_messages[j as int] != resolved@,
            decreases mt_num - ms_ty_idx,
        {
            if let Ok(type_messages) = gen_ctx.get_mt_messages(ms_ty_idx) {
                if set_equal(&type_messages, &resolved) {
                    proof {
                        lemma_type_denoting(gen_ctx@, resolved@);
                        assert(gen_ctx@.mt_messages[ms_ty_idx as int] == resolved@);
                        let found = gen_ctx@.type_denoting(resolved@);
                        assert(found is Some);
                        let t = found->0;
                        if t < ms_ty_idx {
                            assert(gen_ctx@.mt_messages[t as int] != resolved@);
                        }
                        if ms_ty_idx < t {
                            assert(gen_ctx@.mt_messages[ms_ty_idx as int] != resolved@);
                        }
                        assert(t == ms_ty_idx);
                    }
                    return Some(MessageTypeExpression::NamedType(ms_ty_idx));
                }
            }
            ms_ty_idx += 1;
        }
        proof {
            lemma_type_denoting(gen_ctx@, resolved@);
            assert(gen_ctx@.type_denoting(resolved@) is None);
        }
        None
    }

    /// The canonical form of an expression that denotes some message: see
    /// `simplify_spec`. It denotes what the expression denotes, and
    /// simplifying it again gives it again.
    pub fn simplify(self, gen_ctx: &GeneralContext) -> (r: Self)
        requires
            self.well_formed(gen_ctx@),
            !self.resolve_spec(gen_ctx@).is_empty(),
        ensures
            r == self.simplify_spec(gen_ctx@),
            r.well_formed(gen_ctx@),
            r.resolve_spec(gen_ctx@) == self.resolve_spec(gen_ctx@),
            r.canonical(gen_ctx@),
            r.simplify_spec(gen_ctx@) == r,
        decreases self.size(), 0nat,
    {
        proof {
            reveal(MessageTypeExpression::simplify_spec);
            lemma_simplify_keeps_resolution(self, gen_ctx@);
            crate::canonical::lemma_simplify_idempotent(self, gen_ctx@);
        }
        if let Some(short) = self.shorter_name(gen_ctx) {
            return short;
        }
        match self {
            MessageTypeExpression::SetMinus(mte1, mte2) => {
                let s1 = mte1.resolve(gen_ctx);
                let s2 = mte2.resolve(gen_ctx);
                if set_disjoint(&s1, &s2) {
                    proof {
                        assert(!s1@.is_empty()) by {
                            assert(s1@.difference(s2@) =~= s1@);
                        }
                    }
                    (*mte1).simplify(gen_ctx)
                } else {
                    proof {
                        assert(!s1@.is_empty() && !s2@.is_empty()) by {
                            if s1@.is_empty() || s2@.is_empty() {
                                assert(s1@.intersect(s2@) =~= Set::<usize>::empty());
                            }
                        }
                        lemma_simplify_keeps_resolution(*mte1, gen_ctx@);
                        crate::message_laws::lemma_leaves(mte1.simplify_spec(gen_ctx@), gen_ctx@);
                        crate::message_laws::lemma_kept_minuend(*mte1, *mte2, gen_ctx@);
                    }
                    let leaves = (*mte1).simplify(gen_ctx).into_union_leaves();
                    let mut rest = keep_reaching_outside(&leaves, &s2, gen_ctx);
                    let folded = Self::fold_recursive_msg_unions(&mut rest);
                    let kept = match folded.shorter_name(gen_ctx) {
                        Some(short) => short,
                        None => folded,
                    };
                    let s3 = kept.resolve(gen_ctx);
                    if set_disjoint(&s3, &s2) {
                        kept
                    } else {
                        MessageTypeExpression::SetMinus(
                            Box::new(kept),
                            Box::new((*mte2).simplify(gen_ctx)),
                        )
                    }
                }
            },
            MessageTypeExpression::Union(mte1, mte2) => {
                proof {
                    crate::message_laws::lemma_union_parts(*mte1, gen_ctx@);
                    crate::message_laws::lemma_union_parts(*mte2, gen_ctx@);
                    crate::message_laws::lemma_nest_parts(self, gen_ctx@);
                }
                let mut parts = (*mte1).collect_union_parts(gen_ctx);
                let mut others = (*mte2).collect_union_parts(gen_ctx);
                parts.append(&mut others);
                let mut unions: Vec<MessageTypeExpression> = Vec::new();
                merge_into(&mut unions, &parts);
                Self::fold_recursive_msg_unions(&mut unions)
            },
            MessageTypeExpression::Intersection(mte1, mte2) => {
                proof {
                    assert(!mte1.resolve_spec(gen_ctx@).is_empty() && !mte2.resolve_spec(
                        gen_ctx@,
                    ).is_empty()) by {
                        if mte1.resolve_spec(gen_ctx@).is_empty() || mte2.resolve_spec(
                            gen_ctx@,
                        ).is_empty() {
                            assert(self.resolve_spec(gen_ctx@) =~= Set::<usize>::empty());
                        }
                    }
                    crate::message_laws::lemma_inter_parts(*mte1, gen_ctx@);
                    crate::message_laws::lemma_inter_parts(*mte2, gen_ctx@);
                    crate::message_laws::lemma_nest_parts(self, gen_ctx@);
                }
                let mut parts = (*mte1).collect_inter_parts(gen_ctx);
                let mut others = (*mte2).collect_inter_parts(gen_ctx);
                parts.append(&mut others);
                let mut inters: Vec<MessageTypeExpression> = Vec::new();
                merge_into(&mut inters, &parts);
                Self::fold_recursive_msg_inters(&mut inters)
            },
            other => other,
        }
    }

    /// The parts of a nest of unions: see `union_parts`.
    fn collect_union_parts(self, gen_ctx: &GeneralContext) -> (parts: Vec<MessageTypeExpression>)
        requires
            self.well_formed(gen_ctx@),
        ensures
            parts@ == self.union_parts(gen_ctx@),
        decreases self.size(), 1nat,
    {
        proof {
            reveal(MessageTypeExpression::simplify_spec);
        }
        match self {
            MessageTypeExpression::Union(mte1, mte2) => {
                let mut left = (*mte1).collect_union_parts(gen_ctx);
                let mut right = (*mte2).collect_union_parts(gen_ctx);
                left.append(&mut right);
                left
            },
            x => {
                if x.resolve(gen_ctx).is_empty() {
                    Vec::new()
                } else {
                    x.simplify(gen_ctx).into_union_leaves()
                }
            },
        }
    }

    /// The parts of a nest of intersections: see `inter_parts`.
    fn collect_inter_parts(self, gen_ctx: &GeneralContext) -> (parts: Vec<MessageTypeExpression>)
        requires
            self.well_formed(gen_ctx@),
            !self.resolve_spec(gen_ctx@).is_empty(),
        ensures
            parts@ == self.inter_parts(gen_ctx@),
        decreases self.size(), 1nat,
    {
        proof {
            reveal(MessageTypeExpression::simplify_spec);
        }
        match self {
            MessageTypeExpression::Intersection(mte1, mte2) => {
                proof {
                    if mte1.resolve_spec(gen_ctx@).is_empty() || mte2.resolve_spec(
                        gen_ctx@,
                    ).is_empty() {
                        assert(self.resolve_spec(gen_ctx@) =~= Set::<usize>::empty());
                    }
                }
                let mut left = (*mte1).collect_inter_parts(gen_ctx);
                let mut right = (*mte2).collect_inter_parts(gen_ctx);
                left.append(&mut right);
                left
            },
            x => x.simplify(gen_ctx).into_inter_leaves(),
        }
    }

    /// The parts of a nest of unions, each once: for each operand that
    /// denotes some message, the operands of its canonical form.
    pub fn get_recursive_msg_union(self, gen_ctx: &GeneralContext) -> (frags: Vec<
        MessageTypeExpression,
    >)
        requires
            self.well_formed(gen_ctx@),
        ensures
            frags@ == self.union_frags(gen_ctx@),
            all_well_formed(frags@, gen_ctx@),
            !self.resolve_spec(gen_ctx@).is_empty() ==> frags@.len() > 0,
    {
        proof {
            crate::message_laws::lemma_union_parts(self, gen_ctx@);
            crate::message_laws::lemma_unique(self.union_parts(gen_ctx@), gen_ctx@);
            if self.union_parts(gen_ctx@).len() == 0 {
                assert(crate::message_laws::union_of(self.union_parts(gen_ctx@), gen_ctx@)
                    =~= Set::<usize>::empty());
            }
        }
        let parts = self.collect_union_parts(gen_ctx);
        let mut frags: Vec<MessageTypeExpression> = Vec::new();
        merge_into(&mut frags, &parts);
        frags
    }

    /// The parts of a nest of intersections, each once: for each operand,
    /// the operands of its canonical form.
    pub fn get_recursive_msg_inter(self, gen_ctx: &GeneralContext) -> (frags: Vec<
        MessageTypeExpression,
    >)
        requires
            self.well_formed(gen_ctx@),
            !self.resolve_spec(gen_ctx@).is_empty(),
        ensures
            frags@ == self.inter_frags(gen_ctx@),
            all_well_formed(frags@, gen_ctx@),
            frags@.len() > 0,
    {
        proof {
            crate::message_laws::lemma_inter_parts(self, gen_ctx@);
            crate::message_laws::lemma_unique(self.inter_parts(gen_ctx@), gen_ctx@);
        }
        let parts = self.collect_inter_parts(gen_ctx);
        let mut frags: Vec<MessageTypeExpression> = Vec::new();
        merge_into(&mut frags, &parts);
        frags
    }

    /// Folds the fragments into one union, nested to the right, and leaves
    /// the vector empty.
    pub fn fold_recursive_msg_unions(frags: &mut Vec<MessageTypeExpression>) -> (r:
        MessageTypeExpression)
        requires
            old(frags)@.len() > 0,
        ensures
            r == folded_union(old(frags)@),
            final(frags)@.len() == 0,
    {
        let ghost orig = frags@;
        let mut acc = frags.pop().unwrap();
        proof {
            assert(frags@.push(acc) =~= orig);
        }
        while frags.len() > 0
            invariant
                folded_union(frags@.push(acc)) == folded_union(orig),
            decreases frags.len(),
        {
            let ghost before = frags@;
            let x = frags.pop().unwrap();
            proof {
                assert(before =~= frags@.push(x));
                lemma_fold_last_two(frags@, x, acc);
            }
            acc = MessageTypeExpression::Union(Box::new(x), Box::new(acc));
        }
        proof {
            assert(frags@.push(acc) =~= seq![acc]);
        }
        acc
    }

    /// Folds the fragments into one intersection, nested to the right, and
    /// leaves the vector empty.
    pub fn fold_recursive_msg_inters(frags: &mut Vec<MessageTypeExpression>) -> (r:
        MessageTypeExpression)
        requires
            old(frags)@.len() > 0,
        ensures
            r == folded_inter(old(frags)@),
            final(frags)@.len() == 0,
    {
        let ghost orig = frags@;
        let mut acc = frags.pop().unwrap();
        proof {
            assert(frags@.push(acc) =~= orig);
        }
        while frags.len() > 0
            invariant
                folded_inter(frags@.push(acc)) == folded_inter(orig),
            decreases frags.len(),
        {
            let ghost before = frags@;
            let x = frags.pop().unwrap();
            proof {
                assert(before =~= frags@.push(x));
                lemma_fold_last_two(frags@, x, acc);
            }
            acc = MessageTypeExpression::Intersection(Box::new(x), Box::new(acc));
        }
        proof {
            assert(frags@.push(acc) =~= seq![acc]);
        }
        acc
    }
}

} // verus!
