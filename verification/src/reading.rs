//! From a written interaction to a term: the tree that a reader has made of
//! the text is resolved against the symbol table, and every operator with
//! several operands is folded in operators with two.

use crate::context::{names_of, position_of, ContextView, GeneralContext};
use crate::frags::{fold_interactions_in_binary_operator, folded, BinaryOperatorKind, OperatorView};
use crate::ids::{all_ids, first_ids};
use crate::interaction::{Interaction, Term};
use crate::naming::{
    communication_action_of, lifelines_of, message_of, parse_communication_action, parse_coreg,
    parse_message, HibouParsingError, ParsingErrorView, TargetsText, TraceActionText,
};
use crate::sync::{entries_well_formed, entries_with, ordered, SyncEntry, SyncMap};
use vstd::prelude::*;

verus! {

/// The kind of a loop, as it is written: no lifeline commutes, all do, or
/// those of a co-region.
pub enum LoopKindText {
    Weak,
    Parallel,
    CoRegion(Vec<String>),
}

/// An operator with operands, as it is written.
pub enum OperatorText {
    /// Sequencing in which no lifeline commutes.
    Sequence,
    Alt,
    /// Sequencing in which every lifeline commutes.
    Par,
    CoReg(Vec<String>),
    Sync(Vec<TraceActionText>),
}

/// The tree of a written interaction. An operator has a first operand and
/// any number of others.
pub enum InteractionText {
    Empty,
    Action { origin: Option<String>, message: String, targets: TargetsText },
    Nary(OperatorText, Box<InteractionText>, Vec<InteractionText>),
    Loop(LoopKindText, Box<InteractionText>),
}

/// The map of a synchronisation that is written as a list of actions: a
/// later action takes the place of an earlier one with the same lifeline
/// and kind.
#[verifier::opaque]
pub open spec fn sync_map_of(ctx: ContextView, acts: Seq<TraceActionText>) -> Result<
    Seq<SyncEntry>,
    ParsingErrorView,
>
    decreases acts.len(),
{
    if acts.len() == 0 {
        Ok(Seq::empty())
    } else {
        match sync_map_of(ctx, acts.drop_last()) {
            Err(e) => Err(e),
            Ok(entries) => sync_map_with(ctx, entries, acts.last()),
        }
    }
}

/// The map with one more written action.
pub open spec fn sync_map_with(ctx: ContextView, entries: Seq<SyncEntry>, act: TraceActionText) -> Result<
    Seq<SyncEntry>,
    ParsingErrorView,
> {
    match position_of(ctx.lf_names, act.lifeline@) {
        None => Err(ParsingErrorView::MissingLifelineDeclarationError(act.lifeline@)),
        Some(lf_id) => match message_of(ctx, act.message@) {
            Err(e) => Err(e),
            Ok(message) => Ok(
                entries_with(entries, SyncEntry { lf_id, act_kind: act.act_kind, message }),
            ),
        },
    }
}

proof fn lemma_sync_map_one_more(
    ctx: ContextView,
    acts: Seq<TraceActionText>,
    n: int,
    entries: Seq<SyncEntry>,
)
    requires
        0 <= n < acts.len(),
        sync_map_of(ctx, acts.take(n)) == Ok::<Seq<SyncEntry>, ParsingErrorView>(entries),
    ensures
        sync_map_of(ctx, acts.take(n + 1)) == sync_map_with(ctx, entries, acts[n]),
{
    reveal_with_fuel(sync_map_of, 2);
    assert(acts.take(n + 1).drop_last() =~= acts.take(n));
    assert(acts.take(n + 1).last() == acts[n]);
}

proof fn lemma_sync_map_none(ctx: ContextView)
    ensures
        sync_map_of(ctx, Seq::empty()) == Ok::<Seq<SyncEntry>, ParsingErrorView>(Seq::empty()),
{
    reveal_with_fuel(sync_map_of, 2);
}

proof fn lemma_sync_map_fault_stays(ctx: ContextView, acts: Seq<TraceActionText>, n: int)
    requires
        0 <= n <= acts.len(),
        sync_map_of(ctx, acts.take(n)) is Err,
    ensures
        sync_map_of(ctx, acts) == sync_map_of(ctx, acts.take(n)),
    decreases acts.len() - n,
{
    reveal_with_fuel(sync_map_of, 2);
    if n == acts.len() {
        assert(acts.take(n) =~= acts);
    } else {
        assert(acts.take(n + 1).drop_last() =~= acts.take(n));
        lemma_sync_map_fault_stays(ctx, acts, n + 1);
    }
}

/// The operator that is written.
pub open spec fn operator_of(ctx: ContextView, op: OperatorText) -> Result<
    OperatorView,
    ParsingErrorView,
> {
    match op {
        OperatorText::Sequence => Ok(OperatorView::CoReg(Seq::empty())),
        OperatorText::Alt => Ok(OperatorView::Alt),
        OperatorText::Par => Ok(OperatorView::CoReg(all_ids(ctx.lf_num()))),
        OperatorText::CoReg(names) => match lifelines_of(ctx.lf_names, names_of(names@), false) {
            Err(e) => Err(e),
            Ok(cr) => Ok(OperatorView::CoReg(cr)),
        },
        OperatorText::Sync(acts) => match sync_map_of(ctx, acts@) {
            Err(e) => Err(e),
            Ok(entries) => Ok(OperatorView::Sync(entries)),
        },
    }
}

/// The co-region of a loop of the written kind.
pub open spec fn loop_coreg_of(ctx: ContextView, kind: LoopKindText) -> Result<
    Seq<usize>,
    ParsingErrorView,
> {
    match kind {
        LoopKindText::Weak => Ok(Seq::empty()),
        LoopKindText::Parallel => Ok(all_ids(ctx.lf_num())),
        LoopKindText::CoRegion(names) => lifelines_of(ctx.lf_names, names_of(names@), false),
    }
}

/// An operator over its operands, where the operator, the first operand
/// and the others are all read; else the first fault among them.
pub open spec fn nary_result(
    operator: Result<OperatorView, ParsingErrorView>,
    first: Result<Term, ParsingErrorView>,
    others: Result<Seq<Term>, ParsingErrorView>,
) -> Result<Term, ParsingErrorView> {
    match operator {
        Err(e) => Err(e),
        Ok(op) => match first {
            Err(e) => Err(e),
            Ok(t) => match others {
                Err(e) => Err(e),
                Ok(ts) => Ok(folded(op, seq![t] + ts)),
            },
        },
    }
}

/// A loop around its body, where the body and the kind of the loop are
/// read; else the first fault of the two.
pub open spec fn loop_result(
    body: Result<Term, ParsingErrorView>,
    coreg: Result<Seq<usize>, ParsingErrorView>,
) -> Result<Term, ParsingErrorView> {
    match body {
        Err(e) => Err(e),
        Ok(t) => match coreg {
            Err(e) => Err(e),
            Ok(cr) => Ok(Term::Loop(cr, Box::new(t))),
        },
    }
}

/// One more term after those that are read; a fault stays.
pub open spec fn one_more(
    front: Result<Seq<Term>, ParsingErrorView>,
    next: Result<Term, ParsingErrorView>,
) -> Result<Seq<Term>, ParsingErrorView> {
    match front {
        Err(e) => Err(e),
        Ok(ts) => match next {
            Err(e) => Err(e),
            Ok(t) => Ok(ts.push(t)),
        },
    }
}

/// The term that the tree stands for, or the first fault in the order of
/// the text: the operator comes before its operands, and the body of a
/// loop before its kind.
pub open spec fn interaction_of(ctx: ContextView, tree: InteractionText) -> Result<
    Term,
    ParsingErrorView,
>
    decreases tree, 0nat,
{
    match tree {
        InteractionText::Empty => Ok(Term::Empty),
        InteractionText::Action { origin, message, targets } => communication_action_of(
            ctx,
            match origin {
                Some(name) => Some(name@),
                None => None,
            },
            message@,
            targets@,
        ),
        InteractionText::Nary(op, first, rest) => nary_result(
            operator_of(ctx, op),
            interaction_of(ctx, *first),
            operands_of(ctx, rest, rest@.len()),
        ),
        InteractionText::Loop(kind, body) => loop_result(
            interaction_of(ctx, *body),
            loop_coreg_of(ctx, kind),
        ),
    }
}

/// The terms of the first `n` trees of the list, or the first fault.
pub open spec fn operands_of(ctx: ContextView, trees: Vec<InteractionText>, n: nat) -> Result<
    Seq<Term>,
    ParsingErrorView,
>
    decreases trees, n,
{
    if n == 0 || n > trees@.len() {
        Ok(Seq::empty())
    } else {
        one_more(operands_of(ctx, trees, (n - 1) as nat), interaction_of(ctx, trees@[n - 1]))
    }
}

proof fn lemma_operands_fault_stays(ctx: ContextView, trees: Vec<InteractionText>, n: nat, m: nat)
    requires
        n <= m <= trees@.len(),
        operands_of(ctx, trees, n) is Err,
    ensures
        operands_of(ctx, trees, m) == operands_of(ctx, trees, n),
    decreases m - n,
{
    if n < m {
        lemma_operands_fault_stays(ctx, trees, n, (m - 1) as nat);
    }
}

/// `r` gives what `expected` says, a term by its view and a fault by its
/// view.
pub open spec fn gives_term(r: Result<Interaction, HibouParsingError>, expected: Result<
    Term,
    ParsingErrorView,
>) -> bool {
    match r {
        Ok(i) => expected == Ok::<Term, ParsingErrorView>(i@),
        Err(e) => expected == Err::<Term, ParsingErrorView>(e@),
    }
}

fn parse_sync_map(gen_ctx: &GeneralContext, acts: &Vec<TraceActionText>) -> (r: Result<
    SyncMap,
    HibouParsingError,
>)
    ensures
        match r {
            Ok(sync) => sync_map_of(gen_ctx@, acts@) == Ok::<Seq<SyncEntry>, ParsingErrorView>(
                sync@,
            ) && entries_well_formed(sync@, gen_ctx@) && ordered(sync@),
            Err(e) => sync_map_of(gen_ctx@, acts@) == Err::<Seq<SyncEntry>, ParsingErrorView>(e@),
        },
{
    let mut sync = SyncMap::new();
    let mut i: usize = 0;
    proof {
        assert(acts@.take(0) =~= Seq::<TraceActionText>::empty());
        assert(sync@ =~= Seq::<SyncEntry>::empty());
        lemma_sync_map_none(gen_ctx@);
    }
    while i < acts.len()
        invariant
            i <= acts.len(),
            sync_map_of(gen_ctx@, acts@.take(i as int)) == Ok::<Seq<SyncEntry>, ParsingErrorView>(
                sync@,
            ),
            entries_well_formed(sync@, gen_ctx@),
            ordered(sync@),
        decreases acts.len() - i,
    {
        proof {
            lemma_sync_map_one_more(gen_ctx@, acts@, i as int, sync@);
        }
        let act = &acts[i];
        let lf_id = match gen_ctx.get_lf_id(act.lifeline.as_str()) {
            None => {
                proof {
                    lemma_sync_map_fault_stays(gen_ctx@, acts@, i + 1);
                }
                return Err(HibouParsingError::MissingLifelineDeclarationError(act.lifeline.clone()));
            },
            Some(lf_id) => lf_id,
        };
        let message = match parse_message(gen_ctx, &act.message) {
            Err(e) => {
                proof {
                    lemma_sync_map_fault_stays(gen_ctx@, acts@, i + 1);
                }
                return Err(e);
            },
            Ok(message) => message,
        };
        let ghost before = sync@;
        let ghost entry = SyncEntry { lf_id, act_kind: act.act_kind, message };
        sync.insert(lf_id, act.act_kind, message);
        proof {
            lemma_entries_with_well_formed(before, entry, gen_ctx@);
        }
        i += 1;
    }
    proof {
        assert(acts@.take(acts.len() as int) =~= acts@);
    }
    Ok(sync)
}

proof fn lemma_entries_with_well_formed(entries: Seq<SyncEntry>, e: SyncEntry, ctx: ContextView)
    requires
        entries_well_formed(entries, ctx),
        e.message.well_formed(ctx),
    ensures
        entries_well_formed(entries_with(entries, e), ctx),
{
    lemma_parts_well_formed(entries, e, ctx);
    let b = crate::sync::entries_before(entries, e);
    let a = crate::sync::entries_after(entries, e);
    let w = entries_with(entries, e);
    assert forall|i: int| 0 <= i < w.len() implies (#[trigger] w[i]).message.well_formed(ctx) by {
        if i < b.len() {
            assert(w[i] == b[i]);
        } else if i == b.len() {
            assert(w[i] == e);
        } else {
            assert(w[i] == a[i - b.len() - 1]);
        }
    }
}

proof fn lemma_parts_well_formed(entries: Seq<SyncEntry>, e: SyncEntry, ctx: ContextView)
    requires
        entries_well_formed(entries, ctx),
    ensures
        entries_well_formed(crate::sync::entries_before(entries, e), ctx),
        entries_well_formed(crate::sync::entries_after(entries, e), ctx),
    decreases entries.len(),
{
    if entries.len() > 0 {
        let front = entries.drop_last();
        assert forall|i: int| 0 <= i < front.len() implies (#[trigger] front[i]).message.well_formed(
            ctx,
        ) by {
            assert(front[i] == entries[i]);
        }
        lemma_parts_well_formed(front, e, ctx);
        assert(entries[entries.len() - 1] == entries.last());
        let bf = crate::sync::entries_before(front, e);
        let b = crate::sync::entries_before(entries, e);
        assert forall|i: int| 0 <= i < b.len() implies (#[trigger] b[i]).message.well_formed(ctx) by {
            if i < bf.len() {
                assert(b[i] == bf[i]);
            }
        }
        let af = crate::sync::entries_after(front, e);
        let a = crate::sync::entries_after(entries, e);
        assert forall|i: int| 0 <= i < a.len() implies (#[trigger] a[i]).message.well_formed(ctx) by {
            if i < af.len() {
                assert(a[i] == af[i]);
            }
        }
    }
}

fn parse_operator(gen_ctx: &GeneralContext, op: &OperatorText) -> (r: Result<
    BinaryOperatorKind,
    HibouParsingError,
>)
    ensures
        match r {
            Ok(operator) => operator_of(gen_ctx@, *op) == Ok::<OperatorView, ParsingErrorView>(
                operator@,
            ) && (operator matches BinaryOperatorKind::Sync(sync) ==> entries_well_formed(
                sync@,
                gen_ctx@,
            )),
            Err(e) => operator_of(gen_ctx@, *op) == Err::<OperatorView, ParsingErrorView>(e@),
        },
{
    match op {
        OperatorText::Sequence => Ok(BinaryOperatorKind::CoReg(Vec::new())),
        OperatorText::Alt => Ok(BinaryOperatorKind::Alt),
        OperatorText::Par => Ok(BinaryOperatorKind::CoReg(first_ids(gen_ctx.get_lf_num()))),
        OperatorText::CoReg(names) => match parse_coreg(gen_ctx, names) {
            Err(e) => Err(e),
            Ok(cr) => Ok(BinaryOperatorKind::CoReg(cr)),
        },
        OperatorText::Sync(acts) => match parse_sync_map(gen_ctx, acts) {
            Err(e) => Err(e),
            Ok(sync) => Ok(BinaryOperatorKind::Sync(sync)),
        },
    }
}

proof fn lemma_folded_well_formed(op: OperatorView, ts: Seq<Term>, ctx: ContextView)
    requires
        forall|i: int| 0 <= i < ts.len() ==> (#[trigger] ts[i]).well_formed(ctx),
        op matches OperatorView::Sync(sync) ==> entries_well_formed(sync, ctx),
    ensures
        folded(op, ts).well_formed(ctx),
    decreases ts.len(),
{
    if ts.len() > 1 {
        assert forall|i: int| 0 <= i < ts.drop_first().len() implies (
        #[trigger] ts.drop_first()[i]).well_formed(ctx) by {
            assert(ts.drop_first()[i] == ts[i + 1]);
        }
        lemma_folded_well_formed(op, ts.drop_first(), ctx);
    }
}

/// Appends to `sub_ints` the terms that the trees stand for.
fn parse_operands(
    gen_ctx: &GeneralContext,
    trees: &Vec<InteractionText>,
    sub_ints: &mut Vec<Interaction>,
) -> (r: Result<(), HibouParsingError>)
    requires
        forall|k: int|
            0 <= k < old(sub_ints)@.len() ==> (#[trigger] old(sub_ints)@[k])@.well_formed(gen_ctx@),
    ensures
        match r {
            Ok(_) => operands_of(gen_ctx@, *trees, trees@.len()) matches Ok(ts)
                && crate::frags::terms_of_owned(final(sub_ints)@) == crate::frags::terms_of_owned(
                old(sub_ints)@,
            ) + ts && forall|k: int|
                0 <= k < final(sub_ints)@.len() ==> (#[trigger] final(sub_ints)@[k])@.well_formed(
                    gen_ctx@,
                ),
            Err(e) => operands_of(gen_ctx@, *trees, trees@.len()) == Err::<
                Seq<Term>,
                ParsingErrorView,
            >(e@),
        },
    decreases *trees,
{
    let ghost start = crate::frags::terms_of_owned(sub_ints@);
    let mut n: usize = 0;
    let ghost mut ts: Seq<Term> = Seq::empty();
    proof {
        assert(start =~= start + ts);
    }
    while n < trees.len()
        invariant
            n <= trees.len(),
            operands_of(gen_ctx@, *trees, n as nat) == Ok::<Seq<Term>, ParsingErrorView>(ts),
            crate::frags::terms_of_owned(sub_ints@) == start + ts,
            forall|k: int|
                0 <= k < sub_ints@.len() ==> (#[trigger] sub_ints@[k])@.well_formed(gen_ctx@),
        decreases trees.len() - n,
    {
        let ghost before = sub_ints@;
        proof {
            assert(operands_of(gen_ctx@, *trees, (n + 1) as nat) == one_more(
                operands_of(gen_ctx@, *trees, n as nat),
                interaction_of(gen_ctx@, trees@[n as int]),
            ));
        }
        match parse_interaction(gen_ctx, &trees[n]) {
            Err(e) => {
                proof {
                    lemma_operands_fault_stays(gen_ctx@, *trees, (n + 1) as nat, trees@.len());
                }
                return Err(e);
            },
            Ok(sub) => {
                let ghost sub_term = sub@;
                sub_ints.push(sub);
                proof {
                    assert(crate::frags::terms_of_owned(sub_ints@) =~= crate::frags::terms_of_owned(
                        before,
                    ).push(sub_term));
                    assert((start + ts).push(sub_term) =~= start + ts.push(sub_term));
                    ts = ts.push(sub_term);
                    assert forall|k: int| 0 <= k < sub_ints@.len() implies (
                    #[trigger] sub_ints@[k])@.well_formed(gen_ctx@) by {
                        if k < before.len() {
                            assert(sub_ints@[k] == before[k]);
                        }
                    }
                }
            },
        }
        n += 1;
    }
    Ok(())
}

/// The term that the tree of a written interaction stands for: see
/// `interaction_of`.
pub fn parse_interaction(gen_ctx: &GeneralContext, tree: &InteractionText) -> (r: Result<
    Interaction,
    HibouParsingError,
>)
    ensures
        gives_term(r, interaction_of(gen_ctx@, *tree)),
        r matches Ok(i) ==> i@.well_formed(gen_ctx@),
    decreases *tree,
{
    match tree {
        InteractionText::Empty => Ok(Interaction::Empty),
        InteractionText::Action { origin, message, targets } => parse_communication_action(
            gen_ctx,
            origin,
            message,
            targets,
        ),
        InteractionText::Nary(op, first, rest) => {
            let operator = match parse_operator(gen_ctx, op) {
                Err(e) => {
                    return Err(e);
                },
                Ok(operator) => operator,
            };
            let first_int = match parse_interaction(gen_ctx, first) {
                Err(e) => {
                    return Err(e);
                },
                Ok(i) => i,
            };
            let ghost first_term = first_int@;
            let mut sub_ints: Vec<Interaction> = Vec::new();
            sub_ints.push(first_int);
            proof {
                assert(crate::frags::terms_of_owned(sub_ints@) =~= seq![first_term]);
            }
            match parse_operands(gen_ctx, rest, &mut sub_ints) {
                Err(e) => {
                    return Err(e);
                },
                Ok(_) => {},
            }
            proof {
                let all = crate::frags::terms_of_owned(sub_ints@);
                assert forall|k: int| 0 <= k < all.len() implies (#[trigger] all[k]).well_formed(
                    gen_ctx@,
                ) by {
                    assert(all[k] == sub_ints@[k]@);
                }
                lemma_folded_well_formed(operator@, all, gen_ctx@);
            }
            Ok(fold_interactions_in_binary_operator(&operator, &mut sub_ints))
        },
        InteractionText::Loop(kind, body) => {
            let sub_int = match parse_interaction(gen_ctx, body) {
                Err(e) => {
                    return Err(e);
                },
                Ok(i) => i,
            };
            let coreg = match kind {
                LoopKindText::Weak => Vec::new(),
                LoopKindText::Parallel => first_ids(gen_ctx.get_lf_num()),
                LoopKindText::CoRegion(names) => match parse_coreg(gen_ctx, names) {
                    Err(e) => {
                        return Err(e);
                    },
                    Ok(cr) => cr,
                },
            };
            Ok(Interaction::Loop(coreg, Box::new(sub_int)))
        },
    }
}

} // verus!
