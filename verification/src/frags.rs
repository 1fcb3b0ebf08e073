//! Flat views of nested operators: the operands of a nest of one operator,
//! and the nest that is folded from a list of operands.

use crate::ids::{copy_ids, ids_equal};
use crate::interaction::{Interaction, Term};
use crate::sync::{SyncEntry, SyncMap};
use vstd::prelude::*;

verus! {

/// The terms that a list of interactions stands for.
pub open spec fn terms_of(v: Seq<&Interaction>) -> Seq<Term> {
    Seq::new(v.len(), |i: int| (*v[i])@)
}

/// The terms that a list of interactions stands for.
pub open spec fn terms_of_owned(v: Seq<Interaction>) -> Seq<Term> {
    Seq::new(v.len(), |i: int| v[i]@)
}

/// The operands of a nest of choices, from left to right.
pub open spec fn alt_frags(t: Term) -> Seq<Term>
    decreases t,
{
    match t {
        Term::Alt(t1, t2) => alt_frags(*t1) + alt_frags(*t2),
        _ => seq![t],
    }
}

/// The operands of a nest of sequences with the co-region `cr`, from left
/// to right.
pub open spec fn coreg_frags(cr: Seq<usize>, t: Term) -> Seq<Term>
    decreases t,
{
    match t {
        Term::CoReg(cr2, t1, t2) => if cr2 == cr {
            coreg_frags(cr, *t1) + coreg_frags(cr, *t2)
        } else {
            seq![t]
        },
        _ => seq![t],
    }
}

/// The operands of a nest of synchronisations with the map `sync`, from
/// left to right.
pub open spec fn sync_frags(sync: Seq<SyncEntry>, t: Term) -> Seq<Term>
    decreases t,
{
    match t {
        Term::Sync(sync2, t1, t2) => if sync2 == sync {
            sync_frags(sync, *t1) + sync_frags(sync, *t2)
        } else {
            seq![t]
        },
        _ => seq![t],
    }
}

/// An operator with two operands.
pub enum BinaryOperatorKind {
    CoReg(Vec<usize>),
    Alt,
    Sync(SyncMap),
}

/// The operator, as far as the terms see it.
pub enum OperatorView {
    CoReg(Seq<usize>),
    Alt,
    Sync(Seq<SyncEntry>),
}

impl View for BinaryOperatorKind {
    type V = OperatorView;

    open spec fn view(&self) -> OperatorView {
        match self {
            BinaryOperatorKind::CoReg(cr) => OperatorView::CoReg(cr@),
            BinaryOperatorKind::Alt => OperatorView::Alt,
            BinaryOperatorKind::Sync(sync) => OperatorView::Sync(sync@),
        }
    }
}

/// The operator applied to two terms.
pub open spec fn applied(op: OperatorView, t1: Term, t2: Term) -> Term {
    match op {
        OperatorView::CoReg(cr) => Term::CoReg(cr, Box::new(t1), Box::new(t2)),
        OperatorView::Alt => Term::Alt(Box::new(t1), Box::new(t2)),
        OperatorView::Sync(sync) => Term::Sync(sync, Box::new(t1), Box::new(t2)),
    }
}

/// The operands under one operator, nested to the right: nothing for no
/// operand, and the operand itself where there is one.
pub open spec fn folded(op: OperatorView, ts: Seq<Term>) -> Term
    decreases ts.len(),
{
    if ts.len() == 0 {
        Term::Empty
    } else if ts.len() == 1 {
        ts[0]
    } else {
        applied(op, ts[0], folded(op, ts.drop_first()))
    }
}

proof fn lemma_fold_last_two(op: OperatorView, s: Seq<Term>, x: Term, y: Term)
    ensures
        folded(op, s.push(x).push(y)) == folded(op, s.push(applied(op, x, y))),
    decreases s.len(),
{
    let long = s.push(x).push(y);
    if s.len() == 0 {
        assert(long.drop_first() =~= seq![y]);
        assert(folded(op, long.drop_first()) == y);
    } else {
        lemma_fold_last_two(op, s.drop_first(), x, y);
        assert(long.drop_first() =~= s.drop_first().push(x).push(y));
        assert(s.push(applied(op, x, y)).drop_first() =~= s.drop_first().push(applied(op, x, y)));
    }
}

fn apply(op: &BinaryOperatorKind, i1: Interaction, i2: Interaction) -> (r: Interaction)
    ensures
        r@ == applied(op@, i1@, i2@),
{
    match op {
        BinaryOperatorKind::CoReg(cr) => Interaction::CoReg(copy_ids(cr), Box::new(i1), Box::new(i2)),
        BinaryOperatorKind::Alt => Interaction::Alt(Box::new(i1), Box::new(i2)),
        BinaryOperatorKind::Sync(sync) => Interaction::Sync(sync.clone(), Box::new(i1), Box::new(i2)),
    }
}

fn fold_refs(op: &BinaryOperatorKind, frags: &mut Vec<&Interaction>) -> (r: Interaction)
    ensures
        r@ == folded(op@, terms_of(old(frags)@)),
        final(frags)@.len() == 0,
{
    let ghost orig = terms_of(frags@);
    if frags.len() == 0 {
        return Interaction::Empty;
    }
    let last = frags.pop().unwrap();
    let mut acc = last.clone();
    proof {
        assert(terms_of(frags@).push(acc@) =~= orig);
    }
    while frags.len() > 0
        invariant
            folded(op@, terms_of(frags@).push(acc@)) == folded(op@, orig),
        decreases frags.len(),
    {
        let ghost before = terms_of(frags@);
        let x = frags.pop().unwrap();
        proof {
            assert(before =~= terms_of(frags@).push(x@));
            lemma_fold_last_two(op@, terms_of(frags@), x@, acc@);
        }
        acc = apply(op, x.clone(), acc);
    }
    proof {
        assert(terms_of(frags@).push(acc@) =~= seq![acc@]);
    }
    acc
}

/// Folds the choices between the operands, nested to the right, and
/// leaves the list empty.
pub fn fold_recursive_alt_frags(frags: &mut Vec<&Interaction>) -> (r: Interaction)
    ensures
        r@ == folded(OperatorView::Alt, terms_of(old(frags)@)),
        final(frags)@.len() == 0,
{
    fold_refs(&BinaryOperatorKind::Alt, frags)
}

/// Folds the sequences of the operands with the co-region `ref_cr`, nested
/// to the right, and leaves the list empty.
pub fn fold_recursive_coreg_frags(ref_cr: &Vec<usize>, frags: &mut Vec<&Interaction>) -> (r:
    Interaction)
    ensures
        r@ == folded(OperatorView::CoReg(ref_cr@), terms_of(old(frags)@)),
        final(frags)@.len() == 0,
{
    fold_refs(&BinaryOperatorKind::CoReg(copy_ids(ref_cr)), frags)
}

/// Folds the synchronisations of the operands with the map `sync`, nested
/// to the right, and leaves the list empty.
pub fn fold_recursive_sync_frags(sync: &SyncMap, frags: &mut Vec<&Interaction>) -> (r: Interaction)
    ensures
        r@ == folded(OperatorView::Sync(sync@), terms_of(old(frags)@)),
        final(frags)@.len() == 0,
{
    fold_refs(&BinaryOperatorKind::Sync(sync.clone()), frags)
}

/// Folds the operands under one operator, nested to the right, and leaves
/// the list empty.
pub fn fold_interactions_in_binary_operator(
    op_kind: &BinaryOperatorKind,
    sub_ints: &mut Vec<Interaction>,
) -> (r: Interaction)
    requires
        old(sub_ints)@.len() > 0,
    ensures
        r@ == folded(op_kind@, terms_of_owned(old(sub_ints)@)),
        final(sub_ints)@.len() == 0,
{
    let ghost orig = terms_of_owned(sub_ints@);
    let mut acc = sub_ints.pop().unwrap();
    proof {
        assert(terms_of_owned(sub_ints@).push(acc@) =~= orig);
    }
    while sub_ints.len() > 0
        invariant
            folded(op_kind@, terms_of_owned(sub_ints@).push(acc@)) == folded(op_kind@, orig),
        decreases sub_ints.len(),
    {
        let ghost before = terms_of_owned(sub_ints@);
        let x = sub_ints.pop().unwrap();
        proof {
            assert(before =~= terms_of_owned(sub_ints@).push(x@));
            lemma_fold_last_two(op_kind@, terms_of_owned(sub_ints@), x@, acc@);
        }
        acc = apply(op_kind, x, acc);
    }
    proof {
        assert(terms_of_owned(sub_ints@).push(acc@) =~= seq![acc@]);
    }
    acc
}

fn one<'a>(interaction: &'a Interaction) -> (r: Vec<&'a Interaction>)
    ensures
        terms_of(r@) == seq![interaction@],
{
    let mut frags: Vec<&Interaction> = Vec::new();
    frags.push(interaction);
    proof {
        assert(terms_of(frags@) =~= seq![interaction@]);
    }
    frags
}

fn joined<'a>(mut left: Vec<&'a Interaction>, mut right: Vec<&'a Interaction>) -> (r: Vec<
    &'a Interaction,
>)
    ensures
        terms_of(r@) == terms_of(left@) + terms_of(right@),
{
    let ghost l = left@;
    let ghost rr = right@;
    left.append(&mut right);
    proof {
        assert(terms_of(left@) =~= terms_of(l) + terms_of(rr));
    }
    left
}

/// The operands of a nest of choices, from left to right.
pub fn get_recursive_alt_frags<'a>(interaction: &'a Interaction) -> (r: Vec<&'a Interaction>)
    ensures
        terms_of(r@) == alt_frags(interaction@),
    decreases *interaction,
{
    match interaction {
        Interaction::Alt(i1, i2) => {
            let left = get_recursive_alt_frags(i1);
            let right = get_recursive_alt_frags(i2);
            joined(left, right)
        },
        _ => one(interaction),
    }
}

/// The operands of a nest of sequences with the co-region `ref_cr`, from
/// left to right.
pub fn get_recursive_coreg_frags<'a>(ref_cr: &Vec<usize>, interaction: &'a Interaction) -> (r: Vec<
    &'a Interaction,
>)
    ensures
        terms_of(r@) == coreg_frags(ref_cr@, interaction@),
    decreases *interaction,
{
    match interaction {
        Interaction::CoReg(cr, i1, i2) => {
            if ids_equal(cr, ref_cr) {
                let left = get_recursive_coreg_frags(ref_cr, i1);
                let right = get_recursive_coreg_frags(ref_cr, i2);
                joined(left, right)
            } else {
                one(interaction)
            }
        },
        _ => one(interaction),
    }
}

/// The operands of a nest of synchronisations with the map
/// `ref_sync_acts`, from left to right.
pub fn get_recursive_sync_frags<'a>(ref_sync_acts: &SyncMap, interaction: &'a Interaction) -> (r: Vec<
    &'a Interaction,
>)
    ensures
        terms_of(r@) == sync_frags(ref_sync_acts@, interaction@),
    decreases *interaction,
{
    match interaction {
        Interaction::Sync(sync_act, i1, i2) => {
            if sync_act.same_as(ref_sync_acts) {
                let left = get_recursive_sync_frags(ref_sync_acts, i1);
                let right = get_recursive_sync_frags(ref_sync_acts, i2);
                joined(left, right)
            } else {
                one(interaction)
            }
        },
        _ => one(interaction),
    }
}

} // verus!
