//! Interaction terms.

use crate::action::{BroadcastPrimitive, BroadcastView};
use crate::context::ContextView;
use crate::ids::copy_ids;
use crate::sync::{entries_well_formed, SyncEntry, SyncMap};
use vstd::prelude::*;

verus! {

/// A term of the interaction language.
#[derive(Debug, PartialEq, Eq, Hash)]
pub enum Interaction {
    /// The behaviour in which nothing happens.
    Empty,
    /// One broadcast.
    Action(BroadcastPrimitive),
    /// Weak sequencing of two terms; the listed lifelines may commute
    /// across the boundary.
    CoReg(Vec<usize>, Box<Interaction>, Box<Interaction>),
    /// Repetition of a term, any number of times; the list says which
    /// lifelines may commute between iterations.
    Loop(Vec<usize>, Box<Interaction>),
    /// Choice between two terms.
    Alt(Box<Interaction>, Box<Interaction>),
    /// Two terms side by side that meet on the actions of the map.
    Sync(SyncMap, Box<Interaction>, Box<Interaction>),
}

/// The mathematical term that an `Interaction` stands for: lists are
/// sequences, and a synchronisation map is the sequence of its entries.
pub enum Term {
    Empty,
    Action(BroadcastView),
    CoReg(Seq<usize>, Box<Term>, Box<Term>),
    Loop(Seq<usize>, Box<Term>),
    Alt(Box<Term>, Box<Term>),
    Sync(Seq<SyncEntry>, Box<Term>, Box<Term>),
}

/// The term that an interaction stands for.
pub open spec fn term_of(i: Interaction) -> Term
    decreases i,
{
    match i {
        Interaction::Empty => Term::Empty,
        Interaction::Action(bp) => Term::Action(bp@),
        Interaction::CoReg(cr, i1, i2) => Term::CoReg(
            cr@,
            Box::new(term_of(*i1)),
            Box::new(term_of(*i2)),
        ),
        Interaction::Loop(cr, i1) => Term::Loop(cr@, Box::new(term_of(*i1))),
        Interaction::Alt(i1, i2) => Term::Alt(Box::new(term_of(*i1)), Box::new(term_of(*i2))),
        Interaction::Sync(sync, i1, i2) => Term::Sync(
            sync@,
            Box::new(term_of(*i1)),
            Box::new(term_of(*i2)),
        ),
    }
}

impl View for Interaction {
    type V = Term;

    open spec fn view(&self) -> Term {
        term_of(*self)
    }
}

pub open spec fn max_nat(a: nat, b: nat) -> nat {
    if a >= b {
        a
    } else {
        b
    }
}

impl Term {
    /// Every message expression in the term names only types of the table.
    pub open spec fn well_formed(self, ctx: ContextView) -> bool
        decreases self,
    {
        match self {
            Term::Empty => true,
            Term::Action(bp) => bp.well_formed(ctx),
            Term::CoReg(_, t1, t2) => t1.well_formed(ctx) && t2.well_formed(ctx),
            Term::Loop(_, t1) => t1.well_formed(ctx),
            Term::Alt(t1, t2) => t1.well_formed(ctx) && t2.well_formed(ctx),
            Term::Sync(sync, t1, t2) => entries_well_formed(sync, ctx) && t1.well_formed(ctx)
                && t2.well_formed(ctx),
        }
    }

    /// The term can end without any action.
    pub open spec fn express_empty(self) -> bool
        decreases self,
    {
        match self {
            Term::Empty => true,
            Term::Action(bp) => bp.is_structurally_empty(),
            Term::CoReg(_, t1, t2) => t1.express_empty() && t2.express_empty(),
            Term::Loop(_, _) => true,
            Term::Alt(t1, t2) => t1.express_empty() || t2.express_empty(),
            Term::Sync(_, t1, t2) => t1.express_empty() && t2.express_empty(),
        }
    }

    /// The greatest number of loops that stand one inside the other.
    pub open spec fn max_nested_loop_depth(self) -> nat
        decreases self,
    {
        match self {
            Term::Empty => 0,
            Term::Action(_) => 0,
            Term::CoReg(_, t1, t2) => max_nat(
                t1.max_nested_loop_depth(),
                t2.max_nested_loop_depth(),
            ),
            Term::Loop(_, t1) => 1 + t1.max_nested_loop_depth(),
            Term::Alt(t1, t2) => max_nat(t1.max_nested_loop_depth(), t2.max_nested_loop_depth()),
            Term::Sync(_, t1, t2) => max_nat(
                t1.max_nested_loop_depth(),
                t2.max_nested_loop_depth(),
            ),
        }
    }

    /// The number of loops in the term.
    pub open spec fn total_loop_num(self) -> nat
        decreases self,
    {
        match self {
            Term::Empty => 0,
            Term::Action(_) => 0,
            Term::CoReg(_, t1, t2) => t1.total_loop_num() + t2.total_loop_num(),
            Term::Loop(_, t1) => 1 + t1.total_loop_num(),
            Term::Alt(t1, t2) => t1.total_loop_num() + t2.total_loop_num(),
            Term::Sync(_, t1, t2) => t1.total_loop_num() + t2.total_loop_num(),
        }
    }
}

impl Clone for Interaction {
    fn clone(&self) -> (r: Self)
        ensures
            r@ == self@,
        decreases *self,
    {
        match self {
            Interaction::Empty => Interaction::Empty,
            Interaction::Action(bp) => Interaction::Action(bp.clone()),
            Interaction::CoReg(cr, i1, i2) => Interaction::CoReg(
                copy_ids(cr),
                Box::new((**i1).clone()),
                Box::new((**i2).clone()),
            ),
            Interaction::Loop(cr, i1) => Interaction::Loop(copy_ids(cr), Box::new((**i1).clone())),
            Interaction::Alt(i1, i2) => Interaction::Alt(
                Box::new((**i1).clone()),
                Box::new((**i2).clone()),
            ),
            Interaction::Sync(sync, i1, i2) => Interaction::Sync(
                sync.clone(),
                Box::new((**i1).clone()),
                Box::new((**i2).clone()),
            ),
        }
    }
}

impl Interaction {
    /// Whether the term is `Empty` itself.
    pub fn is_empty(&self) -> (r: bool)
        ensures
            r == (self@ is Empty),
            r == (self@ == Term::Empty),
    {
        match self {
            Interaction::Empty => true,
            _ => false,
        }
    }

    /// Whether the term can end without any action.
    pub fn express_empty(&self) -> (r: bool)
        ensures
            r == self@.express_empty(),
        decreases *self,
    {
        match self {
            Interaction::Empty => true,
            Interaction::Action(bp) => bp.is_structurally_empty(),
            Interaction::CoReg(_, i1, i2) => i1.express_empty() && i2.express_empty(),
            Interaction::Loop(_, _) => true,
            Interaction::Alt(i1, i2) => i1.express_empty() || i2.express_empty(),
            Interaction::Sync(_, i1, i2) => i1.express_empty() && i2.express_empty(),
        }
    }

    /// The greatest number of loops that stand one inside the other.
    pub fn max_nested_loop_depth(&self) -> (r: u32)
        requires
            self@.max_nested_loop_depth() <= u32::MAX,
        ensures
            r == self@.max_nested_loop_depth(),
        decreases *self,
    {
        match self {
            Interaction::Empty => 0,
            Interaction::Action(_) => 0,
            Interaction::CoReg(_, i1, i2) => {
                let d1 = i1.max_nested_loop_depth();
                let d2 = i2.max_nested_loop_depth();
                if d1 >= d2 {
                    d1
                } else {
                    d2
                }
            },
            Interaction::Alt(i1, i2) => {
                let d1 = i1.max_nested_loop_depth();
                let d2 = i2.max_nested_loop_depth();
                if d1 >= d2 {
                    d1
                } else {
                    d2
                }
            },
            Interaction::Loop(_, i1) => 1 + i1.max_nested_loop_depth(),
            Interaction::Sync(_, i1, i2) => {
                let d1 = i1.max_nested_loop_depth();
                let d2 = i2.max_nested_loop_depth();
                if d1 >= d2 {
                    d1
                } else {
                    d2
                }
            },
        }
    }

    /// The number of loops in the term.
    pub fn total_loop_num(&self) -> (r: u32)
        requires
            self@.total_loop_num() <= u32::MAX,
        ensures
            r == self@.total_loop_num(),
        decreases *self,
    {
        match self {
            Interaction::Empty => 0,
            Interaction::Action(_) => 0,
            Interaction::CoReg(_, i1, i2) => i1.total_loop_num() + i2.total_loop_num(),
            Interaction::Alt(i1, i2) => i1.total_loop_num() + i2.total_loop_num(),
            Interaction::Loop(_, i1) => 1 + i1.total_loop_num(),
            Interaction::Sync(_, i1, i2) => i1.total_loop_num() + i2.total_loop_num(),
        }
    }
}

} // verus!
