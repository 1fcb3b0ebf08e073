//! How many rows the diagram of a term takes.

use crate::ids::ids_equal;
use crate::interaction::{Interaction, Term};
use crate::sync::{SyncEntry, SyncMap};
use vstd::prelude::*;

verus! {

impl Term {
    /// The rows of the diagram of the term: none for nothing, three for an
    /// action, four more than its body for a loop. A nest of one operator
    /// is drawn as one box, in which each operand takes two rows more than
    /// its own; the box of a choice or of a synchronisation takes two more.
    pub open spec fn drawing_depth(self) -> nat
        decreases self, 0nat,
    {
        match self {
            Term::Empty => 0,
            Term::Action(_) => 3,
            Term::CoReg(cr, t1, t2) => t1.coreg_lanes(cr) + t2.coreg_lanes(cr),
            Term::Alt(t1, t2) => 2 + t1.alt_lanes() + t2.alt_lanes(),
            Term::Sync(sync, t1, t2) => 2 + t1.sync_lanes(sync) + t2.sync_lanes(sync),
            Term::Loop(_, t1) => t1.drawing_depth() + 4,
        }
    }

    /// The rows of the operands of a nest of sequences with the co-region
    /// `cr`.
    pub open spec fn coreg_lanes(self, cr: Seq<usize>) -> nat
        decreases self, 1nat,
    {
        match self {
            Term::CoReg(cr2, t1, t2) => if cr2 == cr {
                t1.coreg_lanes(cr) + t2.coreg_lanes(cr)
            } else {
                self.drawing_depth() + 2
            },
            _ => self.drawing_depth() + 2,
        }
    }

    /// The rows of the operands of a nest of choices.
    pub open spec fn alt_lanes(self) -> nat
        decreases self, 1nat,
    {
        match self {
            Term::Alt(t1, t2) => t1.alt_lanes() + t2.alt_lanes(),
            _ => self.drawing_depth() + 2,
        }
    }

    /// The rows of the operands of a nest of synchronisations with the map
    /// `sync`.
    pub open spec fn sync_lanes(self, sync: Seq<SyncEntry>) -> nat
        decreases self, 1nat,
    {
        match self {
            Term::Sync(sync2, t1, t2) => if sync2 == sync {
                t1.sync_lanes(sync) + t2.sync_lanes(sync)
            } else {
                self.drawing_depth() + 2
            },
            _ => self.drawing_depth() + 2,
        }
    }
}

fn coreg_lanes(interaction: &Interaction, ref_cr: &Vec<usize>) -> (r: usize)
    requires
        interaction@.coreg_lanes(ref_cr@) <= usize::MAX,
    ensures
        r == interaction@.coreg_lanes(ref_cr@),
    decreases *interaction, 1nat,
{
    match interaction {
        Interaction::CoReg(cr, i1, i2) => {
            if ids_equal(cr, ref_cr) {
                coreg_lanes(i1, ref_cr) + coreg_lanes(i2, ref_cr)
            } else {
                get_interaction_depth(interaction) + 2
            }
        },
        _ => get_interaction_depth(interaction) + 2,
    }
}

fn alt_lanes(interaction: &Interaction) -> (r: usize)
    requires
        interaction@.alt_lanes() <= usize::MAX,
    ensures
        r == interaction@.alt_lanes(),
    decreases *interaction, 1nat,
{
    match interaction {
        Interaction::Alt(i1, i2) => alt_lanes(i1) + alt_lanes(i2),
        _ => get_interaction_depth(interaction) + 2,
    }
}

fn sync_lanes(interaction: &Interaction, ref_sync: &SyncMap) -> (r: usize)
    requires
        interaction@.sync_lanes(ref_sync@) <= usize::MAX,
    ensures
        r == interaction@.sync_lanes(ref_sync@),
    decreases *interaction, 1nat,
{
    match interaction {
        Interaction::Sync(sync, i1, i2) => {
            if sync.same_as(ref_sync) {
                sync_lanes(i1, ref_sync) + sync_lanes(i2, ref_sync)
            } else {
                get_interaction_depth(interaction) + 2
            }
        },
        _ => get_interaction_depth(interaction) + 2,
    }
}

/// The rows of the diagram of a term: see `Term::drawing_depth`.
pub fn get_interaction_depth(interaction: &Interaction) -> (r: usize)
    requires
        interaction@.drawing_depth() <= usize::MAX,
    ensures
        r == interaction@.drawing_depth(),
    decreases *interaction, 0nat,
{
    match interaction {
        Interaction::Empty => 0,
        Interaction::Action(_) => 3,
        Interaction::CoReg(cr, i1, i2) => coreg_lanes(i1, cr) + coreg_lanes(i2, cr),
        Interaction::Alt(i1, i2) => {
            let lanes = alt_lanes(i1) + alt_lanes(i2);
            lanes + 2
        },
        Interaction::Sync(sync, i1, i2) => {
            let lanes = sync_lanes(i1, sync) + sync_lanes(i2, sync);
            lanes + 2
        },
        Interaction::Loop(_, i1) => get_interaction_depth(i1) + 4,
    }
}

/// The last row of the diagram of a term: four rows frame the term.
pub fn get_interaction_max_yshift(interaction: &Interaction) -> (r: usize)
    requires
        interaction@.drawing_depth() + 4 <= usize::MAX,
    ensures
        r == interaction@.drawing_depth() + 4,
{
    let mut cpt: usize = 4;
    cpt = cpt + get_interaction_depth(interaction);
    cpt
}

} // verus!
