//! The atomic action of an interaction: a broadcast.

use crate::context::ContextView;
use crate::ids::copy_ids;
use crate::message::MessageTypeExpression;
use vstd::prelude::*;

verus! {

/// A broadcast: a message that one lifeline emits and that the targets
/// receive. With its origin it is still to be emitted; without it the
/// emission has happened and the targets are still to receive.
#[derive(Debug, PartialEq, Eq, Hash)]
pub struct BroadcastPrimitive {
    pub origin_on_emission: Option<usize>,
    pub message_type: MessageTypeExpression,
    pub targets: Vec<usize>,
}

/// What a broadcast holds, with its targets as a sequence.
pub struct BroadcastView {
    pub origin: Option<usize>,
    pub message_type: MessageTypeExpression,
    pub targets: Seq<usize>,
}

impl View for BroadcastPrimitive {
    type V = BroadcastView;

    open spec fn view(&self) -> BroadcastView {
        BroadcastView {
            origin: self.origin_on_emission,
            message_type: self.message_type,
            targets: self.targets@,
        }
    }
}

impl Clone for BroadcastPrimitive {
    fn clone(&self) -> (r: Self)
        ensures
            r@ == self@,
    {
        BroadcastPrimitive {
            origin_on_emission: self.origin_on_emission,
            message_type: self.message_type.clone(),
            targets: copy_ids(&self.targets),
        }
    }
}

impl BroadcastView {
    /// Neither an origin nor a target is left.
    pub open spec fn is_structurally_empty(self) -> bool {
        self.origin is None && self.targets.len() == 0
    }

    /// The message expression names only types of the table.
    pub open spec fn well_formed(self, ctx: ContextView) -> bool {
        self.message_type.well_formed(ctx)
    }

    /// The origin, if any, and the targets.
    pub open spec fn involved_lifelines(self) -> Set<usize> {
        match self.origin {
            Some(lf) => self.targets.to_set().insert(lf),
            None => self.targets.to_set(),
        }
    }

    /// The number of emissions and receptions still to happen.
    pub open spec fn actions_number(self) -> nat {
        match self.origin {
            Some(_) => self.targets.len() + 1,
            None => self.targets.len(),
        }
    }
}

impl BroadcastPrimitive {
    pub fn new(
        origin_on_emission: Option<usize>,
        message_type: MessageTypeExpression,
        targets: Vec<usize>,
    ) -> (r: Self)
        ensures
            r.origin_on_emission == origin_on_emission,
            r.message_type == message_type,
            r.targets == targets,
    {
        BroadcastPrimitive { origin_on_emission, message_type, targets }
    }

    pub fn is_structurally_empty(&self) -> (r: bool)
        ensures
            r == self@.is_structurally_empty(),
    {
        match self.origin_on_emission {
            Some(_) => false,
            None => self.targets.len() == 0,
        }
    }
}

} // verus!
