//! Observable actions: a lifeline emits or receives a message.

use crate::context::{ContextView, GeneralContext};
use crate::message::MessageTypeExpression;
use crate::sets::set_disjoint;
use vstd::prelude::*;

verus! {

/// Whether an action sends or receives.
#[derive(Debug, Clone, Copy, PartialEq, Eq, Structural, Hash, PartialOrd, Ord)]
pub enum TraceActionKind {
    Emission,
    Reception,
}

/// An action of a trace: lifeline `lf_id` emits or receives a message of
/// the set that `message` denotes.
#[derive(Debug, Eq, Hash)]
pub struct TraceAction {
    pub lf_id: usize,
    pub act_kind: TraceActionKind,
    pub message: MessageTypeExpression,
}

impl Clone for TraceAction {
    fn clone(&self) -> (r: Self)
        ensures
            r == *self,
    {
        TraceAction { lf_id: self.lf_id, act_kind: self.act_kind, message: self.message.clone() }
    }
}

impl PartialEq for TraceAction {
    fn eq(&self, other: &Self) -> (r: bool) {
        self.lf_id == other.lf_id && self.act_kind == other.act_kind && self.message == other.message
    }
}

impl vstd::std_specs::cmp::PartialEqSpecImpl for TraceAction {
    open spec fn obeys_eq_spec() -> bool {
        true
    }

    open spec fn eq_spec(&self, other: &Self) -> bool {
        *self == *other
    }
}

/// A trace: the actions observed on one co-localization, in order.
pub type Trace = Vec<TraceAction>;

/// A multi-trace: one trace for each co-localization.
pub type MultiTrace = Vec<Trace>;

impl TraceAction {
    /// The message expression names only types of the table.
    pub open spec fn well_formed(self, ctx: ContextView) -> bool {
        self.message.well_formed(ctx)
    }

    /// Same lifeline, same kind, and the two message sets meet.
    pub open spec fn type_compatible(self, other: TraceAction, ctx: ContextView) -> bool {
        &&& self.lf_id == other.lf_id
        &&& self.act_kind == other.act_kind
        &&& !self.message.resolve_spec(ctx).disjoint(other.message.resolve_spec(ctx))
    }

    pub fn new(lf_id: usize, act_kind: TraceActionKind, message: MessageTypeExpression) -> (r:
        TraceAction)
        ensures
            r == (TraceAction { lf_id, act_kind, message }),
    {
        TraceAction { lf_id, act_kind, message }
    }

    /// Whether the two actions are type-compatible.
    pub fn is_type_included(&self, other: &Self, gen_ctx: &GeneralContext) -> (r: bool)
        requires
            self.well_formed(gen_ctx@),
            other.well_formed(gen_ctx@),
        ensures
            r == self.type_compatible(*other, gen_ctx@),
    {
        if self.lf_id != other.lf_id {
            return false;
        }
        if self.act_kind != other.act_kind {
            return false;
        }
        let mine = self.message.resolve(gen_ctx);
        let theirs = other.message.resolve(gen_ctx);
        !set_disjoint(&mine, &theirs)
    }
}

/// Every action of the trace is well formed.
pub open spec fn trace_well_formed(trace: Seq<TraceAction>, ctx: ContextView) -> bool {
    forall|i: int| 0 <= i < trace.len() ==> (#[trigger] trace[i]).well_formed(ctx)
}

} // verus!
