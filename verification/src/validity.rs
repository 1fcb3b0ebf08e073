//! Checks that a caller can run before it hands values to the functions of
//! this library that ask something of them.

use crate::action::BroadcastPrimitive;
use crate::analysis::multi_trace_well_formed;
use crate::context::GeneralContext;
use crate::interaction::Interaction;
use crate::message::MessageTypeExpression;
use crate::position::Position;
use crate::sets::set_is_subset;
use crate::sync::{entries_well_formed, SyncMap};
use crate::trace::{trace_well_formed, MultiTrace, TraceAction, TraceActionKind};
use vstd::prelude::*;

verus! {

impl MessageTypeExpression {
    /// Whether every named type in the expression is one of the table.
    pub fn is_well_formed(&self, gen_ctx: &GeneralContext) -> (r: bool)
        ensures
            r == self.well_formed(gen_ctx@),
        decreases *self,
    {
        match self {
            MessageTypeExpression::Singleton(_) => true,
            MessageTypeExpression::NamedType(mt_id) => *mt_id < gen_ctx.get_mt_num(),
            MessageTypeExpression::Union(a, b) => a.is_well_formed(gen_ctx) && b.is_well_formed(
                gen_ctx,
            ),
            MessageTypeExpression::Intersection(a, b) => a.is_well_formed(gen_ctx)
                && b.is_well_formed(gen_ctx),
            MessageTypeExpression::SetMinus(a, b) => a.is_well_formed(gen_ctx) && b.is_well_formed(
                gen_ctx,
            ),
        }
    }
}

impl TraceAction {
    /// Whether the message expression names only types of the table.
    pub fn is_well_formed(&self, gen_ctx: &GeneralContext) -> (r: bool)
        ensures
            r == self.well_formed(gen_ctx@),
    {
        self.message.is_well_formed(gen_ctx)
    }
}

/// Whether every action of the trace names only types of the table.
pub fn is_trace_well_formed(trace: &Vec<TraceAction>, gen_ctx: &GeneralContext) -> (r: bool)
    ensures
        r == trace_well_formed(trace@, gen_ctx@),
{
    let mut i: usize = 0;
    while i < trace.len()
        invariant
            i <= trace.len(),
            forall|j: int| 0 <= j < i ==> (#[trigger] trace@[j]).well_formed(gen_ctx@),
        decreases trace.len() - i,
    {
        if !trace[i].is_well_formed(gen_ctx) {
            return false;
        }
        i += 1;
    }
    true
}

/// Whether every action of every trace names only types of the table.
pub fn is_multi_trace_well_formed(multi_trace: &MultiTrace, gen_ctx: &GeneralContext) -> (r: bool)
    ensures
        r == multi_trace_well_formed(multi_trace@, gen_ctx@),
{
    let mut i: usize = 0;
    while i < multi_trace.len()
        invariant
            i <= multi_trace.len(),
            forall|j: int| 0 <= j < i ==> trace_well_formed((#[trigger] multi_trace@[j])@, gen_ctx@),
        decreases multi_trace.len() - i,
    {
        if !is_trace_well_formed(&multi_trace[i], gen_ctx) {
            return false;
        }
        i += 1;
    }
    true
}

impl SyncMap {
    /// Whether every message expression of the map names only types of the
    /// table.
    pub fn is_well_formed(&self, gen_ctx: &GeneralContext) -> (r: bool)
        ensures
            r == entries_well_formed(self@, gen_ctx@),
    {
        let mut i: usize = 0;
        while i < self.len()
            invariant
                i <= self@.len(),
                forall|j: int| 0 <= j < i ==> (#[trigger] self@[j]).message.well_formed(gen_ctx@),
            decreases self@.len() - i,
        {
            if !self.entry(i).message.is_well_formed(gen_ctx) {
                return false;
            }
            i += 1;
        }
        true
    }
}

impl BroadcastPrimitive {
    /// Whether the action can fire at this broadcast.
    pub fn is_executable(&self, sub_pos: &Option<usize>, act: &TraceAction, gen_ctx: &GeneralContext) -> (r:
        bool)
        requires
            self@.well_formed(gen_ctx@),
            act.well_formed(gen_ctx@),
        ensures
            r == self@.executable(*sub_pos, *act, gen_ctx@),
    {
        let shown = act.message.resolve(gen_ctx);
        let offered = self.message_type.resolve(gen_ctx);
        if !set_is_subset(&shown, &offered) {
            return false;
        }
        match (self.origin_on_emission, sub_pos) {
            (Some(origin), None) => origin == act.lf_id && act.act_kind == TraceActionKind::Emission,
            (None, Some(target_idx)) => *target_idx < self.targets.len() && act.act_kind
                == TraceActionKind::Reception,
            _ => false,
        }
    }
}

impl Interaction {
    /// Whether every message expression in the term names only types of the
    /// table.
    pub fn is_well_formed(&self, gen_ctx: &GeneralContext) -> (r: bool)
        ensures
            r == self@.well_formed(gen_ctx@),
        decreases *self,
    {
        match self {
            Interaction::Empty => true,
            Interaction::Action(bp) => bp.message_type.is_well_formed(gen_ctx),
            Interaction::CoReg(_, i1, i2) => i1.is_well_formed(gen_ctx) && i2.is_well_formed(gen_ctx),
            Interaction::Loop(_, i1) => i1.is_well_formed(gen_ctx),
            Interaction::Alt(i1, i2) => i1.is_well_formed(gen_ctx) && i2.is_well_formed(gen_ctx),
            Interaction::Sync(sync, i1, i2) => sync.is_well_formed(gen_ctx) && i1.is_well_formed(
                gen_ctx,
            ) && i2.is_well_formed(gen_ctx),
        }
    }

    /// Whether the position leads to an action of the term at which `act`
    /// can fire.
    pub fn is_executable(&self, pos: &Position, act: &TraceAction, gen_ctx: &GeneralContext) -> (r:
        bool)
        requires
            self@.well_formed(gen_ctx@),
            act.well_formed(gen_ctx@),
        ensures
            r == self@.executable(*pos, *act, gen_ctx@),
        decreases *self,
    {
        match pos {
            Position::Epsilon(sub_pos) => match self {
                Interaction::Action(bp) => bp.is_executable(sub_pos, act, gen_ctx),
                _ => false,
            },
            Position::Left(p) => match self {
                Interaction::Alt(i1, _) => i1.is_executable(p, act, gen_ctx),
                Interaction::Loop(_, i1) => i1.is_executable(p, act, gen_ctx),
                Interaction::CoReg(_, i1, _) => i1.is_executable(p, act, gen_ctx),
                Interaction::Sync(_, i1, _) => i1.is_executable(p, act, gen_ctx),
                _ => false,
            },
            Position::Right(p) => match self {
                Interaction::Alt(_, i2) => i2.is_executable(p, act, gen_ctx),
                Interaction::CoReg(_, _, i2) => i2.is_executable(p, act, gen_ctx),
                Interaction::Sync(_, _, i2) => i2.is_executable(p, act, gen_ctx),
                _ => false,
            },
            Position::Both(p1, p2) => match self {
                Interaction::Alt(i1, i2) => i1.is_executable(p1, act, gen_ctx) && i2.is_executable(
                    p2,
                    act,
                    gen_ctx,
                ),
                Interaction::Sync(_, i1, i2) => i1.is_executable(p1, act, gen_ctx)
                    && i2.is_executable(p2, act, gen_ctx),
                _ => false,
            },
        }
    }

    /// Whether the position descends along the operators of the term.
    pub fn has_position(&self, pos: &Position) -> (r: bool)
        ensures
            r == self@.has_position(*pos),
        decreases *self,
    {
        match pos {
            Position::Epsilon(_) => true,
            Position::Left(p) => match self {
                Interaction::Loop(_, _) => true,
                Interaction::CoReg(_, i1, _) => i1.has_position(p),
                Interaction::Sync(_, i1, _) => i1.has_position(p),
                Interaction::Alt(_, _) => true,
                _ => false,
            },
            Position::Right(p) => match self {
                Interaction::CoReg(_, _, i2) => i2.has_position(p),
                Interaction::Sync(_, _, i2) => i2.has_position(p),
                Interaction::Alt(_, _) => true,
                _ => false,
            },
            Position::Both(p1, p2) => match self {
                Interaction::Sync(_, i1, i2) => i1.has_position(p1) && i2.has_position(p2),
                Interaction::Alt(i1, i2) => i1.has_position(p1) && i2.has_position(p2),
                _ => false,
            },
        }
    }

    /// The depth of the nesting of loops, if it fits the machine.
    pub fn checked_max_nested_loop_depth(&self) -> (r: Option<u32>)
        ensures
            match r {
                Some(d) => d == self@.max_nested_loop_depth(),
                None => self@.max_nested_loop_depth() > u32::MAX,
            },
        decreases *self,
    {
        match self {
            Interaction::Empty => Some(0),
            Interaction::Action(_) => Some(0),
            Interaction::Loop(_, i1) => match i1.checked_max_nested_loop_depth() {
                Some(d) => if d < u32::MAX {
                    Some(d + 1)
                } else {
                    None
                },
                None => None,
            },
            Interaction::CoReg(_, i1, i2) => greater(
                i1.checked_max_nested_loop_depth(),
                i2.checked_max_nested_loop_depth(),
            ),
            Interaction::Alt(i1, i2) => greater(
                i1.checked_max_nested_loop_depth(),
                i2.checked_max_nested_loop_depth(),
            ),
            Interaction::Sync(_, i1, i2) => greater(
                i1.checked_max_nested_loop_depth(),
                i2.checked_max_nested_loop_depth(),
            ),
        }
    }

    /// The number of loops, if it fits the machine.
    pub fn checked_total_loop_num(&self) -> (r: Option<u32>)
        ensures
            match r {
                Some(n) => n == self@.total_loop_num(),
                None => self@.total_loop_num() > u32::MAX,
            },
        decreases *self,
    {
        match self {
            Interaction::Empty => Some(0),
            Interaction::Action(_) => Some(0),
            Interaction::Loop(_, i1) => sum_u32(Some(1), i1.checked_total_loop_num()),
            Interaction::CoReg(_, i1, i2) => sum_u32(
                i1.checked_total_loop_num(),
                i2.checked_total_loop_num(),
            ),
            Interaction::Alt(i1, i2) => sum_u32(
                i1.checked_total_loop_num(),
                i2.checked_total_loop_num(),
            ),
            Interaction::Sync(_, i1, i2) => sum_u32(
                i1.checked_total_loop_num(),
                i2.checked_total_loop_num(),
            ),
        }
    }

    /// The number of atomic actions when branches add up and loops count,
    /// if it fits the machine.
    pub fn checked_actions_number(&self) -> (r: Option<usize>)
        ensures
            match r {
                Some(n) => n == self@.atomic_actions_number(false, true),
                None => self@.atomic_actions_number(false, true) > usize::MAX,
            },
        decreases *self,
    {
        match self {
            Interaction::Empty => Some(0),
            Interaction::Action(bp) => {
                if let Some(_) = bp.origin_on_emission {
                    sum_usize(Some(bp.targets.len()), Some(1))
                } else {
                    Some(bp.targets.len())
                }
            },
            Interaction::Loop(_, i1) => i1.checked_actions_number(),
            Interaction::CoReg(_, i1, i2) => sum_usize(
                i1.checked_actions_number(),
                i2.checked_actions_number(),
            ),
            Interaction::Alt(i1, i2) => sum_usize(
                i1.checked_actions_number(),
                i2.checked_actions_number(),
            ),
            Interaction::Sync(_, i1, i2) => sum_usize(
                i1.checked_actions_number(),
                i2.checked_actions_number(),
            ),
        }
    }

    /// The number of atomic actions outside loops when the larger branch of
    /// a choice counts, if it fits the machine.
    pub fn checked_actions_number_outside_loops(&self) -> (r: Option<usize>)
        ensures
            match r {
                Some(n) => n == self@.atomic_actions_number(true, false),
                None => self@.atomic_actions_number(true, false) > usize::MAX,
            },
        decreases *self,
    {
        match self {
            Interaction::Empty => Some(0),
            Interaction::Action(bp) => {
                if let Some(_) = bp.origin_on_emission {
                    sum_usize(Some(bp.targets.len()), Some(1))
                } else {
                    Some(bp.targets.len())
                }
            },
            Interaction::Loop(_, _) => Some(0),
            Interaction::CoReg(_, i1, i2) => sum_usize(
                i1.checked_actions_number_outside_loops(),
                i2.checked_actions_number_outside_loops(),
            ),
            Interaction::Alt(i1, i2) => {
                match (
                    i1.checked_actions_number_outside_loops(),
                    i2.checked_actions_number_outside_loops(),
                ) {
                    (Some(x), Some(y)) => if x >= y {
                        Some(x)
                    } else {
                        Some(y)
                    },
                    _ => None,
                }
            },
            Interaction::Sync(_, i1, i2) => sum_usize(
                i1.checked_actions_number_outside_loops(),
                i2.checked_actions_number_outside_loops(),
            ),
        }
    }
}

fn greater(a: Option<u32>, b: Option<u32>) -> (r: Option<u32>)
    ensures
        r == match (a, b) {
            (Some(x), Some(y)) => Some(
                if x >= y {
                    x
                } else {
                    y
                },
            ),
            _ => None,
        },
{
    match (a, b) {
        (Some(x), Some(y)) => if x >= y {
            Some(x)
        } else {
            Some(y)
        },
        _ => None,
    }
}

fn sum_u32(a: Option<u32>, b: Option<u32>) -> (r: Option<u32>)
    ensures
        r == match (a, b) {
            (Some(x), Some(y)) => if x + y <= u32::MAX {
                Some((x + y) as u32)
            } else {
                None
            },
            _ => None,
        },
{
    match (a, b) {
        (Some(x), Some(y)) => if x <= u32::MAX - y {
            Some(x + y)
        } else {
            None
        },
        _ => None,
    }
}

fn sum_usize(a: Option<usize>, b: Option<usize>) -> (r: Option<usize>)
    ensures
        r == match (a, b) {
            (Some(x), Some(y)) => if x + y <= usize::MAX {
                Some((x + y) as usize)
            } else {
                None
            },
            _ => None,
        },
{
    match (a, b) {
        (Some(x), Some(y)) => if x <= usize::MAX - y {
            Some(x + y)
        } else {
            None
        },
        _ => None,
    }
}

} // verus!
