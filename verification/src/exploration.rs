//! The exploration of a term: every action that can fire is a step.

use crate::context::{ContextView, GeneralContext};
use crate::execute::execute_interaction;
use crate::frontier::{frontier_well_formed, global_frontier, narrowed, FrontierElement};
use crate::interaction::{Interaction, Term};
use crate::message::MessageTypeExpression;
use crate::sets::{is_single, set_sole_element};
use crate::trace::{TraceAction, TraceActionKind};
use vstd::prelude::*;

verus! {

/// A step of the exploration: an action fires.
#[derive(Debug, PartialEq)]
pub enum ExplorationStepKind {
    Execute(FrontierElement),
}

/// A node of the exploration: the term that is left, and how many loops
/// were entered on the way.
#[derive(Debug, PartialEq, Eq, Hash)]
pub struct ExplorationNodeKind {
    pub interaction: Interaction,
    pub loop_depth: u32,
}

impl Clone for ExplorationNodeKind {
    fn clone(&self) -> (r: Self)
        ensures
            r.interaction@ == self.interaction@,
            r.loop_depth == self.loop_depth,
    {
        ExplorationNodeKind { interaction: self.interaction.clone(), loop_depth: self.loop_depth }
    }
}

impl ExplorationNodeKind {
    pub fn new(interaction: Interaction, loop_depth: u32) -> (r: ExplorationNodeKind)
        ensures
            r.interaction == interaction,
            r.loop_depth == loop_depth,
    {
        ExplorationNodeKind { interaction, loop_depth }
    }
}

/// What an exploration works on.
pub struct ExplorationContext {
    pub gen_ctx: GeneralContext,
}

/// How an exploration works: whether an action that stands for several
/// messages is split in one step for each message.
#[derive(Debug, Clone, Copy, PartialEq, Eq, Structural)]
pub struct ExplorationParameterization {
    pub concretize: bool,
}

/// What marks a node for the filters.
#[derive(Debug, Clone, Copy, PartialEq, Eq, Structural)]
pub struct ExplorationFilterCriterion {
    pub loop_depth: u32,
}

/// What a node says of the term: it can end here, or it is stuck.
#[derive(Debug, Clone, Copy, PartialEq, Eq, Structural)]
pub enum ExplorationLocalVerdict {
    Accepting,
    DeadLocked,
}

/// The messages below `n` that are in `s`, in ascending order.
pub open spec fn members_below(s: Set<usize>, n: nat) -> Seq<usize>
    decreases n,
{
    if n == 0 {
        Seq::empty()
    } else if s.contains((n - 1) as usize) {
        members_below(s, (n - 1) as nat).push((n - 1) as usize)
    } else {
        members_below(s, (n - 1) as nat)
    }
}

/// The steps for one element of the frontier when messages are made
/// concrete: the element itself if it stands for one message, and else one
/// step for each of its messages that the table knows, in ascending order.
pub open spec fn concrete_steps(e: FrontierElement, ctx: ContextView) -> Seq<ExplorationStepKind> {
    let resolved = e.target_action.message.resolve_spec(ctx);
    if is_single(resolved) {
        seq![ExplorationStepKind::Execute(e)]
    } else {
        let ids = members_below(resolved, ctx.ms_num());
        Seq::new(
            ids.len(),
            |k: int| ExplorationStepKind::Execute(narrowed(e, MessageTypeExpression::Singleton(ids[k]))),
        )
    }
}

/// The steps for the first `n` elements of the frontier, the last element
/// first.
pub open spec fn steps_of_last(
    f: Seq<FrontierElement>,
    n: nat,
    concretize: bool,
    ctx: ContextView,
) -> Seq<ExplorationStepKind>
    decreases n,
{
    if n == 0 || n > f.len() {
        Seq::empty()
    } else {
        let e = f[f.len() - n];
        steps_of_last(f, (n - 1) as nat, concretize, ctx) + if concretize {
            concrete_steps(e, ctx)
        } else {
            seq![ExplorationStepKind::Execute(e)]
        }
    }
}

/// The steps of a node: one for each element of the frontier, taken from
/// the last to the first; see `concrete_steps` for concrete messages.
pub open spec fn exploration_steps(t: Term, concretize: bool, ctx: ContextView) -> Seq<
    ExplorationStepKind,
> {
    let f = t.frontier(0, ctx);
    steps_of_last(f, f.len(), concretize, ctx)
}

/// The handler of the exploration.
pub struct ExplorationProcessHandler {}

impl ExplorationProcessHandler {
    /// The node that a step leads to: the term that is left once the action
    /// has fired, and the loops entered so far.
    pub fn process_new_step(
        context: &ExplorationContext,
        parent_state: &ExplorationNodeKind,
        step_to_process: &ExplorationStepKind,
    ) -> (r: ExplorationNodeKind)
        requires
            parent_state.interaction@.well_formed(context.gen_ctx@),
            *step_to_process matches ExplorationStepKind::Execute(frt_elt) ==> {
                &&& frt_elt.target_action.well_formed(context.gen_ctx@)
                &&& parent_state.interaction@.executable(
                    frt_elt.position,
                    frt_elt.target_action,
                    context.gen_ctx@,
                )
                &&& parent_state.loop_depth + frt_elt.max_loop_depth <= u32::MAX
            },
        ensures
            *step_to_process matches ExplorationStepKind::Execute(frt_elt) ==> {
                &&& r.interaction@ == parent_state.interaction@.execute(
                    frt_elt.position,
                    frt_elt.target_action,
                    context.gen_ctx@,
                )
                &&& r.interaction@.well_formed(context.gen_ctx@)
                &&& r.loop_depth == parent_state.loop_depth + frt_elt.max_loop_depth
            },
    {
        match step_to_process {
            ExplorationStepKind::Execute(frt_elt) => {
                let new_loop_depth = parent_state.loop_depth + frt_elt.max_loop_depth;
                let new_int = execute_interaction(
                    &parent_state.interaction,
                    &frt_elt.position,
                    &frt_elt.target_action,
                    &context.gen_ctx,
                );
                ExplorationNodeKind::new(new_int, new_loop_depth)
            },
        }
    }

    /// What marks for the filters the node that a step leads to: the loops
    /// entered so far.
    pub fn get_criterion(parent_state: &ExplorationNodeKind, step_to_process: &ExplorationStepKind) -> (r:
        ExplorationFilterCriterion)
        requires
            *step_to_process matches ExplorationStepKind::Execute(frt_elt)
                ==> parent_state.loop_depth + frt_elt.max_loop_depth <= u32::MAX,
        ensures
            *step_to_process matches ExplorationStepKind::Execute(frt_elt) ==> r.loop_depth
                == parent_state.loop_depth + frt_elt.max_loop_depth,
    {
        match step_to_process {
            ExplorationStepKind::Execute(frt_elt) => {
                let loop_depth = parent_state.loop_depth + frt_elt.max_loop_depth;
                ExplorationFilterCriterion { loop_depth }
            },
        }
    }

    /// The steps of a node: see `exploration_steps`.
    pub fn collect_next_steps(
        context: &ExplorationContext,
        param: &ExplorationParameterization,
        parent_node_kind: &ExplorationNodeKind,
    ) -> (r: Vec<ExplorationStepKind>)
        requires
            parent_node_kind.interaction@.well_formed(context.gen_ctx@),
            parent_node_kind.interaction@.max_nested_loop_depth() <= u32::MAX,
        ensures
            r@ == exploration_steps(parent_node_kind.interaction@, param.concretize, context.gen_ctx@),
    {
        broadcast use vstd::std_specs::hash::group_hash_axioms;
        let glob_front = global_frontier(&parent_node_kind.interaction, &context.gen_ctx, &None);
        let ms_num = context.gen_ctx.get_ms_num();
        let mut got: Vec<ExplorationStepKind> = Vec::new();
        let mut n: usize = 0;
        while n < glob_front.len()
            invariant
                n <= glob_front.len(),
                ms_num == context.gen_ctx@.ms_num(),
                frontier_well_formed(glob_front@, context.gen_ctx@),
                got@ == steps_of_last(glob_front@, n as nat, param.concretize, context.gen_ctx@),
            decreases glob_front.len() - n,
        {
            let frt_elt = &glob_front[glob_front.len() - 1 - n];
            let ghost before = got@;
            if param.concretize {
                let resolved = frt_elt.target_action.message.resolve(&context.gen_ctx);
                if set_sole_element(&resolved).is_some() {
                    got.push(ExplorationStepKind::Execute(frt_elt.clone()));
                    proof {
                        assert(got@ =~= before + concrete_steps(*frt_elt, context.gen_ctx@));
                    }
                } else {
                    let mut ms_id: usize = 0;
                    while ms_id < ms_num
                        invariant
                            ms_id <= ms_num,
                            got@.len() == before.len() + members_below(resolved@, ms_id as nat).len(),
                            forall|k: int| 0 <= k < before.len() ==> got@[k] == before[k],
                            forall|k: int|
                                0 <= k < members_below(resolved@, ms_id as nat).len() ==> got@[before.len()
                                    + k] == ExplorationStepKind::Execute(
                                    narrowed(
                                        *frt_elt,
                                        MessageTypeExpression::Singleton(
                                            members_below(resolved@, ms_id as nat)[k],
                                        ),
                                    ),
                                ),
                        decreases ms_num - ms_id,
                    {
                        if resolved.contains(&ms_id) {
                            got.push(
                                ExplorationStepKind::Execute(
                                    FrontierElement::new(
                                        frt_elt.position.clone(),
                                        TraceAction::new(
                                            frt_elt.target_action.lf_id,
                                            frt_elt.target_action.act_kind,
                                            MessageTypeExpression::Singleton(ms_id),
                                        ),
                                        frt_elt.max_loop_depth,
                                    ),
                                ),
                            );
                        }
                        ms_id += 1;
                    }
                    proof {
                        assert(got@ =~= before + concrete_steps(*frt_elt, context.gen_ctx@));
                    }
                }
            } else {
                got.push(ExplorationStepKind::Execute(frt_elt.clone()));
                proof {
                    assert(got@ =~= before + seq![ExplorationStepKind::Execute(*frt_elt)]);
                }
            }
            n += 1;
        }
        got
    }

    /// The steps of a node, where the term fits the table and the machine,
    /// and `None` otherwise.
    pub fn try_collect_next_steps(
        context: &ExplorationContext,
        param: &ExplorationParameterization,
        parent_node_kind: &ExplorationNodeKind,
    ) -> (r: Option<Vec<ExplorationStepKind>>)
        ensures
            r is Some <==> parent_node_kind.interaction@.well_formed(context.gen_ctx@)
                && parent_node_kind.interaction@.max_nested_loop_depth() <= u32::MAX,
            r matches Some(steps) ==> steps@ == exploration_steps(
                parent_node_kind.interaction@,
                param.concretize,
                context.gen_ctx@,
            ),
    {
        if !parent_node_kind.interaction.is_well_formed(&context.gen_ctx) {
            return None;
        }
        if parent_node_kind.interaction.checked_max_nested_loop_depth().is_none() {
            return None;
        }
        Some(Self::collect_next_steps(context, param, parent_node_kind))
    }

    /// The node that a step leads to, where the action can fire at its
    /// position in the term, and `None` otherwise.
    pub fn try_process_new_step(
        context: &ExplorationContext,
        parent_state: &ExplorationNodeKind,
        step_to_process: &ExplorationStepKind,
    ) -> (r: Option<ExplorationNodeKind>)
        ensures
            *step_to_process matches ExplorationStepKind::Execute(frt_elt) ==> {
                &&& r is Some <==> {
                    &&& parent_state.interaction@.well_formed(context.gen_ctx@)
                    &&& frt_elt.target_action.well_formed(context.gen_ctx@)
                    &&& parent_state.interaction@.executable(
                        frt_elt.position,
                        frt_elt.target_action,
                        context.gen_ctx@,
                    )
                    &&& parent_state.loop_depth + frt_elt.max_loop_depth <= u32::MAX
                }
                &&& r matches Some(next) ==> {
                    &&& next.interaction@ == parent_state.interaction@.execute(
                        frt_elt.position,
                        frt_elt.target_action,
                        context.gen_ctx@,
                    )
                    &&& next.interaction@.well_formed(context.gen_ctx@)
                    &&& next.loop_depth == parent_state.loop_depth + frt_elt.max_loop_depth
                }
            },
    {
        match step_to_process {
            ExplorationStepKind::Execute(frt_elt) => {
                if !parent_state.interaction.is_well_formed(&context.gen_ctx) {
                    return None;
                }
                if !frt_elt.target_action.is_well_formed(&context.gen_ctx) {
                    return None;
                }
                if !parent_state.interaction.is_executable(
                    &frt_elt.position,
                    &frt_elt.target_action,
                    &context.gen_ctx,
                ) {
                    return None;
                }
                if frt_elt.max_loop_depth > u32::MAX - parent_state.loop_depth {
                    return None;
                }
                Some(Self::process_new_step(context, parent_state, step_to_process))
            },
        }
    }

    /// The verdict of a node without steps: the term can end here, or it is
    /// stuck.
    pub fn get_local_verdict_when_no_child(node_kind: &ExplorationNodeKind) -> (r:
        ExplorationLocalVerdict)
        ensures
            r == if node_kind.interaction@.express_empty() {
                ExplorationLocalVerdict::Accepting
            } else {
                ExplorationLocalVerdict::DeadLocked
            },
    {
        if node_kind.interaction.express_empty() {
            ExplorationLocalVerdict::Accepting
        } else {
            ExplorationLocalVerdict::DeadLocked
        }
    }

    /// The verdict of a node before it is expanded: accepting if the term
    /// can end here, and none otherwise.
    pub fn get_local_verdict_from_static_analysis(node_kind: &ExplorationNodeKind) -> (r: Option<
        ExplorationLocalVerdict,
    >)
        ensures
            r == if node_kind.interaction@.express_empty() {
                Some(ExplorationLocalVerdict::Accepting)
            } else {
                None
            },
    {
        if node_kind.interaction.express_empty() {
            Some(ExplorationLocalVerdict::Accepting)
        } else {
            None
        }
    }

    /// Whether a node with this verdict is expanded further: an accepting
    /// one is.
    pub fn pursue_process_after_static_verdict(loc_verd: &ExplorationLocalVerdict) -> (r: bool)
        ensures
            r == (*loc_verd is Accepting),
    {
        match loc_verd {
            ExplorationLocalVerdict::Accepting => true,
            ExplorationLocalVerdict::DeadLocked => false,
        }
    }
}

/// The weights by which the steps of a node are ordered.
#[derive(Debug, Clone, Copy, PartialEq, Eq, Structural)]
pub struct ExplorationPriorities {
    pub emission: i32,
    pub reception: i32,
    pub in_loop: i32,
}

impl ExplorationPriorities {
    /// The priority of a step: the weight of the kind of its action, and
    /// the weight of its depth in loops.
    pub open spec fn priority_of(self, step: ExplorationStepKind) -> int {
        match step {
            ExplorationStepKind::Execute(e) => (match e.target_action.act_kind {
                TraceActionKind::Emission => self.emission as int,
                TraceActionKind::Reception => self.reception as int,
            }) + self.in_loop * e.max_loop_depth,
        }
    }

    pub fn new(emission: i32, reception: i32, in_loop: i32) -> (r: ExplorationPriorities)
        ensures
            r == (ExplorationPriorities { emission, reception, in_loop }),
    {
        ExplorationPriorities { emission, reception, in_loop }
    }

    /// No weight at all.
    pub fn default() -> (r: ExplorationPriorities)
        ensures
            r == (ExplorationPriorities { emission: 0, reception: 0, in_loop: 0 }),
    {
        ExplorationPriorities::new(0, 0, 0)
    }

    /// Every sum on the way to the priority of the step fits the machine.
    pub open spec fn priority_fits(self, step: ExplorationStepKind) -> bool {
        match step {
            ExplorationStepKind::Execute(e) => {
                &&& e.max_loop_depth <= i32::MAX
                &&& i32::MIN <= self.in_loop * e.max_loop_depth <= i32::MAX
                &&& i32::MIN <= self.priority_of(step) <= i32::MAX
            },
        }
    }

    /// The priority of a step, if every sum on the way fits the machine.
    pub fn checked_priority_of_step(&self, step: &ExplorationStepKind) -> (r: Option<i32>)
        ensures
            r is Some <==> self.priority_fits(*step),
            r matches Some(p) ==> p == self.priority_of(*step),
    {
        match step {
            ExplorationStepKind::Execute(frt_elt) => {
                if frt_elt.max_loop_depth > 0x7fff_ffff {
                    return None;
                }
                let kind: i64 = match frt_elt.target_action.act_kind {
                    TraceActionKind::Emission => self.emission as i64,
                    TraceActionKind::Reception => self.reception as i64,
                };
                proof {
                    assert(-0x8000_0000 * 0x7fff_ffff <= self.in_loop * frt_elt.max_loop_depth
                        <= 0x7fff_ffff * 0x7fff_ffff) by (nonlinear_arith)
                        requires
                            -0x8000_0000 <= self.in_loop <= 0x7fff_ffff,
                            0 <= frt_elt.max_loop_depth <= 0x7fff_ffff,
                    ;
                }
                let in_loops: i64 = (self.in_loop as i64) * (frt_elt.max_loop_depth as i64);
                if in_loops < -0x8000_0000 || in_loops > 0x7fff_ffff {
                    return None;
                }
                let total: i64 = kind + in_loops;
                if total < -0x8000_0000 || total > 0x7fff_ffff {
                    return None;
                }
                Some(self.get_priority_of_step(step))
            },
        }
    }

    /// The priority of a step: see `priority_of`.
    pub fn get_priority_of_step(&self, step: &ExplorationStepKind) -> (r: i32)
        requires
            self.priority_fits(*step),
        ensures
            r == self.priority_of(*step),
    {
        match step {
            ExplorationStepKind::Execute(frt_elt) => {
                let mut priority: i32 = 0;
                match frt_elt.target_action.act_kind {
                    TraceActionKind::Emission => {
                        priority = priority + self.emission;
                    },
                    TraceActionKind::Reception => {
                        priority = priority + self.reception;
                    },
                }
                priority = priority + self.in_loop * (frt_elt.max_loop_depth as i32);
                priority
            },
        }
    }
}

} // verus!
