//! The decisions of the analysis, one function for each question that the
//! search asks of a node.

use crate::affected::get_affected_on_execute;
use crate::analysis::{
    has_trace, heads_of, marked_dirty, multi_trace_well_formed, simulation_steps, steps_from,
    verdict_when_no_child, AnalysisContext, AnalysisFilterCriterion, AnalysisGlobalVerdict,
    AnalysisLocalVerdict, AnalysisNodeKind, AnalysisParameterization, AnalysisStepKind,
    MultiTraceAnalysisMatcher,
};
use crate::colocalizations::{coloc_of, colocs_meeting, CoLocalizations};
use crate::context::{ContextView, GeneralContext};
use crate::execute::execute_interaction;
use crate::flags::{
    all_consumed, MultiTraceAnalysisFlags, TraceAnalysisFlags, WasMultiTraceConsumedWithSimulation,
};
use crate::frontier::global_frontier;
use crate::interaction::{Interaction, Term};
use crate::position::Position;
use crate::sets::set_copy;
use crate::simulation::canals_after;
use crate::trace::{MultiTrace, TraceAction};
use crate::validity::is_multi_trace_well_formed;
use std::collections::HashSet;
use vstd::prelude::*;

verus! {

/// A position at which an action can fire descends along the operators of
/// the term.
pub proof fn lemma_executable_has_position(t: Term, pos: Position, act: TraceAction, ctx: ContextView)
    requires
        t.executable(pos, act, ctx),
    ensures
        t.has_position(pos),
    decreases t,
{
    match pos {
        Position::Epsilon(_) => {},
        Position::Left(p) => match t {
            Term::CoReg(_, t1, _) => {
                lemma_executable_has_position(*t1, *p, act, ctx);
            },
            Term::Sync(_, t1, _) => {
                lemma_executable_has_position(*t1, *p, act, ctx);
            },
            _ => {},
        },
        Position::Right(p) => match t {
            Term::CoReg(_, _, t2) => {
                lemma_executable_has_position(*t2, *p, act, ctx);
            },
            Term::Sync(_, _, t2) => {
                lemma_executable_has_position(*t2, *p, act, ctx);
            },
            _ => {},
        },
        Position::Both(p1, p2) => match t {
            Term::Alt(t1, t2) => {
                lemma_executable_has_position(*t1, *p1, act, ctx);
                lemma_executable_has_position(*t2, *p2, act, ctx);
            },
            Term::Sync(_, t1, t2) => {
                lemma_executable_has_position(*t1, *p1, act, ctx);
                lemma_executable_has_position(*t2, *p2, act, ctx);
            },
            _ => {},
        },
    }
}

/// The steps of a node: none once the multi-trace is consumed; else those
/// that consume the next action of a trace, and after them the made-up
/// ones, if simulation is on.
pub open spec fn next_steps(
    context: AnalysisContext,
    param: AnalysisParameterization,
    node: AnalysisNodeKind,
) -> Seq<AnalysisStepKind> {
    if all_consumed(node.flags.canals@, context.multi_trace@) {
        Seq::empty()
    } else {
        let matches = steps_from(
            node.interaction@.global_frontier(
                context.gen_ctx@,
                Some(heads_of(context.multi_trace@, node.flags.canals@)),
            ),
            None,
        );
        match param.use_simulation {
            None => matches,
            Some(cfg) => matches + simulation_steps(
                node.interaction@.frontier(0, context.gen_ctx@),
                cfg,
                context.co_localizations@,
                context.multi_trace@,
                node.flags,
            ),
        }
    }
}

/// The step can be taken from the node: the term and the action fit the
/// table, the action can fire at its position, its lifeline has a trace,
/// and the counters have room for the step.
pub open spec fn step_allowed(
    context: AnalysisContext,
    param: AnalysisParameterization,
    node: AnalysisNodeKind,
    step: AnalysisStepKind,
) -> bool {
    match step {
        AnalysisStepKind::Execute(frt_elt, simu) => {
            &&& node.interaction@.well_formed(context.gen_ctx@)
            &&& frt_elt.target_action.well_formed(context.gen_ctx@)
            &&& node.interaction@.executable(
                frt_elt.position,
                frt_elt.target_action,
                context.gen_ctx@,
            )
            &&& coloc_of(context.co_localizations@, frt_elt.target_action.lf_id) matches Some(c)
                && node.flags.can_update(
                param.use_simulation,
                c,
                simu,
                frt_elt.max_loop_depth,
                node.interaction@.execute(frt_elt.position, frt_elt.target_action, context.gen_ctx@),
            )
            &&& node.ana_loop_depth + frt_elt.max_loop_depth <= u32::MAX
        },
    }
}

/// `next` is the node that the step leads to.
pub open spec fn leads_to(
    context: AnalysisContext,
    param: AnalysisParameterization,
    node: AnalysisNodeKind,
    step: AnalysisStepKind,
    next: AnalysisNodeKind,
) -> bool {
    match step {
        AnalysisStepKind::Execute(frt_elt, simu) => {
            let new_term = node.interaction@.execute(
                frt_elt.position,
                frt_elt.target_action,
                context.gen_ctx@,
            );
            let stepped = canals_after(
                node.flags.canals@,
                coloc_of(context.co_localizations@, frt_elt.target_action.lf_id)->0,
                simu,
            );
            &&& next.interaction@ == new_term
            &&& next.flags.canals@ == if param.use_locana {
                marked_dirty(
                    stepped,
                    colocs_meeting(
                        context.co_localizations@,
                        node.interaction@.affected_on_execute(
                            frt_elt.position,
                            frt_elt.target_action.lf_id,
                        ),
                    ),
                )
            } else {
                stepped
            }
            &&& (next.flags.rem_loop_in_sim, next.flags.rem_act_in_sim)
                == node.flags.budgets_after(
                param.use_simulation,
                simu,
                frt_elt.max_loop_depth,
                new_term,
            )
            &&& next.ana_loop_depth == node.ana_loop_depth + frt_elt.max_loop_depth
        },
    }
}

/// The steps of the node can be collected: the term and the traces fit the
/// table, every trace has its flags, and with simulation every lifeline
/// that can act has a trace.
pub open spec fn steps_defined(
    context: AnalysisContext,
    param: AnalysisParameterization,
    node: AnalysisNodeKind,
) -> bool {
    &&& node.flags.canals@.len() <= context.multi_trace@.len()
    &&& node.interaction@.well_formed(context.gen_ctx@)
    &&& node.interaction@.max_nested_loop_depth() <= u32::MAX
    &&& multi_trace_well_formed(context.multi_trace@, context.gen_ctx@)
    &&& param.use_simulation is Some ==> forall|i: int|
        0 <= i < node.interaction@.frontier(0, context.gen_ctx@).len() ==> has_trace(
            #[trigger] node.interaction@.frontier(0, context.gen_ctx@)[i],
            context.co_localizations@,
            context.multi_trace@,
            node.flags.canals@,
        )
}

/// The lifelines of the table that are not in the group `coloc_id`.
pub open spec fn outside_of(groups: Seq<Set<usize>>, coloc_id: usize, ctx: ContextView) -> Set<usize> {
    Set::new(|lf: usize| lf < ctx.lf_num() && !groups[coloc_id as int].contains(lf))
}

/// The handler of the analysis.
pub struct AnalysisProcessHandler {}

impl AnalysisProcessHandler {
    /// The node that a step leads to: the term that is left once the action
    /// has fired, the flags after the step, with the traces marked on which
    /// the firing may have changed something where the local analysis is
    /// on, and the loops entered so far.
    pub fn process_new_step(
        context: &AnalysisContext,
        param: &AnalysisParameterization,
        parent_state: &AnalysisNodeKind,
        step_to_process: &AnalysisStepKind,
    ) -> (r: AnalysisNodeKind)
        requires
            step_allowed(*context, *param, *parent_state, *step_to_process),
        ensures
            leads_to(*context, *param, *parent_state, *step_to_process, r),
            r.interaction@.well_formed(context.gen_ctx@),
    {
        broadcast use vstd::std_specs::hash::group_hash_axioms;
        match step_to_process {
            AnalysisStepKind::Execute(frt_elt, simu) => {
                let new_int = execute_interaction(
                    &parent_state.interaction,
                    &frt_elt.position,
                    &frt_elt.target_action,
                    &context.gen_ctx,
                );
                let coloc_id = match context.co_localizations.get_lf_coloc_id(
                    frt_elt.target_action.lf_id,
                ) {
                    Some(c) => c,
                    None => 0,
                };
                let stepped_flags = parent_state.flags.update_on_execution(
                    &param.use_simulation,
                    coloc_id,
                    simu,
                    frt_elt.max_loop_depth,
                    &new_int,
                );
                let new_flags = if param.use_locana {
                    proof {
                        lemma_executable_has_position(
                            parent_state.interaction@,
                            frt_elt.position,
                            frt_elt.target_action,
                            context.gen_ctx@,
                        );
                    }
                    let affected = get_affected_on_execute(
                        &parent_state.interaction,
                        &frt_elt.position,
                        frt_elt.target_action.lf_id,
                    );
                    let aff_colocs = context.co_localizations.get_coloc_ids_from_lf_ids(&affected);
                    let mut canals: Vec<TraceAnalysisFlags> = Vec::new();
                    let mut idx: usize = 0;
                    while idx < stepped_flags.canals.len()
                        invariant
                            idx <= stepped_flags.canals.len(),
                            canals@.len() == idx,
                            forall|i: int|
                                0 <= i < idx ==> canals@[i] == marked_dirty(
                                    stepped_flags.canals@,
                                    aff_colocs@,
                                )[i],
                        decreases stepped_flags.canals.len() - idx,
                    {
                        let mut flag = stepped_flags.canals[idx];
                        if aff_colocs.contains(&idx) {
                            flag.dirty4local = true;
                        }
                        canals.push(flag);
                        idx += 1;
                    }
                    proof {
                        assert(canals@ =~= marked_dirty(stepped_flags.canals@, aff_colocs@));
                    }
                    MultiTraceAnalysisFlags::new(
                        canals,
                        stepped_flags.rem_loop_in_sim,
                        stepped_flags.rem_act_in_sim,
                    )
                } else {
                    stepped_flags
                };
                let new_ana_loop_depth = parent_state.ana_loop_depth + frt_elt.max_loop_depth;
                AnalysisNodeKind::new(new_int, new_flags, new_ana_loop_depth)
            },
        }
    }

    /// What marks for the filters the node that a step leads to: the loops
    /// entered so far.
    pub fn get_criterion(parent_state: &AnalysisNodeKind, step_to_process: &AnalysisStepKind) -> (r:
        AnalysisFilterCriterion)
        requires
            *step_to_process matches AnalysisStepKind::Execute(frt_elt, _)
                ==> parent_state.ana_loop_depth + frt_elt.max_loop_depth <= u32::MAX,
        ensures
            *step_to_process matches AnalysisStepKind::Execute(frt_elt, _) ==> r.loop_depth
                == parent_state.ana_loop_depth + frt_elt.max_loop_depth,
    {
        match step_to_process {
            AnalysisStepKind::Execute(frt_elt, _) => {
                let loop_depth = parent_state.ana_loop_depth + frt_elt.max_loop_depth;
                AnalysisFilterCriterion { loop_depth }
            },
        }
    }

    /// The steps of a node: see `next_steps`.
    pub fn collect_next_steps(
        context: &AnalysisContext,
        param: &AnalysisParameterization,
        parent_node_kind: &AnalysisNodeKind,
    ) -> (r: Vec<AnalysisStepKind>)
        requires
            steps_defined(*context, *param, *parent_node_kind),
        ensures
            r@ == next_steps(*context, *param, *parent_node_kind),
    {
        if !parent_node_kind.flags.is_multi_trace_empty(&context.multi_trace) {
            match &param.use_simulation {
                None => MultiTraceAnalysisMatcher::get_matches(
                    context,
                    &parent_node_kind.interaction,
                    &parent_node_kind.flags,
                ),
                Some(sim_config) => {
                    let mut steps = MultiTraceAnalysisMatcher::get_matches(
                        context,
                        &parent_node_kind.interaction,
                        &parent_node_kind.flags,
                    );
                    let mut simulated = MultiTraceAnalysisMatcher::get_simulation_steps(
                        sim_config,
                        context,
                        &parent_node_kind.interaction,
                        &parent_node_kind.flags,
                    );
                    steps.append(&mut simulated);
                    steps
                },
            }
        } else {
            Vec::new()
        }
    }

    /// The steps of a node, where they can be collected, and `None`
    /// otherwise: see `steps_defined` and `next_steps`.
    pub fn try_collect_next_steps(
        context: &AnalysisContext,
        param: &AnalysisParameterization,
        parent_node_kind: &AnalysisNodeKind,
    ) -> (r: Option<Vec<AnalysisStepKind>>)
        ensures
            r is Some <==> steps_defined(*context, *param, *parent_node_kind),
            r matches Some(steps) ==> steps@ == next_steps(*context, *param, *parent_node_kind),
    {
        if parent_node_kind.flags.canals.len() > context.multi_trace.len() {
            return None;
        }
        if !parent_node_kind.interaction.is_well_formed(&context.gen_ctx) {
            return None;
        }
        if parent_node_kind.interaction.checked_max_nested_loop_depth().is_none() {
            return None;
        }
        if !is_multi_trace_well_formed(&context.multi_trace, &context.gen_ctx) {
            return None;
        }
        if param.use_simulation.is_some() {
            let frontier = global_frontier(&parent_node_kind.interaction, &context.gen_ctx, &None);
            let mut i: usize = 0;
            while i < frontier.len()
                invariant
                    i <= frontier.len(),
                    param.use_simulation is Some,
                    frontier@ == parent_node_kind.interaction@.frontier(0, context.gen_ctx@),
                    forall|k: int|
                        0 <= k < i ==> has_trace(
                            #[trigger] frontier@[k],
                            context.co_localizations@,
                            context.multi_trace@,
                            parent_node_kind.flags.canals@,
                        ),
                decreases frontier.len() - i,
            {
                let known = match context.co_localizations.get_lf_coloc_id(
                    frontier[i].target_action.lf_id,
                ) {
                    Some(c) => c < context.multi_trace.len() && c
                        < parent_node_kind.flags.canals.len(),
                    None => false,
                };
                if !known {
                    proof {
                        assert(!has_trace(
                            frontier@[i as int],
                            context.co_localizations@,
                            context.multi_trace@,
                            parent_node_kind.flags.canals@,
                        ));
                    }
                    return None;
                }
                i += 1;
            }
        }
        Some(Self::collect_next_steps(context, param, parent_node_kind))
    }

    /// The node that a step leads to, where the step can be taken, and
    /// `None` otherwise: see `step_allowed` and `leads_to`.
    pub fn try_process_new_step(
        context: &AnalysisContext,
        param: &AnalysisParameterization,
        parent_state: &AnalysisNodeKind,
        step_to_process: &AnalysisStepKind,
    ) -> (r: Option<AnalysisNodeKind>)
        ensures
            r is Some <==> step_allowed(*context, *param, *parent_state, *step_to_process),
            r matches Some(next) ==> leads_to(
                *context,
                *param,
                *parent_state,
                *step_to_process,
                next,
            ) && next.interaction@.well_formed(context.gen_ctx@),
    {
        match step_to_process {
            AnalysisStepKind::Execute(frt_elt, simu) => {
                if !parent_state.interaction.is_well_formed(&context.gen_ctx) {
                    return None;
                }
                if !frt_elt.target_action.is_well_formed(&context.gen_ctx) {
                    return None;
                }
                if !parent_state.interaction.is_executable(
                    &frt_elt.position,
                    &frt_elt.target_action,
                    &context.gen_ctx,
                ) {
                    return None;
                }
                if frt_elt.max_loop_depth > u32::MAX - parent_state.ana_loop_depth {
                    return None;
                }
                let coloc_id = match context.co_localizations.get_lf_coloc_id(
                    frt_elt.target_action.lf_id,
                ) {
                    Some(c) => c,
                    None => {
                        return None;
                    },
                };
                let new_int = execute_interaction(
                    &parent_state.interaction,
                    &frt_elt.position,
                    &frt_elt.target_action,
                    &context.gen_ctx,
                );
                if !parent_state.flags.can_update_with(
                    &param.use_simulation,
                    coloc_id,
                    simu,
                    frt_elt.max_loop_depth,
                    &new_int,
                ) {
                    return None;
                }
                Some(Self::process_new_step(context, param, parent_state, step_to_process))
            },
        }
    }

    /// The verdict of a node without steps: see `verdict_when_no_child`.
    pub fn get_local_verdict_when_no_child(context: &AnalysisContext, node_kind: &AnalysisNodeKind) -> (r:
        AnalysisLocalVerdict)
        requires
            node_kind.flags.canals@.len() <= context.multi_trace@.len(),
        ensures
            r == verdict_when_no_child(
                node_kind.interaction@,
                node_kind.flags.canals@,
                context.multi_trace@,
            ),
    {
        if node_kind.flags.is_multi_trace_empty(&context.multi_trace) {
            match node_kind.flags.is_simulated() {
                WasMultiTraceConsumedWithSimulation::No => {
                    if node_kind.interaction.express_empty() {
                        AnalysisLocalVerdict::Cov
                    } else {
                        AnalysisLocalVerdict::GloPref
                    }
                },
                WasMultiTraceConsumedWithSimulation::OnlyAfterEnd => AnalysisLocalVerdict::MultiPref,
                WasMultiTraceConsumedWithSimulation::AsSlice => AnalysisLocalVerdict::Slice,
            }
        } else {
            AnalysisLocalVerdict::Out(false)
        }
    }

    /// The term as one group of lifelines sees it: the lifelines of the
    /// other groups are eliminated.
    pub fn get_local_interaction(
        gen_ctx: &GeneralContext,
        co_localizations: &CoLocalizations,
        coloc_id: usize,
        interaction: &Interaction,
    ) -> (r: Interaction)
        requires
            coloc_id < co_localizations@.len(),
            interaction@.well_formed(gen_ctx@),
        ensures
            r@ == interaction@.eliminate_lifelines(
                outside_of(co_localizations@, coloc_id, gen_ctx@),
                gen_ctx@,
            ),
            r@.well_formed(gen_ctx@),
    {
        broadcast use vstd::std_specs::hash::group_hash_axioms;
        let n = gen_ctx.get_lf_num();
        let group = &co_localizations.locs_lf_ids[coloc_id];
        let mut others: HashSet<usize> = HashSet::new();
        let mut lf: usize = 0;
        proof {
            assert(others@ =~= Set::new(|x: usize| x < 0 && !group@.contains(x)));
        }
        while lf < n
            invariant
                lf <= n,
                others@ == Set::new(|x: usize| x < lf && !group@.contains(x)),
            decreases n - lf,
        {
            if !group.contains(&lf) {
                others.insert(lf);
            }
            proof {
                assert(others@ =~= Set::new(|x: usize| x < lf + 1 && !group@.contains(x)));
            }
            lf += 1;
        }
        proof {
            assert(others@ =~= outside_of(co_localizations@, coloc_id, gen_ctx@));
        }
        interaction.clone().eliminate_lifelines(&others, gen_ctx)
    }

    /// What the local analysis of one trace starts from: the group of
    /// lifelines of the trace alone, the term as this group sees it, what is
    /// left of the trace, and the flags of the trace, from which nothing is
    /// consumed yet.
    pub fn get_local_analysis_starting_data(
        gen_ctx: &GeneralContext,
        canal_id: usize,
        co_localizations: &CoLocalizations,
        interaction: &Interaction,
        multi_trace: &MultiTrace,
        flags: &MultiTraceAnalysisFlags,
    ) -> (r: (CoLocalizations, Interaction, MultiTrace, MultiTraceAnalysisFlags))
        requires
            canal_id < co_localizations@.len(),
            canal_id < multi_trace@.len(),
            canal_id < flags.canals@.len(),
            flags.canals@[canal_id as int].consumed <= multi_trace@[canal_id as int]@.len(),
            interaction@.well_formed(gen_ctx@),
        ensures
            r.0@ == seq![co_localizations@[canal_id as int]],
            r.1@ == interaction@.eliminate_lifelines(
                outside_of(co_localizations@, canal_id, gen_ctx@),
                gen_ctx@,
            ),
            r.1@.well_formed(gen_ctx@),
            r.2@.len() == 1,
            r.2@[0]@ == multi_trace@[canal_id as int]@.skip(
                flags.canals@[canal_id as int].consumed as int,
            ),
            r.3.canals@ == seq![
                TraceAnalysisFlags {
                    consumed: 0,
                    dirty4local: false,
                    ..flags.canals@[canal_id as int]
                },
            ],
            r.3.rem_loop_in_sim == flags.rem_loop_in_sim,
            r.3.rem_act_in_sim == flags.rem_act_in_sim,
    {
        let local_interaction = Self::get_local_interaction(
            gen_ctx,
            co_localizations,
            canal_id,
            interaction,
        );
        let mut groups: Vec<HashSet<usize>> = Vec::new();
        groups.push(set_copy(&co_localizations.locs_lf_ids[canal_id]));
        let local_coloc = CoLocalizations::new(groups);
        proof {
            assert(local_coloc@ =~= seq![co_localizations@[canal_id as int]]);
        }
        let canal = flags.canals[canal_id];
        let trace = &multi_trace[canal_id];
        let mut local_trace: Vec<TraceAction> = Vec::new();
        let mut i: usize = canal.consumed;
        proof {
            assert(local_trace@ =~= trace@.subrange(canal.consumed as int, i as int));
        }
        while i < trace.len()
            invariant
                canal.consumed <= i <= trace.len(),
                local_trace@ == trace@.subrange(canal.consumed as int, i as int),
            decreases trace.len() - i,
        {
            local_trace.push(trace[i].clone());
            proof {
                assert(local_trace@ =~= trace@.subrange(canal.consumed as int, i + 1));
            }
            i += 1;
        }
        proof {
            assert(local_trace@ =~= trace@.skip(canal.consumed as int));
        }
        let mut local_multi_trace: MultiTrace = Vec::new();
        local_multi_trace.push(local_trace);
        let mut canals: Vec<TraceAnalysisFlags> = Vec::new();
        canals.push(
            TraceAnalysisFlags::new(
                0,
                canal.no_longer_observed,
                false,
                canal.simulated_before,
                canal.simulated_after,
            ),
        );
        proof {
            assert(canals@ =~= seq![
                TraceAnalysisFlags { consumed: 0, dirty4local: false, ..canal },
            ]);
        }
        let local_flags = MultiTraceAnalysisFlags::new(
            canals,
            flags.rem_loop_in_sim,
            flags.rem_act_in_sim,
        );
        (local_coloc, local_interaction, local_multi_trace, local_flags)
    }

    /// The first node of an analysis: the term, fresh flags for every
    /// trace, and with simulation the fresh budgets of the term; none if
    /// the budgets do not fit the machine.
    pub fn initial_node(
        context: &AnalysisContext,
        param: &AnalysisParameterization,
        interaction: Interaction,
    ) -> (r: Option<AnalysisNodeKind>)
        ensures
            r is Some <==> (param.use_simulation matches Some(cfg) ==> cfg.budgets_fit(
                context.multi_trace@.len(),
                interaction@,
            )),
            r matches Some(node) ==> {
                &&& node.interaction@ == interaction@
                &&& node.ana_loop_depth == 0
                &&& node.flags.canals@ == Seq::new(
                    context.multi_trace@.len(),
                    |i: int| TraceAnalysisFlags::initial(),
                )
                &&& (node.flags.rem_loop_in_sim as nat, node.flags.rem_act_in_sim as nat)
                    == match param.use_simulation {
                    Some(cfg) => (
                        cfg.fresh_loop_budget(context.multi_trace@.len(), interaction@),
                        cfg.fresh_act_budget(context.multi_trace@.len(), interaction@),
                    ),
                    None => (0nat, 0nat),
                }
            },
    {
        let channels = context.multi_trace.len();
        let (rem_loop, rem_act): (u32, u32) = match &param.use_simulation {
            None => (0, 0),
            Some(cfg) => {
                if !cfg.do_budgets_fit(channels, &interaction) {
                    return None;
                }
                (
                    cfg.get_reset_rem_loop(channels, &interaction),
                    cfg.get_reset_rem_act(channels, &interaction),
                )
            },
        };
        Some(
            AnalysisNodeKind::new(
                interaction,
                MultiTraceAnalysisFlags::new_init(channels, rem_loop, rem_act),
                0,
            ),
        )
    }

    /// Whether the local analysis of a trace shows that the multi-trace is
    /// out: it does where the trace alone fails.
    pub fn is_dead_local_verdict(local: &AnalysisGlobalVerdict) -> (r: bool)
        ensures
            r == (*local is Fail),
    {
        match local {
            AnalysisGlobalVerdict::Fail => true,
            _ => false,
        }
    }

    /// The verdict that the local analysis gives before a node is
    /// expanded: the multi-trace is out as soon as one trace is no
    /// behaviour of the term as its group sees it. `failing_canal` names
    /// such a trace, if the local analysis found one.
    pub fn get_local_verdict_from_static_analysis(failing_canal: Option<usize>) -> (r: Option<
        AnalysisLocalVerdict,
    >)
        ensures
            r == match failing_canal {
                Some(_) => Some(AnalysisLocalVerdict::Out(true)),
                None => None,
            },
    {
        match failing_canal {
            None => None,
            Some(_) => Some(AnalysisLocalVerdict::Out(true)),
        }
    }

    /// Whether a node with this verdict is expanded further: every node
    /// but one that is out.
    pub fn pursue_process_after_static_verdict(loc_verd: &AnalysisLocalVerdict) -> (r: bool)
        ensures
            r == !(*loc_verd is Out),
    {
        match loc_verd {
            AnalysisLocalVerdict::Out(_) => false,
            _ => true,
        }
    }
}

} // verus!
