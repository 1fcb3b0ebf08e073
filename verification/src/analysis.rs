//! The analysis of a multi-trace against a term: which steps a node of the
//! search has, what a step leads to, and what a node without steps says of
//! the multi-trace.

use crate::actions::push_if_absent;
use crate::colocalizations::{coloc_of, CoLocalizations};
use crate::context::{ContextView, GeneralContext};
use crate::flags::{
    all_consumed, simulation_used, MultiTraceAnalysisFlags, TraceAnalysisFlags,
    WasMultiTraceConsumedWithSimulation,
};
use crate::frontier::{global_frontier, FrontierElement};
use crate::frontier_laws::{lemma_global_matches_within, narrowed_from};
use crate::interaction::{Interaction, Term};
use crate::simulation::{
    SimulationActionCriterion, SimulationConfiguration, SimulationLoopCriterion,
    SimulationStepKind,
};
use crate::trace::{trace_well_formed, MultiTrace, TraceAction, TraceActionKind};
use vstd::prelude::*;

verus! {

/// A step of the analysis: an action fires, and it is either the next one
/// of a trace or made up.
#[derive(Debug, PartialEq)]
pub enum AnalysisStepKind {
    Execute(FrontierElement, Option<SimulationStepKind>),
}

impl Clone for AnalysisStepKind {
    fn clone(&self) -> (r: Self)
        ensures
            r == *self,
    {
        match self {
            AnalysisStepKind::Execute(frt_elt, simu) => AnalysisStepKind::Execute(
                frt_elt.clone(),
                *simu,
            ),
        }
    }
}

/// A node of the analysis: the term that is left, how far the traces are
/// consumed, and how many loops were entered on the way.
#[derive(Debug, PartialEq, Eq, Hash)]
pub struct AnalysisNodeKind {
    pub interaction: Interaction,
    pub flags: MultiTraceAnalysisFlags,
    pub ana_loop_depth: u32,
}

impl Clone for AnalysisNodeKind {
    fn clone(&self) -> (r: Self)
        ensures
            r.interaction@ == self.interaction@,
            r.flags.canals@ == self.flags.canals@,
            r.flags.rem_loop_in_sim == self.flags.rem_loop_in_sim,
            r.flags.rem_act_in_sim == self.flags.rem_act_in_sim,
            r.ana_loop_depth == self.ana_loop_depth,
    {
        AnalysisNodeKind {
            interaction: self.interaction.clone(),
            flags: self.flags.clone(),
            ana_loop_depth: self.ana_loop_depth,
        }
    }
}

impl AnalysisNodeKind {
    pub fn new(interaction: Interaction, flags: MultiTraceAnalysisFlags, ana_loop_depth: u32) -> (r:
        AnalysisNodeKind)
        ensures
            r.interaction == interaction,
            r.flags == flags,
            r.ana_loop_depth == ana_loop_depth,
    {
        AnalysisNodeKind { interaction, flags, ana_loop_depth }
    }
}

/// What an analysis works on.
pub struct AnalysisContext {
    pub gen_ctx: GeneralContext,
    pub co_localizations: CoLocalizations,
    pub multi_trace: MultiTrace,
}

/// How an analysis works.
#[derive(Debug, Clone, Copy, PartialEq, Eq, Structural)]
pub struct AnalysisParameterization {
    pub use_simulation: Option<SimulationConfiguration>,
    pub use_locana: bool,
}

impl AnalysisParameterization {
    pub fn new(use_simulation: Option<SimulationConfiguration>, use_locana: bool) -> (r: Self)
        ensures
            r == (AnalysisParameterization { use_simulation, use_locana }),
    {
        AnalysisParameterization { use_simulation, use_locana }
    }
}

/// Why an analysis could not conclude.
#[derive(Debug, Clone, Copy, PartialEq, Eq, Structural)]
pub enum InconcReason {
    LackObs,
    FilteredNodes,
}

/// What a node without steps says of the multi-trace.
#[derive(Debug, Clone, Copy, PartialEq, Eq, Structural)]
pub enum AnalysisLocalVerdict {
    /// The multi-trace is a behaviour of the term.
    Cov,
    /// The multi-trace is the start of a behaviour of the term.
    GloPref,
    /// Each trace is the start of its part of one behaviour.
    MultiPref,
    /// Each trace is a slice of its part of one behaviour.
    Slice,
    /// Nothing can be said.
    Inconc(InconcReason),
    /// The multi-trace is no behaviour of the term; the flag says that one
    /// trace alone shows it.
    Out(bool),
}

/// What an analysis says of the multi-trace, all leaves taken together.
#[derive(Debug, Clone, Copy, PartialEq, Eq, Structural)]
pub enum AnalysisGlobalVerdict {
    Fail,
    WeakFail,
    Inconc(InconcReason),
    WeakPass,
    Pass,
}

impl AnalysisGlobalVerdict {
    /// The place of the verdict in the order from `Fail` up to `Pass`.
    pub open spec fn rank(self) -> nat {
        match self {
            AnalysisGlobalVerdict::Fail => 0,
            AnalysisGlobalVerdict::WeakFail => 1,
            AnalysisGlobalVerdict::Inconc(_) => 2,
            AnalysisGlobalVerdict::WeakPass => 3,
            AnalysisGlobalVerdict::Pass => 4,
        }
    }

    /// What one leaf alone says: a covered multi-trace passes, a prefix or
    /// a slice passes weakly, and a multi-trace that is out fails, weakly
    /// if one trace alone shows it.
    pub open spec fn of_local(local: AnalysisLocalVerdict) -> AnalysisGlobalVerdict {
        match local {
            AnalysisLocalVerdict::Cov => AnalysisGlobalVerdict::Pass,
            AnalysisLocalVerdict::GloPref => AnalysisGlobalVerdict::WeakPass,
            AnalysisLocalVerdict::MultiPref => AnalysisGlobalVerdict::WeakPass,
            AnalysisLocalVerdict::Slice => AnalysisGlobalVerdict::WeakPass,
            AnalysisLocalVerdict::Inconc(reason) => AnalysisGlobalVerdict::Inconc(reason),
            AnalysisLocalVerdict::Out(true) => AnalysisGlobalVerdict::WeakFail,
            AnalysisLocalVerdict::Out(false) => AnalysisGlobalVerdict::Fail,
        }
    }

    /// The verdict once one more leaf is known: that of the leaf if it
    /// ranks higher, and else the same as before.
    pub open spec fn with_local(self, local: AnalysisLocalVerdict) -> AnalysisGlobalVerdict {
        if Self::of_local(local).rank() > self.rank() {
            Self::of_local(local)
        } else {
            self
        }
    }

    /// The verdict before any leaf is known.
    pub fn get_baseline_verdict() -> (r: AnalysisGlobalVerdict)
        ensures
            r == AnalysisGlobalVerdict::Fail,
    {
        AnalysisGlobalVerdict::Fail
    }

    fn place(&self) -> (r: u8)
        ensures
            r == self.rank(),
    {
        match self {
            AnalysisGlobalVerdict::Fail => 0,
            AnalysisGlobalVerdict::WeakFail => 1,
            AnalysisGlobalVerdict::Inconc(_) => 2,
            AnalysisGlobalVerdict::WeakPass => 3,
            AnalysisGlobalVerdict::Pass => 4,
        }
    }

    /// The verdict once one more leaf is known: see `with_local`.
    pub fn update_with_local_verdict(self, local_verdict: &AnalysisLocalVerdict) -> (r:
        AnalysisGlobalVerdict)
        ensures
            r == self.with_local(*local_verdict),
    {
        let other = match local_verdict {
            AnalysisLocalVerdict::Cov => AnalysisGlobalVerdict::Pass,
            AnalysisLocalVerdict::GloPref => AnalysisGlobalVerdict::WeakPass,
            AnalysisLocalVerdict::MultiPref => AnalysisGlobalVerdict::WeakPass,
            AnalysisLocalVerdict::Slice => AnalysisGlobalVerdict::WeakPass,
            AnalysisLocalVerdict::Inconc(reason) => AnalysisGlobalVerdict::Inconc(*reason),
            AnalysisLocalVerdict::Out(from_local) => if *from_local {
                AnalysisGlobalVerdict::WeakFail
            } else {
                AnalysisGlobalVerdict::Fail
            },
        };
        if other.place() > self.place() {
            other
        } else {
            self
        }
    }

    /// Whether the verdict is at least the one that was aimed at.
    pub fn is_goal_reached(&self, goal: &Option<AnalysisGlobalVerdict>) -> (r: bool)
        ensures
            r == (*goal matches Some(aim) && self.rank() >= aim.rank()),
    {
        match goal {
            None => false,
            Some(aim) => self.place() >= aim.place(),
        }
    }

    /// The verdict at the end of a search that left nodes out: a failure is
    /// then not certain.
    pub fn update_knowing_nodes_were_filtered_out(self, has_filtered_nodes: bool) -> (r:
        AnalysisGlobalVerdict)
        ensures
            r == if has_filtered_nodes && self.rank() < 2 {
                AnalysisGlobalVerdict::Inconc(InconcReason::FilteredNodes)
            } else {
                self
            },
    {
        if has_filtered_nodes && self.place() < 2 {
            AnalysisGlobalVerdict::Inconc(InconcReason::FilteredNodes)
        } else {
            self
        }
    }
}

/// Every action of every trace names only types of the table.
pub open spec fn multi_trace_well_formed(multi_trace: Seq<Vec<TraceAction>>, ctx: ContextView) -> bool {
    forall|i: int| 0 <= i < multi_trace.len() ==> trace_well_formed((#[trigger] multi_trace[i])@, ctx)
}

/// The next action of each of the first `n` traces that has one, each
/// action once.
pub open spec fn heads_upto(
    multi_trace: Seq<Vec<TraceAction>>,
    canals: Seq<TraceAnalysisFlags>,
    n: nat,
) -> Seq<TraceAction>
    decreases n,
{
    if n == 0 {
        Seq::empty()
    } else {
        let front = heads_upto(multi_trace, canals, (n - 1) as nat);
        let i = n - 1;
        if i < multi_trace.len() && i < canals.len() && multi_trace[i]@.len() > canals[i].consumed {
            let head = multi_trace[i]@[canals[i].consumed as int];
            if front.contains(head) {
                front
            } else {
                front.push(head)
            }
        } else {
            front
        }
    }
}

/// The next action of each trace that has one.
pub open spec fn heads_of(multi_trace: Seq<Vec<TraceAction>>, canals: Seq<TraceAnalysisFlags>) -> Seq<
    TraceAction,
> {
    heads_upto(multi_trace, canals, canals.len())
}

/// One step for each element of a frontier.
pub open spec fn steps_from(f: Seq<FrontierElement>, simu: Option<SimulationStepKind>) -> Seq<
    AnalysisStepKind,
> {
    Seq::new(f.len(), |i: int| AnalysisStepKind::Execute(f[i], simu))
}

/// The step is not made up, and fires an element of `f` narrowed to one of
/// the actions of `heads`.
pub open spec fn consumes_a_head(
    step: AnalysisStepKind,
    f: Seq<FrontierElement>,
    heads: Seq<TraceAction>,
    ctx: ContextView,
) -> bool {
    match step {
        AnalysisStepKind::Execute(x, simu) => simu is None && narrowed_from(x, f, heads, ctx),
    }
}

/// The budgets allow to make up the action.
pub open spec fn ok_to_simulate(
    cfg: SimulationConfiguration,
    e: FrontierElement,
    flags: MultiTraceAnalysisFlags,
) -> bool {
    &&& !(cfg.act_crit is NoLimit) ==> flags.rem_act_in_sim > 0
    &&& !(cfg.loop_crit is NoLimit) ==> e.max_loop_depth <= flags.rem_loop_in_sim
}

/// The trace of the element's lifeline is one of the multi-trace and has
/// its flags.
pub open spec fn has_trace(
    e: FrontierElement,
    groups: Seq<Set<usize>>,
    multi_trace: Seq<Vec<TraceAction>>,
    canals: Seq<TraceAnalysisFlags>,
) -> bool {
    coloc_of(groups, e.target_action.lf_id) matches Some(c) && c < multi_trace.len() && c
        < canals.len()
}

/// The made-up step for an element, if its trace allows one: after the end
/// of a trace that is consumed, or before the start of a trace of which
/// nothing is consumed, where the rules allow that.
pub open spec fn simulation_step(
    e: FrontierElement,
    cfg: SimulationConfiguration,
    groups: Seq<Set<usize>>,
    multi_trace: Seq<Vec<TraceAction>>,
    canals: Seq<TraceAnalysisFlags>,
) -> Seq<AnalysisStepKind> {
    let c = coloc_of(groups, e.target_action.lf_id)->0;
    if canals[c as int].consumed == multi_trace[c as int]@.len() {
        seq![AnalysisStepKind::Execute(e, Some(SimulationStepKind::AfterEnd))]
    } else if cfg.sim_before && canals[c as int].consumed == 0 {
        seq![AnalysisStepKind::Execute(e, Some(SimulationStepKind::BeforeStart))]
    } else {
        Seq::empty()
    }
}

/// The made-up steps for a frontier: those of its elements that the
/// budgets allow, in their order.
pub open spec fn simulation_steps(
    f: Seq<FrontierElement>,
    cfg: SimulationConfiguration,
    groups: Seq<Set<usize>>,
    multi_trace: Seq<Vec<TraceAction>>,
    flags: MultiTraceAnalysisFlags,
) -> Seq<AnalysisStepKind>
    decreases f.len(),
{
    if f.len() == 0 {
        Seq::empty()
    } else if !ok_to_simulate(cfg, f[0], flags) {
        simulation_steps(f.drop_first(), cfg, groups, multi_trace, flags)
    } else {
        simulation_step(f[0], cfg, groups, multi_trace, flags.canals@) + simulation_steps(
            f.drop_first(),
            cfg,
            groups,
            multi_trace,
            flags,
        )
    }
}

/// The made-up steps for a frontier are the made-up steps for its elements
/// that the budgets allow, and no others.
pub proof fn lemma_simulation_steps_members(
    f: Seq<FrontierElement>,
    cfg: SimulationConfiguration,
    groups: Seq<Set<usize>>,
    multi_trace: Seq<Vec<TraceAction>>,
    flags: MultiTraceAnalysisFlags,
    s: AnalysisStepKind,
)
    ensures
        simulation_steps(f, cfg, groups, multi_trace, flags).contains(s) <==> exists|i: int|
            0 <= i < f.len() && ok_to_simulate(cfg, #[trigger] f[i], flags) && simulation_step(
                f[i],
                cfg,
                groups,
                multi_trace,
                flags.canals@,
            ).contains(s),
    decreases f.len(),
{
    if f.len() > 0 {
        let rest = f.drop_first();
        let tail = simulation_steps(rest, cfg, groups, multi_trace, flags);
        let head = simulation_step(f[0], cfg, groups, multi_trace, flags.canals@);
        lemma_simulation_steps_members(rest, cfg, groups, multi_trace, flags, s);
        if tail.contains(s) {
            let i = choose|i: int|
                0 <= i < rest.len() && ok_to_simulate(cfg, #[trigger] rest[i], flags)
                    && simulation_step(rest[i], cfg, groups, multi_trace, flags.canals@).contains(
                    s,
                );
            assert(f[i + 1] == rest[i]);
            if ok_to_simulate(cfg, f[0], flags) {
                let k = choose|k: int| 0 <= k < tail.len() && tail[k] == s;
                assert((head + tail)[k + head.len()] == s);
            }
        }
        if ok_to_simulate(cfg, f[0], flags) && head.contains(s) {
            let k = choose|k: int| 0 <= k < head.len() && head[k] == s;
            assert((head + tail)[k] == s);
        }
        if simulation_steps(f, cfg, groups, multi_trace, flags).contains(s) {
            if ok_to_simulate(cfg, f[0], flags) {
                let all = head + tail;
                let k = choose|k: int| 0 <= k < all.len() && all[k] == s;
                if k < head.len() {
                    assert(head[k] == s);
                    assert(head.contains(s));
                } else {
                    assert(tail[k - head.len()] == s);
                    assert(tail.contains(s));
                }
            }
        }
        if exists|i: int|
            0 <= i < f.len() && ok_to_simulate(cfg, #[trigger] f[i], flags) && simulation_step(
                f[i],
                cfg,
                groups,
                multi_trace,
                flags.canals@,
            ).contains(s) {
            let i = choose|i: int|
                0 <= i < f.len() && ok_to_simulate(cfg, #[trigger] f[i], flags) && simulation_step(
                    f[i],
                    cfg,
                    groups,
                    multi_trace,
                    flags.canals@,
                ).contains(s);
            if i > 0 {
                assert(rest[i - 1] == f[i]);
                assert(tail.contains(s));
            }
        }
    }
}

/// Finds the steps of a node.
pub struct MultiTraceAnalysisMatcher {}

impl MultiTraceAnalysisMatcher {
    /// The steps that consume the next action of a trace: the frontier of
    /// the term, narrowed to the next actions of the traces. Each step
    /// fires an element of the frontier with the lifeline and the kind of
    /// one of these actions, and with the messages that the two share.
    pub fn get_matches(
        context: &AnalysisContext,
        interaction: &Interaction,
        flags: &MultiTraceAnalysisFlags,
    ) -> (r: Vec<AnalysisStepKind>)
        requires
            flags.canals@.len() <= context.multi_trace@.len(),
            interaction@.well_formed(context.gen_ctx@),
            interaction@.max_nested_loop_depth() <= u32::MAX,
            multi_trace_well_formed(context.multi_trace@, context.gen_ctx@),
        ensures
            r@ == steps_from(
                interaction@.global_frontier(
                    context.gen_ctx@,
                    Some(heads_of(context.multi_trace@, flags.canals@)),
                ),
                None,
            ),
            forall|k: int|
                0 <= k < r@.len() ==> consumes_a_head(
                    #[trigger] r@[k],
                    interaction@.frontier(0, context.gen_ctx@),
                    heads_of(context.multi_trace@, flags.canals@),
                    context.gen_ctx@,
                ),
    {
        let mut head_actions: Vec<TraceAction> = Vec::new();
        let mut canal_id: usize = 0;
        while canal_id < flags.canals.len()
            invariant
                canal_id <= flags.canals.len(),
                flags.canals@.len() <= context.multi_trace@.len(),
                multi_trace_well_formed(context.multi_trace@, context.gen_ctx@),
                head_actions@ == heads_upto(context.multi_trace@, flags.canals@, canal_id as nat),
                forall|i: int|
                    0 <= i < head_actions@.len() ==> (#[trigger] head_actions@[i]).well_formed(
                        context.gen_ctx@,
                    ),
            decreases flags.canals.len() - canal_id,
        {
            let trace = &context.multi_trace[canal_id];
            let canal_flags = &flags.canals[canal_id];
            if trace.len() > canal_flags.consumed {
                let ghost before = head_actions@;
                let trace_head = trace[canal_flags.consumed].clone();
                proof {
                    assert(trace_well_formed(context.multi_trace@[canal_id as int]@, context.gen_ctx@));
                    assert(trace_head.well_formed(context.gen_ctx@));
                }
                push_if_absent(&mut head_actions, trace_head);
                proof {
                    assert forall|i: int| 0 <= i < head_actions@.len() implies (
                    #[trigger] head_actions@[i]).well_formed(context.gen_ctx@) by {
                        if i < before.len() {
                            assert(head_actions@[i] == before[i]);
                        }
                    }
                }
            }
            canal_id += 1;
        }
        let ghost heads = head_actions@;
        let frontier = global_frontier(interaction, &context.gen_ctx, &Some(head_actions));
        let mut next_steps: Vec<AnalysisStepKind> = Vec::new();
        let mut i: usize = 0;
        while i < frontier.len()
            invariant
                i <= frontier.len(),
                next_steps@.len() == i,
                forall|j: int|
                    0 <= j < i ==> next_steps@[j] == AnalysisStepKind::Execute(frontier@[j], None),
            decreases frontier.len() - i,
        {
            next_steps.push(AnalysisStepKind::Execute(frontier[i].clone(), None));
            i += 1;
        }
        proof {
            assert(next_steps@ =~= steps_from(frontier@, None));
            assert forall|k: int| 0 <= k < next_steps@.len() implies consumes_a_head(
                #[trigger] next_steps@[k],
                interaction@.frontier(0, context.gen_ctx@),
                heads,
                context.gen_ctx@,
            ) by {
                lemma_global_matches_within(interaction@, heads, context.gen_ctx@, k);
            }
        }
        next_steps
    }

    /// Whether the budgets allow to make up the action.
    pub fn is_ok_to_simulate(
        sim_config: &SimulationConfiguration,
        frt_elt: &FrontierElement,
        flags: &MultiTraceAnalysisFlags,
    ) -> (r: bool)
        ensures
            r == ok_to_simulate(*sim_config, *frt_elt, *flags),
    {
        match sim_config.act_crit {
            SimulationActionCriterion::NoLimit => {},
            _ => {
                if flags.rem_act_in_sim == 0 {
                    return false;
                }
            },
        }
        match sim_config.loop_crit {
            SimulationLoopCriterion::NoLimit => {},
            _ => {
                if frt_elt.max_loop_depth > flags.rem_loop_in_sim {
                    return false;
                }
            },
        }
        true
    }

    /// The steps that make up an action: see `simulation_steps`.
    pub fn get_simulation_steps(
        sim_config: &SimulationConfiguration,
        context: &AnalysisContext,
        interaction: &Interaction,
        flags: &MultiTraceAnalysisFlags,
    ) -> (r: Vec<AnalysisStepKind>)
        requires
            interaction@.well_formed(context.gen_ctx@),
            interaction@.max_nested_loop_depth() <= u32::MAX,
            forall|i: int|
                0 <= i < interaction@.frontier(0, context.gen_ctx@).len() ==> has_trace(
                    #[trigger] interaction@.frontier(0, context.gen_ctx@)[i],
                    context.co_localizations@,
                    context.multi_trace@,
                    flags.canals@,
                ),
        ensures
            r@ == simulation_steps(
                interaction@.frontier(0, context.gen_ctx@),
                *sim_config,
                context.co_localizations@,
                context.multi_trace@,
                *flags,
            ),
    {
        let frontier = global_frontier(interaction, &context.gen_ctx, &None);
        let ghost total = simulation_steps(
            frontier@,
            *sim_config,
            context.co_localizations@,
            context.multi_trace@,
            *flags,
        );
        let mut next_steps: Vec<AnalysisStepKind> = Vec::new();
        let mut i: usize = 0;
        proof {
            assert(frontier@.skip(0) =~= frontier@);
        }
        while i < frontier.len()
            invariant
                i <= frontier.len(),
                frontier@ == interaction@.frontier(0, context.gen_ctx@),
                total == simulation_steps(
                    frontier@,
                    *sim_config,
                    context.co_localizations@,
                    context.multi_trace@,
                    *flags,
                ),
                forall|k: int|
                    0 <= k < frontier@.len() ==> has_trace(
                        #[trigger] frontier@[k],
                        context.co_localizations@,
                        context.multi_trace@,
                        flags.canals@,
                    ),
                total == next_steps@ + simulation_steps(
                    frontier@.skip(i as int),
                    *sim_config,
                    context.co_localizations@,
                    context.multi_trace@,
                    *flags,
                ),
            decreases frontier.len() - i,
        {
            let frt_elt = &frontier[i];
            proof {
                assert(frontier@.skip(i as int)[0] == frontier@[i as int]);
                assert(frontier@.skip(i as int).drop_first() =~= frontier@.skip(i + 1));
            }
            if !Self::is_ok_to_simulate(sim_config, frt_elt, flags) {
                i += 1;
                continue;
            }
            let ghost rest = simulation_steps(
                frontier@.skip(i + 1),
                *sim_config,
                context.co_localizations@,
                context.multi_trace@,
                *flags,
            );
            let ghost before = next_steps@;
            match context.co_localizations.get_lf_coloc_id(frt_elt.target_action.lf_id) {
                Some(tract_coloc_id) => {
                    let canal_flag = &flags.canals[tract_coloc_id];
                    let canal_trace = &context.multi_trace[tract_coloc_id];
                    if canal_flag.consumed == canal_trace.len() {
                        next_steps.push(
                            AnalysisStepKind::Execute(
                                frt_elt.clone(),
                                Some(SimulationStepKind::AfterEnd),
                            ),
                        );
                    } else if sim_config.sim_before && canal_flag.consumed == 0 {
                        next_steps.push(
                            AnalysisStepKind::Execute(
                                frt_elt.clone(),
                                Some(SimulationStepKind::BeforeStart),
                            ),
                        );
                    }
                    proof {
                        let one = simulation_step(
                            *frt_elt,
                            *sim_config,
                            context.co_localizations@,
                            context.multi_trace@,
                            flags.canals@,
                        );
                        assert(next_steps@ =~= before + one);
                        assert(before + (one + rest) =~= (before + one) + rest);
                    }
                },
                None => {},
            }
            i += 1;
        }
        proof {
            assert(frontier@.skip(frontier.len() as int) =~= Seq::<FrontierElement>::empty());
            assert(total =~= next_steps@);
        }
        next_steps
    }
}

/// The flags with the traces of `cols` marked for the local analysis.
pub open spec fn marked_dirty(canals: Seq<TraceAnalysisFlags>, cols: Set<usize>) -> Seq<
    TraceAnalysisFlags,
> {
    Seq::new(
        canals.len(),
        |i: int|
            if cols.contains(i as usize) {
                TraceAnalysisFlags { dirty4local: true, ..canals[i] }
            } else {
                canals[i]
            },
    )
}

/// The verdict of a node without steps.
///
/// A multi-trace that is not consumed is no behaviour of the term. One that
/// is consumed without any made-up action is covered if the term can end
/// here, and else a prefix. With actions made up after the end of traces
/// only it is a multi-prefix, and with one made up before a start it is a
/// slice.
pub open spec fn verdict_when_no_child(
    t: Term,
    canals: Seq<TraceAnalysisFlags>,
    multi_trace: Seq<Vec<TraceAction>>,
) -> AnalysisLocalVerdict {
    if all_consumed(canals, multi_trace) {
        match simulation_used(canals) {
            WasMultiTraceConsumedWithSimulation::No => if t.express_empty() {
                AnalysisLocalVerdict::Cov
            } else {
                AnalysisLocalVerdict::GloPref
            },
            WasMultiTraceConsumedWithSimulation::OnlyAfterEnd => AnalysisLocalVerdict::MultiPref,
            WasMultiTraceConsumedWithSimulation::AsSlice => AnalysisLocalVerdict::Slice,
        }
    } else {
        AnalysisLocalVerdict::Out(false)
    }
}

/// What marks a node for the filters.
#[derive(Debug, Clone, Copy, PartialEq, Eq, Structural)]
pub struct AnalysisFilterCriterion {
    pub loop_depth: u32,
}

/// A bound on the search.
#[derive(Debug, Clone, Copy, PartialEq, Eq, Structural)]
pub enum AnalysisFilter {
    MaxLoopInstanciation(u32),
    MaxProcessDepth(u32),
    MaxNodeNumber(u32),
}

/// The bound that stopped a node.
#[derive(Debug, Clone, Copy, PartialEq, Eq, Structural)]
pub enum AnalysisFilterEliminationKind {
    MaxLoopInstanciation,
    MaxProcessDepth,
    MaxNodeNumber,
}

impl AnalysisFilter {
    /// Whether the bound stops a node: one deeper than the greatest depth,
    /// one that entered more loops than allowed, or any node once the
    /// greatest number of nodes is there.
    pub fn apply_filter(&self, depth: u32, node_counter: u32, criterion: &AnalysisFilterCriterion) -> (r:
        Option<AnalysisFilterEliminationKind>)
        ensures
            r == match *self {
                AnalysisFilter::MaxProcessDepth(max_depth) => if depth > max_depth {
                    Some(AnalysisFilterEliminationKind::MaxProcessDepth)
                } else {
                    None
                },
                AnalysisFilter::MaxLoopInstanciation(loop_num) => if criterion.loop_depth > loop_num {
                    Some(AnalysisFilterEliminationKind::MaxLoopInstanciation)
                } else {
                    None
                },
                AnalysisFilter::MaxNodeNumber(max_node_number) => if node_counter
                    >= max_node_number {
                    Some(AnalysisFilterEliminationKind::MaxNodeNumber)
                } else {
                    None
                },
            },
    {
        match self {
            AnalysisFilter::MaxProcessDepth(max_depth) => {
                if depth > *max_depth {
                    return Some(AnalysisFilterEliminationKind::MaxProcessDepth);
                }
            },
            AnalysisFilter::MaxLoopInstanciation(loop_num) => {
                if criterion.loop_depth > *loop_num {
                    return Some(AnalysisFilterEliminationKind::MaxLoopInstanciation);
                }
            },
            AnalysisFilter::MaxNodeNumber(max_node_number) => {
                if node_counter >= *max_node_number {
                    return Some(AnalysisFilterEliminationKind::MaxNodeNumber);
                }
            },
        }
        None
    }
}

/// The weights by which the steps of a node are ordered.
#[derive(Debug, Clone, Copy, PartialEq, Eq, Structural)]
pub struct AnalysisPriorities {
    pub emission: i32,
    pub reception: i32,
    pub multi_rdv: i32,
    pub in_loop: i32,
    pub elim: i32,
    pub simu: i32,
}

impl AnalysisPriorities {
    /// The weight of the kind of the action, and the weight of its depth
    /// in loops.
    pub open spec fn base_priority(self, e: FrontierElement) -> int {
        (match e.target_action.act_kind {
            TraceActionKind::Emission => self.emission as int,
            TraceActionKind::Reception => self.reception as int,
        }) + self.in_loop * e.max_loop_depth
    }

    /// The priority of a step: its base priority, and for a made-up step
    /// the weight of simulation.
    pub open spec fn priority_of(self, step: AnalysisStepKind) -> int {
        match step {
            AnalysisStepKind::Execute(e, simu) => self.base_priority(e) + if simu is Some {
                self.simu as int
            } else {
                0
            },
        }
    }

    pub fn new(emission: i32, reception: i32, multi_rdv: i32, in_loop: i32, elim: i32, simu: i32) -> (r:
        AnalysisPriorities)
        ensures
            r == (AnalysisPriorities { emission, reception, multi_rdv, in_loop, elim, simu }),
    {
        AnalysisPriorities { emission, reception, multi_rdv, in_loop, elim, simu }
    }

    /// No weight but on elimination, and simulation comes last.
    pub fn default() -> (r: AnalysisPriorities)
        ensures
            r == (AnalysisPriorities {
                emission: 0,
                reception: 0,
                multi_rdv: 0,
                in_loop: 0,
                elim: 1,
                simu: -1i32,
            }),
    {
        AnalysisPriorities::new(0, 0, 0, 0, 1, -1)
    }

    /// Every sum on the way to the priority of the step fits the machine.
    pub open spec fn priority_fits(self, step: AnalysisStepKind) -> bool {
        match step {
            AnalysisStepKind::Execute(e, _) => {
                &&& e.max_loop_depth <= i32::MAX
                &&& i32::MIN <= self.in_loop * e.max_loop_depth <= i32::MAX
                &&& i32::MIN <= self.base_priority(e) <= i32::MAX
                &&& i32::MIN <= self.priority_of(step) <= i32::MAX
            },
        }
    }

    /// The priority of a step, if every sum on the way fits the machine.
    pub fn checked_priority_of_step(&self, step: &AnalysisStepKind) -> (r: Option<i32>)
        ensures
            r is Some <==> self.priority_fits(*step),
            r matches Some(p) ==> p == self.priority_of(*step),
    {
        match step {
            AnalysisStepKind::Execute(frt_elt, is_simu) => {
                if frt_elt.max_loop_depth > 0x7fff_ffff {
                    return None;
                }
                let kind: i64 = match frt_elt.target_action.act_kind {
                    TraceActionKind::Emission => self.emission as i64,
                    TraceActionKind::Reception => self.reception as i64,
                };
                proof {
                    assert(-0x8000_0000 * 0x7fff_ffff <= self.in_loop * frt_elt.max_loop_depth
                        <= 0x7fff_ffff * 0x7fff_ffff) by (nonlinear_arith)
                        requires
                            -0x8000_0000 <= self.in_loop <= 0x7fff_ffff,
                            0 <= frt_elt.max_loop_depth <= 0x7fff_ffff,
                    ;
                }
                let in_loops: i64 = (self.in_loop as i64) * (frt_elt.max_loop_depth as i64);
                if in_loops < -0x8000_0000 || in_loops > 0x7fff_ffff {
                    return None;
                }
                let base: i64 = kind + in_loops;
                if base < -0x8000_0000 || base > 0x7fff_ffff {
                    return None;
                }
                let total: i64 = if is_simu.is_some() {
                    base + self.simu as i64
                } else {
                    base
                };
                if total < -0x8000_0000 || total > 0x7fff_ffff {
                    return None;
                }
                Some(self.get_priority_of_step(step))
            },
        }
    }

    /// The priority of a step: see `priority_of`.
    pub fn get_priority_of_step(&self, step: &AnalysisStepKind) -> (r: i32)
        requires
            self.priority_fits(*step),
        ensures
            r == self.priority_of(*step),
    {
        match step {
            AnalysisStepKind::Execute(frt_elt, is_simu) => {
                let mut priority: i32 = 0;
                match frt_elt.target_action.act_kind {
                    TraceActionKind::Emission => {
                        priority = priority + self.emission;
                    },
                    TraceActionKind::Reception => {
                        priority = priority + self.reception;
                    },
                }
                priority = priority + self.in_loop * (frt_elt.max_loop_depth as i32);
                if is_simu.is_some() {
                    priority = priority + self.simu;
                }
                priority
            },
        }
    }
}

} // verus!
