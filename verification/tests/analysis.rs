use hibou_label::action::BroadcastPrimitive;
use hibou_label::analysis::{
    AnalysisContext, AnalysisFilter, AnalysisFilterCriterion, AnalysisFilterEliminationKind,
    AnalysisLocalVerdict, AnalysisNodeKind, AnalysisParameterization, AnalysisPriorities,
    AnalysisStepKind, MultiTraceAnalysisMatcher,
};
use hibou_label::colocalizations::CoLocalizations;
use hibou_label::context::GeneralContext;
use hibou_label::exploration::{
    ExplorationContext, ExplorationFilterCriterion, ExplorationLocalVerdict, ExplorationNodeKind,
    ExplorationParameterization, ExplorationPriorities, ExplorationProcessHandler,
    ExplorationStepKind,
};
use hibou_label::flags::{
    MultiTraceAnalysisFlags, TraceAnalysisFlags, WasMultiTraceConsumedWithSimulation,
};
use hibou_label::frontier::FrontierElement;
use hibou_label::handler::AnalysisProcessHandler;
use hibou_label::interaction::Interaction;
use hibou_label::message::MessageTypeExpression;
use hibou_label::position::Position;
use hibou_label::simulation::{
    SimulationActionCriterion, SimulationConfiguration, SimulationLoopCriterion,
    SimulationStepKind,
};
use hibou_label::trace::{TraceAction, TraceActionKind};
use std::collections::HashSet;

const A: usize = 0;
const B: usize = 1;
const M: usize = 0;
const N: usize = 1;
const T: usize = 0;

fn set(ids: &[usize]) -> HashSet<usize> {
    ids.iter().cloned().collect()
}

/// Lifelines `a`, `b`, messages `m`, `n`, and the type `t = {m, n}`.
fn table() -> GeneralContext {
    let mut ctx = GeneralContext::new();
    ctx.add_lf("a".to_string());
    ctx.add_lf("b".to_string());
    ctx.add_msg("m".to_string());
    ctx.add_msg("n".to_string());
    ctx.add_mt("t".to_string(), set(&[M, N]));
    ctx
}

fn msg(m: usize) -> MessageTypeExpression {
    MessageTypeExpression::Singleton(m)
}

fn emit(origin: usize, m: usize, targets: Vec<usize>) -> Interaction {
    Interaction::Action(BroadcastPrimitive::new(Some(origin), msg(m), targets))
}

fn recv(m: usize, targets: Vec<usize>) -> Interaction {
    Interaction::Action(BroadcastPrimitive::new(None, msg(m), targets))
}

fn seq(i1: Interaction, i2: Interaction) -> Interaction {
    Interaction::CoReg(vec![], Box::new(i1), Box::new(i2))
}

fn alt(i1: Interaction, i2: Interaction) -> Interaction {
    Interaction::Alt(Box::new(i1), Box::new(i2))
}

fn lp(i1: Interaction) -> Interaction {
    Interaction::Loop(vec![], Box::new(i1))
}

fn emits(lf: usize, m: usize) -> TraceAction {
    TraceAction::new(lf, TraceActionKind::Emission, msg(m))
}

fn receives(lf: usize, m: usize) -> TraceAction {
    TraceAction::new(lf, TraceActionKind::Reception, msg(m))
}

fn here() -> Position {
    Position::Epsilon(None)
}

fn left(p: Position) -> Position {
    Position::Left(Box::new(p))
}

fn right(p: Position) -> Position {
    Position::Right(Box::new(p))
}

fn elt(position: Position, action: TraceAction, depth: u32) -> FrontierElement {
    FrontierElement::new(position, action, depth)
}

/// One trace for `a` and one for `b`.
fn context(trace_a: Vec<TraceAction>, trace_b: Vec<TraceAction>) -> AnalysisContext {
    AnalysisContext {
        gen_ctx: table(),
        co_localizations: CoLocalizations::new(vec![set(&[A]), set(&[B])]),
        multi_trace: vec![trace_a, trace_b],
    }
}

fn budgeted(sim_before: bool) -> SimulationConfiguration {
    SimulationConfiguration::new(
        sim_before,
        false,
        false,
        SimulationLoopCriterion::SpecificNum(1),
        SimulationActionCriterion::SpecificNum(2),
    )
}

fn flag(consumed: usize, before: u32, after: u32) -> TraceAnalysisFlags {
    TraceAnalysisFlags::new(consumed, false, false, before, after)
}

fn verdicts(
    context: &AnalysisContext,
    param: &AnalysisParameterization,
    root: AnalysisNodeKind,
) -> Vec<AnalysisLocalVerdict> {
    let mut stack = vec![root];
    let mut found = vec![];
    while let Some(node) = stack.pop() {
        let steps = AnalysisProcessHandler::collect_next_steps(context, param, &node);
        if steps.is_empty() {
            found.push(AnalysisProcessHandler::get_local_verdict_when_no_child(context, &node));
        } else {
            for step in &steps {
                stack.push(AnalysisProcessHandler::process_new_step(context, param, &node, step));
            }
        }
    }
    found
}

#[test]
fn fresh_flags_have_consumed_nothing() {
    let init = TraceAnalysisFlags::new_init();
    assert_eq!(init, TraceAnalysisFlags::new(0, false, true, 0, 0));
    let flags = MultiTraceAnalysisFlags::new_init(2, 3, 4);
    assert_eq!(flags, MultiTraceAnalysisFlags::new(vec![init, init], 3, 4));
    assert_eq!(flags.get_number_of_consumed_actions(), 0);
    assert_eq!(MultiTraceAnalysisFlags::new_init(0, 0, 0).canals, vec![]);
}

#[test]
fn flags_tell_how_far_the_traces_are_consumed() {
    let traces = vec![vec![emits(A, M), emits(A, N)], vec![receives(B, M)]];
    let flags = MultiTraceAnalysisFlags::new(vec![flag(1, 0, 0), flag(0, 0, 0)], 0, 0);
    assert!(!flags.is_any_component_empty(&traces));
    assert!(!flags.is_multi_trace_empty(&traces));
    assert_eq!(flags.get_number_of_consumed_actions(), 1);
    let flags = MultiTraceAnalysisFlags::new(vec![flag(1, 0, 0), flag(1, 0, 0)], 0, 0);
    assert!(flags.is_any_component_empty(&traces));
    assert!(!flags.is_multi_trace_empty(&traces));
    let flags = MultiTraceAnalysisFlags::new(vec![flag(2, 0, 0), flag(1, 0, 0)], 0, 0);
    assert!(flags.is_multi_trace_empty(&traces));
    assert_eq!(flags.get_number_of_consumed_actions(), 3);
    assert!(!flags.is_any_component_hidden());
    let hidden = TraceAnalysisFlags::new(0, true, false, 0, 0);
    assert!(MultiTraceAnalysisFlags::new(vec![flag(0, 0, 0), hidden], 0, 0).is_any_component_hidden());
}

#[test]
fn flags_tell_where_actions_were_made_up() {
    let of = |canals| MultiTraceAnalysisFlags::new(canals, 0, 0).is_simulated();
    assert_eq!(of(vec![flag(3, 0, 0), flag(0, 0, 0)]), WasMultiTraceConsumedWithSimulation::No);
    assert_eq!(
        of(vec![flag(3, 0, 2), flag(0, 0, 0)]),
        WasMultiTraceConsumedWithSimulation::OnlyAfterEnd
    );
    assert_eq!(
        of(vec![flag(3, 0, 2), flag(0, 1, 0)]),
        WasMultiTraceConsumedWithSimulation::AsSlice
    );
    assert_eq!(of(vec![]), WasMultiTraceConsumedWithSimulation::No);
}

#[test]
fn fresh_budgets_follow_the_criteria() {
    let term = seq(lp(lp(emit(A, M, vec![B]))), alt(lp(emit(A, N, vec![])), emit(B, M, vec![A])));
    let with = |multiply, loop_crit, act_crit| {
        SimulationConfiguration::new(false, false, multiply, loop_crit, act_crit)
    };
    let none = SimulationActionCriterion::NoLimit;
    assert_eq!(with(false, SimulationLoopCriterion::MaxDepth, none).get_reset_rem_loop(3, &term), 2);
    assert_eq!(with(true, SimulationLoopCriterion::MaxDepth, none).get_reset_rem_loop(3, &term), 6);
    assert_eq!(with(false, SimulationLoopCriterion::MaxNum, none).get_reset_rem_loop(3, &term), 3);
    assert_eq!(with(true, SimulationLoopCriterion::MaxNum, none).get_reset_rem_loop(3, &term), 9);
    assert_eq!(
        with(true, SimulationLoopCriterion::SpecificNum(5), none).get_reset_rem_loop(2, &term),
        10
    );
    assert_eq!(with(true, SimulationLoopCriterion::NoLimit, none).get_reset_rem_loop(2, &term), 0);
    let no_loop = SimulationLoopCriterion::NoLimit;
    assert_eq!(
        with(false, no_loop, SimulationActionCriterion::MaxNumOutsideLoops)
            .get_reset_rem_act(3, &term),
        2
    );
    assert_eq!(
        with(true, no_loop, SimulationActionCriterion::MaxNumOutsideLoops)
            .get_reset_rem_act(3, &term),
        6
    );
    assert_eq!(
        with(false, no_loop, SimulationActionCriterion::SpecificNum(7)).get_reset_rem_act(3, &term),
        7
    );
    assert_eq!(with(true, no_loop, SimulationActionCriterion::NoLimit).get_reset_rem_act(3, &term), 0);
}

#[test]
fn a_step_raises_one_counter_of_its_trace() {
    let flags = MultiTraceAnalysisFlags::new(vec![flag(1, 0, 0), flag(2, 0, 0)], 5, 5);
    let after = flags.update_on_execution(&None, 1, &None, 0, &Interaction::Empty);
    assert_eq!(after, MultiTraceAnalysisFlags::new(vec![flag(1, 0, 0), flag(3, 0, 0)], 0, 0));
    let cfg = Some(budgeted(true));
    let after = flags.update_on_execution(&cfg, 0, &None, 0, &Interaction::Empty);
    assert_eq!(after, MultiTraceAnalysisFlags::new(vec![flag(2, 0, 0), flag(2, 0, 0)], 5, 5));
    let after = flags.update_on_execution(
        &cfg,
        0,
        &Some(SimulationStepKind::BeforeStart),
        2,
        &Interaction::Empty,
    );
    assert_eq!(after, MultiTraceAnalysisFlags::new(vec![flag(1, 1, 0), flag(2, 0, 0)], 3, 4));
    let after = flags.update_on_execution(
        &cfg,
        1,
        &Some(SimulationStepKind::AfterEnd),
        0,
        &Interaction::Empty,
    );
    assert_eq!(after, MultiTraceAnalysisFlags::new(vec![flag(1, 0, 0), flag(2, 0, 1)], 5, 4));
    assert_eq!(flags.update_criterion_on_simulation(5), (0, 4));
}

#[test]
fn consuming_an_action_refills_the_budgets_up_to_their_fresh_value() {
    let flags = MultiTraceAnalysisFlags::new(vec![flag(0, 0, 0), flag(0, 0, 0)], 5, 5);
    let cfg = Some(SimulationConfiguration::new(
        false,
        true,
        true,
        SimulationLoopCriterion::SpecificNum(2),
        SimulationActionCriterion::SpecificNum(9),
    ));
    let after = flags.update_on_execution(&cfg, 0, &None, 0, &Interaction::Empty);
    assert_eq!(after, MultiTraceAnalysisFlags::new(vec![flag(1, 0, 0), flag(0, 0, 0)], 5, 18));
    let cfg = Some(SimulationConfiguration::new(
        false,
        true,
        false,
        SimulationLoopCriterion::MaxDepth,
        SimulationActionCriterion::MaxNumOutsideLoops,
    ));
    let small = MultiTraceAnalysisFlags::new(vec![flag(0, 0, 0)], 0, 1);
    let term = seq(lp(lp(emit(A, M, vec![]))), emit(A, M, vec![B, B]));
    let after = small.update_on_execution(&cfg, 0, &None, 0, &term);
    assert_eq!(after, MultiTraceAnalysisFlags::new(vec![flag(1, 0, 0)], 2, 3));
}

#[test]
fn lifelines_are_found_in_their_groups() {
    let groups = CoLocalizations::new(vec![set(&[0, 1]), set(&[2]), set(&[3, 4])]);
    assert_eq!(groups.num_colocs(), 3);
    assert_eq!(groups.get_lf_coloc_id(1), Some(0));
    assert_eq!(groups.get_lf_coloc_id(4), Some(2));
    assert_eq!(groups.get_lf_coloc_id(5), None);
    assert_eq!(groups.get_coloc_ids_from_lf_ids(&set(&[1, 3])), set(&[0, 2]));
    assert_eq!(groups.get_coloc_ids_from_lf_ids(&set(&[7])), set(&[]));
    assert_eq!(groups.get_coloc_ids_from_lf_ids(&set(&[])), set(&[]));
}

#[test]
fn matches_are_the_frontier_against_the_next_actions() {
    let ctx = context(vec![emits(A, N), emits(A, M)], vec![receives(B, M)]);
    let term = alt(emit(A, M, vec![B]), seq(emit(A, N, vec![]), recv(M, vec![B])));
    let flags = MultiTraceAnalysisFlags::new_init(2, 0, 0);
    assert_eq!(
        MultiTraceAnalysisMatcher::get_matches(&ctx, &term, &flags),
        vec![
            AnalysisStepKind::Execute(elt(right(left(here())), emits(A, N), 0), None),
            AnalysisStepKind::Execute(
                elt(right(right(Position::Epsilon(Some(0)))), receives(B, M), 0),
                None
            ),
        ]
    );
    let flags = MultiTraceAnalysisFlags::new(vec![flag(1, 0, 0), flag(0, 0, 0)], 0, 0);
    assert_eq!(
        MultiTraceAnalysisMatcher::get_matches(&ctx, &term, &flags),
        vec![
            AnalysisStepKind::Execute(elt(left(here()), emits(A, M), 0), None),
            AnalysisStepKind::Execute(
                elt(right(right(Position::Epsilon(Some(0)))), receives(B, M), 0),
                None
            ),
        ]
    );
    let flags = MultiTraceAnalysisFlags::new(vec![flag(2, 0, 0), flag(1, 0, 0)], 0, 0);
    assert_eq!(MultiTraceAnalysisMatcher::get_matches(&ctx, &term, &flags), vec![]);
}

#[test]
fn simulation_is_gated_by_the_budgets() {
    let e = elt(here(), emits(A, M), 2);
    let flags = |rem_loop, rem_act| MultiTraceAnalysisFlags::new(vec![], rem_loop, rem_act);
    let cfg = budgeted(false);
    assert!(MultiTraceAnalysisMatcher::is_ok_to_simulate(&cfg, &e, &flags(2, 1)));
    assert!(!MultiTraceAnalysisMatcher::is_ok_to_simulate(&cfg, &e, &flags(1, 1)));
    assert!(!MultiTraceAnalysisMatcher::is_ok_to_simulate(&cfg, &e, &flags(2, 0)));
    let free = SimulationConfiguration::new(
        false,
        false,
        false,
        SimulationLoopCriterion::NoLimit,
        SimulationActionCriterion::NoLimit,
    );
    assert!(MultiTraceAnalysisMatcher::is_ok_to_simulate(&free, &e, &flags(0, 0)));
}

#[test]
fn made_up_steps_come_after_the_end_or_before_the_start_of_a_trace() {
    let ctx = context(vec![emits(A, M)], vec![]);
    let term = seq(emit(B, N, vec![]), emit(A, N, vec![]));
    let flags = MultiTraceAnalysisFlags::new(vec![flag(0, 0, 0), flag(0, 0, 0)], 1, 2);
    assert_eq!(
        MultiTraceAnalysisMatcher::get_simulation_steps(&budgeted(false), &ctx, &term, &flags),
        vec![AnalysisStepKind::Execute(
            elt(left(here()), emits(B, N), 0),
            Some(SimulationStepKind::AfterEnd)
        )]
    );
    assert_eq!(
        MultiTraceAnalysisMatcher::get_simulation_steps(&budgeted(true), &ctx, &term, &flags),
        vec![
            AnalysisStepKind::Execute(
                elt(left(here()), emits(B, N), 0),
                Some(SimulationStepKind::AfterEnd)
            ),
            AnalysisStepKind::Execute(
                elt(right(here()), emits(A, N), 0),
                Some(SimulationStepKind::BeforeStart)
            ),
        ]
    );
    // nothing is made up once the budget of actions is spent
    let spent = MultiTraceAnalysisFlags::new(vec![flag(0, 0, 0), flag(0, 0, 0)], 1, 0);
    assert_eq!(
        MultiTraceAnalysisMatcher::get_simulation_steps(&budgeted(true), &ctx, &term, &spent),
        vec![]
    );
    // an element that is too deep in loops is left out, and the others
    // stay
    let deep = seq(lp(lp(emit(B, N, vec![]))), emit(A, N, vec![]));
    assert_eq!(
        MultiTraceAnalysisMatcher::get_simulation_steps(&budgeted(true), &ctx, &deep, &flags),
        vec![AnalysisStepKind::Execute(
            elt(right(here()), emits(A, N), 0),
            Some(SimulationStepKind::BeforeStart)
        )]
    );
}

#[test]
fn actions_made_up_after_the_end_give_a_multi_prefix() {
    let ctx = context(vec![emits(A, M)], vec![]);
    let param = AnalysisParameterization::new(Some(budgeted(false)), false);
    let root = AnalysisNodeKind::new(
        seq(emit(B, N, vec![]), emit(A, M, vec![])),
        MultiTraceAnalysisFlags::new_init(2, 1, 2),
        0,
    );
    let mut found = verdicts(&ctx, &param, root);
    found.sort_by_key(|v| format!("{:?}", v));
    assert_eq!(found, vec![AnalysisLocalVerdict::GloPref, AnalysisLocalVerdict::MultiPref]);
}

#[test]
fn actions_made_up_before_the_start_give_a_slice() {
    let ctx = context(vec![], vec![emits(B, M)]);
    let param = AnalysisParameterization::new(Some(budgeted(true)), false);
    let root = AnalysisNodeKind::new(
        seq(emit(B, N, vec![]), emit(B, M, vec![])),
        MultiTraceAnalysisFlags::new_init(2, 1, 2),
        0,
    );
    // the second action can be made up too, and then the trace is not consumed
    let mut found = verdicts(&ctx, &param, root);
    found.sort_by_key(|v| format!("{:?}", v));
    assert_eq!(found, vec![AnalysisLocalVerdict::Out(false), AnalysisLocalVerdict::Slice]);
}

#[test]
fn a_step_marks_the_traces_that_it_affects() {
    let ctx = context(vec![emits(A, M)], vec![]);
    let clean = || MultiTraceAnalysisFlags::new(vec![flag(0, 0, 0), flag(0, 0, 0)], 0, 0);
    let step = AnalysisStepKind::Execute(elt(left(here()), emits(A, M), 0), None);
    let parent = AnalysisNodeKind::new(alt(emit(A, M, vec![]), emit(B, M, vec![])), clean(), 4);
    let with_locana = AnalysisParameterization::new(None, true);
    let child = AnalysisProcessHandler::process_new_step(&ctx, &with_locana, &parent, &step);
    assert_eq!(child.interaction, Interaction::Empty);
    assert_eq!(child.ana_loop_depth, 4);
    let dirty = |consumed| TraceAnalysisFlags::new(consumed, false, true, 0, 0);
    assert_eq!(child.flags, MultiTraceAnalysisFlags::new(vec![dirty(1), dirty(0)], 0, 0));
    let without = AnalysisParameterization::new(None, false);
    let child = AnalysisProcessHandler::process_new_step(&ctx, &without, &parent, &step);
    assert_eq!(child.flags, MultiTraceAnalysisFlags::new(vec![flag(1, 0, 0), flag(0, 0, 0)], 0, 0));
    // firing the action itself affects nobody
    let step = AnalysisStepKind::Execute(elt(left(here()), emits(A, M), 3), None);
    let parent = AnalysisNodeKind::new(lp(emit(A, M, vec![])), clean(), 4);
    let child = AnalysisProcessHandler::process_new_step(&ctx, &with_locana, &parent, &step);
    assert_eq!(child.flags, MultiTraceAnalysisFlags::new(vec![dirty(1), flag(0, 0, 0)], 0, 0));
    assert_eq!(child.ana_loop_depth, 7);
    assert_eq!(
        AnalysisProcessHandler::get_criterion(&parent, &step),
        AnalysisFilterCriterion { loop_depth: 7 }
    );
}

#[test]
fn the_local_analysis_sees_one_group_of_lifelines() {
    let ctx = table();
    let groups = CoLocalizations::new(vec![set(&[A]), set(&[B])]);
    let term = seq(emit(A, M, vec![B]), alt(emit(B, N, vec![]), emit(A, N, vec![])));
    assert_eq!(
        AnalysisProcessHandler::get_local_interaction(&ctx, &groups, 0, &term),
        seq(emit(A, M, vec![]), alt(Interaction::Empty, emit(A, N, vec![])))
    );
    assert_eq!(
        AnalysisProcessHandler::get_local_interaction(&ctx, &groups, 1, &term),
        seq(recv(M, vec![B]), alt(emit(B, N, vec![]), Interaction::Empty))
    );
    assert_eq!(AnalysisProcessHandler::get_local_verdict_from_static_analysis(None), None);
    assert_eq!(
        AnalysisProcessHandler::get_local_verdict_from_static_analysis(Some(1)),
        Some(AnalysisLocalVerdict::Out(true))
    );
    let pursue = AnalysisProcessHandler::pursue_process_after_static_verdict;
    assert!(!pursue(&AnalysisLocalVerdict::Out(true)));
    assert!(!pursue(&AnalysisLocalVerdict::Out(false)));
    assert!(pursue(&AnalysisLocalVerdict::Cov));
    assert!(pursue(&AnalysisLocalVerdict::Slice));
}

#[test]
fn filters_stop_nodes_beyond_their_bound() {
    let crit = AnalysisFilterCriterion { loop_depth: 3 };
    assert_eq!(AnalysisFilter::MaxProcessDepth(5).apply_filter(5, 0, &crit), None);
    assert_eq!(
        AnalysisFilter::MaxProcessDepth(5).apply_filter(6, 0, &crit),
        Some(AnalysisFilterEliminationKind::MaxProcessDepth)
    );
    assert_eq!(AnalysisFilter::MaxLoopInstanciation(3).apply_filter(9, 9, &crit), None);
    assert_eq!(
        AnalysisFilter::MaxLoopInstanciation(2).apply_filter(0, 0, &crit),
        Some(AnalysisFilterEliminationKind::MaxLoopInstanciation)
    );
    assert_eq!(AnalysisFilter::MaxNodeNumber(10).apply_filter(0, 9, &crit), None);
    assert_eq!(
        AnalysisFilter::MaxNodeNumber(10).apply_filter(0, 10, &crit),
        Some(AnalysisFilterEliminationKind::MaxNodeNumber)
    );
}

#[test]
fn priorities_weigh_kind_depth_and_simulation() {
    assert_eq!(AnalysisPriorities::default(), AnalysisPriorities::new(0, 0, 0, 0, 1, -1));
    let weights = AnalysisPriorities::new(1, 2, 0, 3, 0, -5);
    let emission = AnalysisStepKind::Execute(elt(here(), emits(A, M), 2), None);
    assert_eq!(weights.get_priority_of_step(&emission), 7);
    let made_up = AnalysisStepKind::Execute(
        elt(here(), receives(B, M), 2),
        Some(SimulationStepKind::AfterEnd),
    );
    assert_eq!(weights.get_priority_of_step(&made_up), 3);
    assert_eq!(AnalysisPriorities::default().get_priority_of_step(&made_up), -1);
    assert_eq!(weights.checked_priority_of_step(&made_up), Some(3));
    let heavy = AnalysisPriorities::new(i32::MAX, 0, 0, 1, 0, 0);
    assert_eq!(heavy.checked_priority_of_step(&emission), None);
    let steep = AnalysisPriorities::new(0, 0, 0, i32::MIN, 0, 0);
    assert_eq!(steep.checked_priority_of_step(&emission), None);
    let deep = AnalysisStepKind::Execute(elt(here(), emits(A, M), u32::MAX), None);
    assert_eq!(AnalysisPriorities::default().checked_priority_of_step(&deep), None);
    let low = AnalysisPriorities::new(i32::MIN, 0, 0, 0, 0, -1);
    let made_up_emission = AnalysisStepKind::Execute(
        elt(here(), emits(A, M), 0),
        Some(SimulationStepKind::AfterEnd),
    );
    assert_eq!(low.checked_priority_of_step(&made_up_emission), None);
    assert_eq!(
        low.checked_priority_of_step(&AnalysisStepKind::Execute(elt(here(), emits(A, M), 0), None)),
        Some(i32::MIN)
    );
    assert_eq!(ExplorationPriorities::default(), ExplorationPriorities::new(0, 0, 0));
    assert_eq!(
        ExplorationPriorities::new(1, 2, -3)
            .checked_priority_of_step(&ExplorationStepKind::Execute(elt(here(), emits(A, M), 2))),
        Some(-5)
    );
    assert_eq!(
        ExplorationPriorities::new(i32::MAX, 0, 1)
            .checked_priority_of_step(&ExplorationStepKind::Execute(elt(here(), emits(A, M), 2))),
        None
    );
    let weights = ExplorationPriorities::new(1, 2, -3);
    assert_eq!(
        weights.get_priority_of_step(&ExplorationStepKind::Execute(elt(here(), emits(A, M), 2))),
        -5
    );
    assert_eq!(
        weights.get_priority_of_step(&ExplorationStepKind::Execute(elt(here(), receives(A, M), 0))),
        2
    );
}

#[test]
fn exploration_takes_the_frontier_from_its_end() {
    let ctx = ExplorationContext { gen_ctx: table() };
    let any = MessageTypeExpression::NamedType(T);
    let wide = Interaction::Action(BroadcastPrimitive::new(Some(A), any.clone(), vec![]));
    let node = ExplorationNodeKind::new(seq(wide, emit(B, M, vec![])), 2);
    let whole = TraceAction::new(A, TraceActionKind::Emission, any);
    let plain = ExplorationParameterization { concretize: false };
    assert_eq!(
        ExplorationProcessHandler::collect_next_steps(&ctx, &plain, &node),
        vec![
            ExplorationStepKind::Execute(elt(right(here()), emits(B, M), 0)),
            ExplorationStepKind::Execute(elt(left(here()), whole, 0)),
        ]
    );
    let concrete = ExplorationParameterization { concretize: true };
    let steps = ExplorationProcessHandler::collect_next_steps(&ctx, &concrete, &node);
    assert_eq!(
        steps,
        vec![
            ExplorationStepKind::Execute(elt(right(here()), emits(B, M), 0)),
            ExplorationStepKind::Execute(elt(left(here()), emits(A, M), 0)),
            ExplorationStepKind::Execute(elt(left(here()), emits(A, N), 0)),
        ]
    );
    let child = ExplorationProcessHandler::process_new_step(&ctx, &node, &steps[2]);
    assert_eq!(child, ExplorationNodeKind::new(emit(B, M, vec![]), 2));
    assert_eq!(
        ExplorationProcessHandler::get_criterion(
            &node,
            &ExplorationStepKind::Execute(elt(here(), emits(A, M), 3))
        ),
        ExplorationFilterCriterion { loop_depth: 5 }
    );
}

#[test]
fn exploration_accepts_where_the_term_can_end() {
    let done = ExplorationNodeKind::new(lp(emit(A, M, vec![])), 0);
    let stuck = ExplorationNodeKind::new(emit(A, M, vec![]), 0);
    assert_eq!(
        ExplorationProcessHandler::get_local_verdict_when_no_child(&done),
        ExplorationLocalVerdict::Accepting
    );
    assert_eq!(
        ExplorationProcessHandler::get_local_verdict_when_no_child(&stuck),
        ExplorationLocalVerdict::DeadLocked
    );
    assert_eq!(
        ExplorationProcessHandler::get_local_verdict_from_static_analysis(&done),
        Some(ExplorationLocalVerdict::Accepting)
    );
    assert_eq!(ExplorationProcessHandler::get_local_verdict_from_static_analysis(&stuck), None);
    let pursue = ExplorationProcessHandler::pursue_process_after_static_verdict;
    assert!(pursue(&ExplorationLocalVerdict::Accepting));
    assert!(!pursue(&ExplorationLocalVerdict::DeadLocked));
}

#[test]
fn actions_are_compatible_when_their_messages_meet() {
    let ctx = table();
    let any = MessageTypeExpression::NamedType(T);
    let wide = TraceAction::new(A, TraceActionKind::Emission, any.clone());
    assert!(wide.is_type_included(&emits(A, M), &ctx));
    assert!(emits(A, M).is_type_included(&wide, &ctx));
    assert!(emits(A, M).is_type_included(&emits(A, M), &ctx));
    assert!(!emits(A, M).is_type_included(&emits(A, N), &ctx));
    assert!(!emits(A, M).is_type_included(&emits(B, M), &ctx));
    assert!(!emits(A, M).is_type_included(&receives(A, M), &ctx));
    assert!(!wide.is_type_included(&TraceAction::new(A, TraceActionKind::Reception, any), &ctx));
}
