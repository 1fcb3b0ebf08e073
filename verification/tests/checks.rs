use hibou_label::action::BroadcastPrimitive;
use hibou_label::analysis::{
    AnalysisContext, AnalysisGlobalVerdict, AnalysisLocalVerdict, AnalysisNodeKind,
    AnalysisParameterization, AnalysisStepKind, InconcReason,
};
use hibou_label::colocalizations::CoLocalizations;
use hibou_label::context::GeneralContext;
use hibou_label::dimensions::{get_interaction_depth, get_interaction_max_yshift};
use hibou_label::exploration::{
    ExplorationContext, ExplorationNodeKind, ExplorationParameterization,
    ExplorationProcessHandler, ExplorationStepKind,
};
use hibou_label::flags::{MultiTraceAnalysisFlags, TraceAnalysisFlags};
use hibou_label::frontier::{global_frontier, FrontierElement};
use hibou_label::handler::AnalysisProcessHandler;
use hibou_label::interaction::Interaction;
use hibou_label::message::MessageTypeExpression;
use hibou_label::position::Position;
use hibou_label::prunable::{InteractionInterpretableAsTraceActions, LifelinePrunable};
use hibou_label::simulation::{
    SimulationActionCriterion, SimulationConfiguration, SimulationLoopCriterion,
    SimulationStepKind,
};
use hibou_label::sync::SyncMap;
use hibou_label::trace::{TraceAction, TraceActionKind};
use hibou_label::validity::{is_multi_trace_well_formed, is_trace_well_formed};
use std::collections::HashSet;

const A: usize = 0;
const B: usize = 1;
const C: usize = 2;
const M: usize = 0;
const N: usize = 1;

fn set(ids: &[usize]) -> HashSet<usize> {
    ids.iter().cloned().collect()
}

/// Lifelines `a`, `b`, `c`, messages `m`, `n`, and the type `t = {m, n}`.
fn table() -> GeneralContext {
    let mut ctx = GeneralContext::new();
    ctx.add_lf("a".to_string());
    ctx.add_lf("b".to_string());
    ctx.add_lf("c".to_string());
    ctx.add_msg("m".to_string());
    ctx.add_msg("n".to_string());
    ctx.add_mt("t".to_string(), set(&[M, N]));
    ctx
}

fn msg(m: usize) -> MessageTypeExpression {
    MessageTypeExpression::Singleton(m)
}

fn emit(origin: usize, m: usize, targets: Vec<usize>) -> Interaction {
    Interaction::Action(BroadcastPrimitive::new(Some(origin), msg(m), targets))
}

fn recv(m: usize, targets: Vec<usize>) -> Interaction {
    Interaction::Action(BroadcastPrimitive::new(None, msg(m), targets))
}

fn unknown_type() -> Interaction {
    Interaction::Action(BroadcastPrimitive::new(
        Some(A),
        MessageTypeExpression::NamedType(9),
        vec![],
    ))
}

fn seq(i1: Interaction, i2: Interaction) -> Interaction {
    Interaction::CoReg(vec![], Box::new(i1), Box::new(i2))
}

fn coreg(cr: Vec<usize>, i1: Interaction, i2: Interaction) -> Interaction {
    Interaction::CoReg(cr, Box::new(i1), Box::new(i2))
}

fn alt(i1: Interaction, i2: Interaction) -> Interaction {
    Interaction::Alt(Box::new(i1), Box::new(i2))
}

fn lp(i1: Interaction) -> Interaction {
    Interaction::Loop(vec![], Box::new(i1))
}

fn sync_on(lf: usize, kind: TraceActionKind, message: MessageTypeExpression) -> SyncMap {
    let mut map = SyncMap::new();
    map.insert(lf, kind, message);
    map
}

fn sync(map: SyncMap, i1: Interaction, i2: Interaction) -> Interaction {
    Interaction::Sync(map, Box::new(i1), Box::new(i2))
}

fn emits(lf: usize, m: usize) -> TraceAction {
    TraceAction::new(lf, TraceActionKind::Emission, msg(m))
}

fn receives(lf: usize, m: usize) -> TraceAction {
    TraceAction::new(lf, TraceActionKind::Reception, msg(m))
}

fn here() -> Position {
    Position::Epsilon(None)
}

fn at(k: usize) -> Position {
    Position::Epsilon(Some(k))
}

fn left(p: Position) -> Position {
    Position::Left(Box::new(p))
}

fn right(p: Position) -> Position {
    Position::Right(Box::new(p))
}

fn both(p1: Position, p2: Position) -> Position {
    Position::Both(Box::new(p1), Box::new(p2))
}

fn elt(position: Position, action: TraceAction, depth: u32) -> FrontierElement {
    FrontierElement::new(position, action, depth)
}

fn context(trace_a: Vec<TraceAction>, trace_b: Vec<TraceAction>) -> AnalysisContext {
    AnalysisContext {
        gen_ctx: table(),
        co_localizations: CoLocalizations::new(vec![set(&[A]), set(&[B])]),
        multi_trace: vec![trace_a, trace_b],
    }
}

#[test]
fn terms_and_traces_are_checked_against_the_table() {
    let ctx = table();
    assert!(Interaction::Empty.is_well_formed(&ctx));
    assert!(seq(emit(A, M, vec![B]), lp(emit(B, N, vec![]))).is_well_formed(&ctx));
    assert!(!seq(emit(A, M, vec![B]), lp(unknown_type())).is_well_formed(&ctx));
    assert!(!alt(unknown_type(), Interaction::Empty).is_well_formed(&ctx));
    let good = sync_on(A, TraceActionKind::Emission, MessageTypeExpression::NamedType(0));
    let bad = sync_on(A, TraceActionKind::Emission, MessageTypeExpression::NamedType(3));
    assert!(good.is_well_formed(&ctx));
    assert!(!bad.is_well_formed(&ctx));
    assert!(sync(good, Interaction::Empty, Interaction::Empty).is_well_formed(&ctx));
    assert!(!sync(bad, Interaction::Empty, Interaction::Empty).is_well_formed(&ctx));
    let odd = TraceAction::new(A, TraceActionKind::Emission, MessageTypeExpression::NamedType(4));
    assert!(emits(A, M).is_well_formed(&ctx));
    assert!(!odd.is_well_formed(&ctx));
    assert!(is_trace_well_formed(&vec![emits(A, M), receives(B, M)], &ctx));
    assert!(!is_trace_well_formed(&vec![emits(A, M), odd.clone()], &ctx));
    assert!(is_multi_trace_well_formed(&vec![vec![], vec![emits(A, M)]], &ctx));
    assert!(!is_multi_trace_well_formed(&vec![vec![], vec![odd]], &ctx));
}

#[test]
fn executability_is_decided_by_position_kind_and_messages() {
    let ctx = table();
    let wide = Interaction::Action(BroadcastPrimitive::new(
        Some(A),
        MessageTypeExpression::NamedType(0),
        vec![B],
    ));
    assert!(wide.is_executable(&here(), &emits(A, M), &ctx));
    assert!(!wide.is_executable(&here(), &emits(B, M), &ctx));
    assert!(!wide.is_executable(&here(), &receives(A, M), &ctx));
    assert!(!wide.is_executable(&at(0), &receives(B, M), &ctx));
    assert!(!wide.is_executable(&left(here()), &emits(A, M), &ctx));
    assert!(!emit(A, M, vec![]).is_executable(&here(), &emits(A, N), &ctx));
    let waiting = recv(M, vec![B, C]);
    assert!(waiting.is_executable(&at(1), &receives(C, M), &ctx));
    assert!(!waiting.is_executable(&at(2), &receives(C, M), &ctx));
    assert!(!waiting.is_executable(&here(), &receives(C, M), &ctx));
    assert!(!waiting.is_executable(&at(0), &emits(B, M), &ctx));
    let term = seq(lp(emit(A, M, vec![])), alt(emit(A, M, vec![]), emit(B, N, vec![])));
    assert!(term.is_executable(&left(left(here())), &emits(A, M), &ctx));
    assert!(term.is_executable(&right(left(here())), &emits(A, M), &ctx));
    assert!(term.is_executable(&right(right(here())), &emits(B, N), &ctx));
    assert!(!term.is_executable(&right(right(here())), &emits(A, M), &ctx));
    assert!(!term.is_executable(&left(right(here())), &emits(A, M), &ctx));
    assert!(!term.is_executable(&both(here(), here()), &emits(A, M), &ctx));
    let twice = alt(emit(A, M, vec![B]), emit(A, M, vec![C]));
    assert!(twice.is_executable(&both(here(), here()), &emits(A, M), &ctx));
    assert!(!Interaction::Empty.is_executable(&here(), &emits(A, M), &ctx));
    for t in [term, twice, wide, waiting] {
        for e in global_frontier(&t, &ctx, &None) {
            assert!(t.is_executable(&e.position, &e.target_action, &ctx));
            assert!(t.has_position(&e.position));
        }
    }
    assert!(!emit(A, M, vec![]).has_position(&left(here())));
    assert!(lp(Interaction::Empty).has_position(&left(right(here()))));
    assert!(!lp(Interaction::Empty).has_position(&right(here())));
}

#[test]
fn counts_that_fit_the_machine_are_given() {
    let term = seq(lp(lp(emit(A, M, vec![B]))), alt(lp(emit(A, N, vec![])), emit(B, M, vec![A])));
    assert_eq!(term.checked_max_nested_loop_depth(), Some(2));
    assert_eq!(term.checked_total_loop_num(), Some(3));
    assert_eq!(term.checked_actions_number(), Some(5));
    assert_eq!(Interaction::Empty.checked_actions_number(), Some(0));
    // outside loops, and with the larger branch of a choice
    assert_eq!(term.checked_actions_number_outside_loops(), Some(2));
    assert_eq!(term.get_atomic_actions_number(true, false), 2);
    let both = seq(emit(A, M, vec![B]), alt(emit(A, N, vec![]), emit(B, M, vec![A])));
    assert_eq!(both.checked_actions_number_outside_loops(), Some(4));
}

#[test]
fn diagrams_take_the_rows_of_their_operands() {
    let x = emit(A, M, vec![]);
    assert_eq!(get_interaction_depth(&Interaction::Empty), 0);
    assert_eq!(get_interaction_depth(&x), 3);
    assert_eq!(get_interaction_depth(&lp(x.clone())), 7);
    assert_eq!(get_interaction_depth(&seq(x.clone(), x.clone())), 10);
    assert_eq!(get_interaction_depth(&seq(seq(x.clone(), x.clone()), x.clone())), 15);
    // a sequence with another co-region is a box of its own
    assert_eq!(
        get_interaction_depth(&seq(coreg(vec![A], x.clone(), x.clone()), x.clone())),
        17
    );
    assert_eq!(get_interaction_depth(&alt(x.clone(), alt(x.clone(), x.clone()))), 17);
    assert_eq!(get_interaction_depth(&alt(x.clone(), seq(x.clone(), x.clone()))), 19);
    let map = sync_on(A, TraceActionKind::Emission, msg(M));
    let other = sync_on(B, TraceActionKind::Emission, msg(M));
    assert_eq!(
        get_interaction_depth(&sync(map.clone(), x.clone(), sync(map.clone(), x.clone(), x.clone()))),
        17
    );
    assert_eq!(
        get_interaction_depth(&sync(map, x.clone(), sync(other, x.clone(), x.clone()))),
        21
    );
    assert_eq!(get_interaction_max_yshift(&x), 7);
    assert_eq!(get_interaction_max_yshift(&Interaction::Empty), 4);
}

fn number_of_actions<T: InteractionInterpretableAsTraceActions>(t: &T) -> usize {
    t.get_atomic_actions_number(false, true)
}

fn all_actions<T: InteractionInterpretableAsTraceActions>(t: &T) -> Vec<TraceAction> {
    t.get_all_trace_actions()
}

fn pruned<T: LifelinePrunable>(t: &T, lf: usize, ctx: &GeneralContext) -> (bool, bool, T) {
    (t.avoids(lf), t.avoids_all_of(&set(&[lf])), t.prune(&set(&[lf]), ctx))
}

fn avoidance<T: LifelinePrunable>(t: &T, ctx: &GeneralContext) -> Vec<bool> {
    t.get_avoidance_map(ctx)
}

#[test]
fn terms_are_prunable_and_stand_for_actions() {
    let ctx = table();
    let term = alt(emit(A, M, vec![B]), emit(C, N, vec![]));
    assert_eq!(number_of_actions(&term), 3);
    assert_eq!(all_actions(&term), vec![emits(A, M), receives(B, M), emits(C, N)]);
    assert_eq!(pruned(&term, A, &ctx), (true, true, emit(C, N, vec![])));
    assert_eq!(avoidance(&term, &ctx), vec![true, true, true]);
    assert_eq!(avoidance(&emit(A, M, vec![B]), &ctx), vec![false, false, true]);
}

#[test]
fn the_verdict_of_an_analysis_only_rises() {
    let (fail, weak_fail, weak_pass, pass) = (
        AnalysisGlobalVerdict::Fail,
        AnalysisGlobalVerdict::WeakFail,
        AnalysisGlobalVerdict::WeakPass,
        AnalysisGlobalVerdict::Pass,
    );
    let lack = InconcReason::LackObs;
    assert_eq!(AnalysisGlobalVerdict::get_baseline_verdict(), fail);
    assert_eq!(fail.update_with_local_verdict(&AnalysisLocalVerdict::Out(false)), fail);
    assert_eq!(fail.update_with_local_verdict(&AnalysisLocalVerdict::Out(true)), weak_fail);
    assert_eq!(weak_fail.update_with_local_verdict(&AnalysisLocalVerdict::Out(false)), weak_fail);
    assert_eq!(
        weak_fail.update_with_local_verdict(&AnalysisLocalVerdict::Inconc(lack)),
        AnalysisGlobalVerdict::Inconc(lack)
    );
    assert_eq!(
        AnalysisGlobalVerdict::Inconc(InconcReason::FilteredNodes).update_with_local_verdict(&AnalysisLocalVerdict::Inconc(lack)),
        AnalysisGlobalVerdict::Inconc(InconcReason::FilteredNodes)
    );
    assert_eq!(AnalysisGlobalVerdict::Inconc(lack).update_with_local_verdict(&AnalysisLocalVerdict::GloPref), weak_pass);
    assert_eq!(fail.update_with_local_verdict(&AnalysisLocalVerdict::MultiPref), weak_pass);
    assert_eq!(fail.update_with_local_verdict(&AnalysisLocalVerdict::Slice), weak_pass);
    assert_eq!(weak_pass.update_with_local_verdict(&AnalysisLocalVerdict::Out(false)), weak_pass);
    assert_eq!(weak_pass.update_with_local_verdict(&AnalysisLocalVerdict::Cov), pass);
    assert_eq!(pass.update_with_local_verdict(&AnalysisLocalVerdict::Out(false)), pass);
    assert!(!pass.is_goal_reached(&None));
    assert!(pass.is_goal_reached(&Some(weak_pass)));
    assert!(weak_pass.is_goal_reached(&Some(weak_pass)));
    assert!(!AnalysisGlobalVerdict::Inconc(lack).is_goal_reached(&Some(weak_pass)));
    assert!(fail.is_goal_reached(&Some(fail)));
    assert_eq!(
        fail.update_knowing_nodes_were_filtered_out(true),
        AnalysisGlobalVerdict::Inconc(InconcReason::FilteredNodes)
    );
    assert_eq!(
        weak_fail.update_knowing_nodes_were_filtered_out(true),
        AnalysisGlobalVerdict::Inconc(InconcReason::FilteredNodes)
    );
    assert_eq!(fail.update_knowing_nodes_were_filtered_out(false), fail);
    assert_eq!(weak_pass.update_knowing_nodes_were_filtered_out(true), weak_pass);
    assert_eq!(AnalysisGlobalVerdict::Inconc(lack).update_knowing_nodes_were_filtered_out(true), AnalysisGlobalVerdict::Inconc(lack));
}

#[test]
fn steps_are_taken_only_where_they_can_be() {
    let ctx = context(vec![emits(A, M)], vec![]);
    let param = AnalysisParameterization::new(None, false);
    let node = AnalysisNodeKind::new(emit(A, M, vec![B]), MultiTraceAnalysisFlags::new_init(2, 0, 0), 0);
    let steps = AnalysisProcessHandler::try_collect_next_steps(&ctx, &param, &node);
    let step = AnalysisStepKind::Execute(elt(here(), emits(A, M), 0), None);
    assert_eq!(steps, Some(vec![step.clone()]));
    let next = AnalysisProcessHandler::try_process_new_step(&ctx, &param, &node, &step);
    let expected = AnalysisNodeKind::new(
        recv(M, vec![B]),
        MultiTraceAnalysisFlags::new(
            vec![TraceAnalysisFlags::new(1, false, true, 0, 0), TraceAnalysisFlags::new_init()],
            0,
            0,
        ),
        0,
    );
    assert_eq!(next, Some(expected.clone()));
    assert_eq!(next.clone().map(|n| n.clone()), Some(expected));
    // an action that cannot fire at the position
    let wrong = AnalysisStepKind::Execute(elt(at(0), receives(B, M), 0), None);
    assert_eq!(AnalysisProcessHandler::try_process_new_step(&ctx, &param, &node, &wrong), None);
    let wrong = AnalysisStepKind::Execute(elt(here(), emits(A, N), 0), None);
    assert_eq!(AnalysisProcessHandler::try_process_new_step(&ctx, &param, &node, &wrong), None);
    // a lifeline without a trace
    let lost = AnalysisNodeKind::new(emit(C, M, vec![]), MultiTraceAnalysisFlags::new_init(2, 0, 0), 0);
    let step_c = AnalysisStepKind::Execute(elt(here(), emits(C, M), 0), None);
    assert_eq!(AnalysisProcessHandler::try_process_new_step(&ctx, &param, &lost, &step_c), None);
    // a loop depth that overflows
    let deep = AnalysisNodeKind::new(emit(A, M, vec![B]), MultiTraceAnalysisFlags::new_init(2, 0, 0), u32::MAX);
    let step_deep = AnalysisStepKind::Execute(elt(here(), emits(A, M), 1), None);
    assert_eq!(AnalysisProcessHandler::try_process_new_step(&ctx, &param, &deep, &step_deep), None);
    // a made-up step without budget
    let cfg = SimulationConfiguration::new(
        false,
        false,
        false,
        SimulationLoopCriterion::NoLimit,
        SimulationActionCriterion::NoLimit,
    );
    let with_sim = AnalysisParameterization::new(Some(cfg), false);
    let made_up = AnalysisStepKind::Execute(
        elt(here(), emits(A, M), 0),
        Some(SimulationStepKind::AfterEnd),
    );
    assert_eq!(AnalysisProcessHandler::try_process_new_step(&ctx, &with_sim, &node, &made_up), None);
    let funded = AnalysisNodeKind::new(emit(A, M, vec![B]), MultiTraceAnalysisFlags::new_init(2, 0, 1), 0);
    assert!(AnalysisProcessHandler::try_process_new_step(&ctx, &with_sim, &funded, &made_up).is_some());
    // a term that does not fit the table, more flags than traces, a lifeline without a trace
    let odd = AnalysisNodeKind::new(unknown_type(), MultiTraceAnalysisFlags::new_init(2, 0, 0), 0);
    assert_eq!(AnalysisProcessHandler::try_collect_next_steps(&ctx, &param, &odd), None);
    let many = AnalysisNodeKind::new(Interaction::Empty, MultiTraceAnalysisFlags::new_init(3, 0, 0), 0);
    assert_eq!(AnalysisProcessHandler::try_collect_next_steps(&ctx, &param, &many), None);
    assert_eq!(AnalysisProcessHandler::try_collect_next_steps(&ctx, &with_sim, &lost), None);
    assert!(AnalysisProcessHandler::try_collect_next_steps(&ctx, &param, &lost).is_some());
}

#[test]
fn budgets_are_checked_before_they_are_refilled() {
    let cfg = |multiply, loops, acts| SimulationConfiguration::new(false, true, multiply, loops, acts);
    let term = lp(emit(A, M, vec![B]));
    let fits = cfg(true, SimulationLoopCriterion::MaxNum, SimulationActionCriterion::MaxNumOutsideLoops);
    assert!(fits.do_budgets_fit(1000, &term));
    let big = cfg(
        true,
        SimulationLoopCriterion::SpecificNum(u32::MAX),
        SimulationActionCriterion::NoLimit,
    );
    assert!(big.do_budgets_fit(1, &term));
    assert!(!big.do_budgets_fit(2, &term));
    let plain = cfg(
        false,
        SimulationLoopCriterion::SpecificNum(u32::MAX),
        SimulationActionCriterion::SpecificNum(u32::MAX),
    );
    assert!(plain.do_budgets_fit(usize::MAX, &term));
    // a budget of nothing fits whatever the number of traces, and so does
    // any budget for no trace at all
    let nothing = cfg(true, SimulationLoopCriterion::NoLimit, SimulationActionCriterion::SpecificNum(0));
    assert!(nothing.do_budgets_fit(usize::MAX, &term));
    assert_eq!(nothing.get_reset_rem_loop(usize::MAX, &term), 0);
    assert_eq!(nothing.get_reset_rem_act(usize::MAX, &term), 0);
    assert!(big.do_budgets_fit(0, &term));
    assert_eq!(big.get_reset_rem_loop(0, &term), 0);
    assert_eq!(big.get_reset_rem_loop(1, &term), u32::MAX);
    assert_eq!(fits.get_reset_rem_loop(1000, &term), 1000);
    assert_eq!(fits.get_reset_rem_act(1000, &term), 0);
    let outside = cfg(true, SimulationLoopCriterion::MaxDepth, SimulationActionCriterion::MaxNumOutsideLoops);
    let wide = seq(emit(A, M, vec![B]), term.clone());
    assert_eq!(outside.get_reset_rem_act(3, &wide), 6);
    assert_eq!(outside.get_reset_rem_loop(3, &wide), 3);
    assert!(!outside.do_budgets_fit(usize::MAX, &wide));
    let flags = MultiTraceAnalysisFlags::new(vec![TraceAnalysisFlags::new(usize::MAX, false, false, 0, 0)], 3, 1);
    assert!(!flags.can_update_with(&None, 0, &None, 0, &term));
    assert!(flags.can_update_with(&None, 1, &None, 0, &term));
    assert!(flags.can_update_with(&None, 0, &Some(SimulationStepKind::AfterEnd), 0, &term));
    assert!(flags.can_update_with(&Some(big), 0, &Some(SimulationStepKind::AfterEnd), 3, &term));
    assert!(!flags.can_update_with(&Some(big), 0, &Some(SimulationStepKind::AfterEnd), 4, &term));
}

#[test]
fn exploration_steps_are_taken_only_where_they_can_be() {
    let ctx = ExplorationContext { gen_ctx: table() };
    let param = ExplorationParameterization { concretize: false };
    let node = ExplorationNodeKind::new(emit(A, M, vec![]), 1);
    let step = ExplorationStepKind::Execute(elt(here(), emits(A, M), 2));
    assert_eq!(
        ExplorationProcessHandler::try_collect_next_steps(&ctx, &param, &node),
        Some(vec![ExplorationStepKind::Execute(elt(here(), emits(A, M), 0))])
    );
    assert_eq!(
        ExplorationProcessHandler::try_process_new_step(&ctx, &node, &step),
        Some(ExplorationNodeKind::new(Interaction::Empty, 3))
    );
    let wrong = ExplorationStepKind::Execute(elt(left(here()), emits(A, M), 0));
    assert_eq!(ExplorationProcessHandler::try_process_new_step(&ctx, &node, &wrong), None);
    let odd = ExplorationNodeKind::new(unknown_type(), 0);
    assert_eq!(ExplorationProcessHandler::try_collect_next_steps(&ctx, &param, &odd), None);
    assert_eq!(node.clone(), node);
}
