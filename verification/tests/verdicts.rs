use hibou_label::action::BroadcastPrimitive;
use hibou_label::analysis::{
    AnalysisContext, AnalysisLocalVerdict, AnalysisNodeKind, AnalysisParameterization,
    AnalysisStepKind,
};
use hibou_label::colocalizations::CoLocalizations;
use hibou_label::context::GeneralContext;
use hibou_label::flags::MultiTraceAnalysisFlags;
use hibou_label::handler::AnalysisProcessHandler;
use hibou_label::interaction::Interaction;
use hibou_label::message::MessageTypeExpression;
use hibou_label::trace::{TraceAction, TraceActionKind};
use std::collections::HashSet;

struct Names {
    ctx: GeneralContext,
    a: usize,
    b: usize,
    c: usize,
    m: usize,
}

fn names() -> Names {
    let mut ctx = GeneralContext::new();
    let a = ctx.add_lf("a".to_string());
    let b = ctx.add_lf("b".to_string());
    let c = ctx.add_lf("c".to_string());
    let m = ctx.add_msg("m".to_string());
    Names { ctx, a, b, c, m }
}

fn msg(m: usize) -> MessageTypeExpression {
    MessageTypeExpression::Singleton(m)
}

fn action(origin: usize, m: usize, targets: Vec<usize>) -> Interaction {
    Interaction::Action(BroadcastPrimitive::new(Some(origin), msg(m), targets))
}

fn emits(lf: usize, m: usize) -> TraceAction {
    TraceAction::new(lf, TraceActionKind::Emission, msg(m))
}

fn receives(lf: usize, m: usize) -> TraceAction {
    TraceAction::new(lf, TraceActionKind::Reception, msg(m))
}

/// Walks every path of the analysis and returns the verdict of each leaf,
/// with the term that was left there.
fn leaves(
    ctx: GeneralContext,
    group: Vec<usize>,
    trace: Vec<TraceAction>,
    interaction: Interaction,
) -> Vec<(AnalysisLocalVerdict, Interaction)> {
    let context = AnalysisContext {
        gen_ctx: ctx,
        co_localizations: CoLocalizations::new(vec![group.into_iter().collect::<HashSet<usize>>()]),
        multi_trace: vec![trace],
    };
    let param = AnalysisParameterization::new(None, false);
    let root = AnalysisNodeKind::new(interaction, MultiTraceAnalysisFlags::new_init(1, 0, 0), 0);
    let mut stack = vec![root];
    let mut found = vec![];
    while let Some(node) = stack.pop() {
        let steps: Vec<AnalysisStepKind> =
            AnalysisProcessHandler::collect_next_steps(&context, &param, &node);
        if steps.is_empty() {
            let verdict = AnalysisProcessHandler::get_local_verdict_when_no_child(&context, &node);
            found.push((verdict, node.interaction.clone()));
        } else {
            for step in &steps {
                stack.push(AnalysisProcessHandler::process_new_step(&context, &param, &node, step));
            }
        }
    }
    found
}

#[test]
fn broadcast_fully_observed_is_covered() {
    let n = names();
    let i = action(n.a, n.m, vec![n.b]);
    let found = leaves(n.ctx, vec![n.a, n.b], vec![emits(n.a, n.m), receives(n.b, n.m)], i);
    assert_eq!(found.len(), 1);
    assert_eq!(found[0].0, AnalysisLocalVerdict::Cov);
    assert_eq!(found[0].1, Interaction::Empty);
}

#[test]
fn two_broadcasts_in_sequence_are_covered() {
    let n = names();
    let i = Interaction::CoReg(
        vec![],
        Box::new(action(n.a, n.m, vec![n.b])),
        Box::new(action(n.a, n.m, vec![n.c])),
    );
    let trace =
        vec![emits(n.a, n.m), emits(n.a, n.m), receives(n.b, n.m), receives(n.c, n.m)];
    let found = leaves(n.ctx, vec![n.a, n.b, n.c], trace, i);
    assert_eq!(found.len(), 1);
    assert_eq!(found[0].0, AnalysisLocalVerdict::Cov);
    assert_eq!(found[0].1, Interaction::Empty);
}

#[test]
fn choice_is_decided_by_the_reception() {
    let n = names();
    let i = Interaction::Alt(
        Box::new(action(n.a, n.m, vec![n.b])),
        Box::new(action(n.a, n.m, vec![n.c])),
    );
    let found =
        leaves(n.ctx, vec![n.a, n.b, n.c], vec![emits(n.a, n.m), receives(n.c, n.m)], i);
    assert_eq!(found.len(), 1);
    assert_eq!(found[0].0, AnalysisLocalVerdict::Cov);
    assert_eq!(found[0].1, Interaction::Empty);
}

#[test]
fn loop_iterated_twice_is_covered() {
    let n = names();
    let i = Interaction::Loop(vec![], Box::new(action(n.a, n.m, vec![n.b])));
    let trace =
        vec![emits(n.a, n.m), receives(n.b, n.m), emits(n.a, n.m), receives(n.b, n.m)];
    let found = leaves(n.ctx, vec![n.a, n.b], trace, i.clone());
    assert_eq!(found.len(), 1);
    assert_eq!(found[0].0, AnalysisLocalVerdict::Cov);
    assert_eq!(found[0].1, i);
}

#[test]
fn emission_alone_is_a_prefix() {
    let n = names();
    let i = action(n.a, n.m, vec![n.b]);
    let found = leaves(n.ctx, vec![n.a, n.b], vec![emits(n.a, n.m)], i);
    assert_eq!(found.len(), 1);
    assert_eq!(found[0].0, AnalysisLocalVerdict::GloPref);
    assert!(!found[0].1.express_empty());
}

#[test]
fn reception_before_emission_is_out() {
    let n = names();
    let i = action(n.a, n.m, vec![n.b]);
    let found = leaves(n.ctx, vec![n.a, n.b], vec![receives(n.b, n.m)], i.clone());
    assert_eq!(found.len(), 1);
    assert_eq!(found[0].0, AnalysisLocalVerdict::Out(false));
    assert_eq!(found[0].1, i);
}
