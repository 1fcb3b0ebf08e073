use hibou_label::action::BroadcastPrimitive;
use hibou_label::context::GeneralContext;
use hibou_label::interaction::Interaction;
use hibou_label::message::MessageTypeExpression;
use hibou_label::naming::{HibouParsingError, TargetsText, TraceActionText};
use hibou_label::reading::{parse_interaction, InteractionText, LoopKindText, OperatorText};
use hibou_label::sync::SyncMap;
use hibou_label::trace::TraceActionKind;
use std::collections::HashSet;

fn names(texts: &[&str]) -> Vec<String> {
    texts.iter().map(|t| t.to_string()).collect()
}

/// Lifelines `a`, `b`, `c`, messages `m`, `n`, and the type `t = {m, n}`.
fn table() -> GeneralContext {
    let mut ctx = GeneralContext::new();
    ctx.add_lf("a".to_string());
    ctx.add_lf("b".to_string());
    ctx.add_lf("c".to_string());
    ctx.add_msg("m".to_string());
    ctx.add_msg("n".to_string());
    ctx.add_mt("t".to_string(), HashSet::from([0, 1]));
    ctx
}

fn says(origin: &str, message: &str) -> InteractionText {
    InteractionText::Action {
        origin: Some(origin.to_string()),
        message: message.to_string(),
        targets: TargetsText::Environment,
    }
}

fn emit(origin: usize, m: usize) -> Interaction {
    Interaction::Action(BroadcastPrimitive::new(
        Some(origin),
        MessageTypeExpression::Singleton(m),
        vec![],
    ))
}

fn nary(op: OperatorText, operands: Vec<InteractionText>) -> InteractionText {
    let mut operands = operands.into_iter();
    let first = operands.next().unwrap();
    InteractionText::Nary(op, Box::new(first), operands.collect())
}

fn act(lifeline: &str, act_kind: TraceActionKind, message: &str) -> TraceActionText {
    TraceActionText { lifeline: lifeline.to_string(), act_kind, message: message.to_string() }
}

#[test]
fn leaves_are_read_as_they_are_written() {
    let ctx = table();
    assert_eq!(parse_interaction(&ctx, &InteractionText::Empty), Ok(Interaction::Empty));
    assert_eq!(parse_interaction(&ctx, &says("b", "n")), Ok(emit(1, 1)));
    assert_eq!(
        parse_interaction(&ctx, &says("x", "n")),
        Err(HibouParsingError::MissingLifelineDeclarationError("x".to_string()))
    );
}

#[test]
fn operators_with_several_operands_are_folded_to_the_right() {
    let ctx = table();
    let three = || vec![says("a", "m"), says("b", "m"), says("c", "m")];
    let (x, y, z) = (emit(0, 0), emit(1, 0), emit(2, 0));
    let coreg = |cr: Vec<usize>, i1: &Interaction, i2: Interaction| {
        Interaction::CoReg(cr, Box::new(i1.clone()), Box::new(i2))
    };
    assert_eq!(
        parse_interaction(&ctx, &nary(OperatorText::Sequence, three())),
        Ok(coreg(vec![], &x, coreg(vec![], &y, z.clone())))
    );
    assert_eq!(
        parse_interaction(&ctx, &nary(OperatorText::Par, three())),
        Ok(coreg(vec![0, 1, 2], &x, coreg(vec![0, 1, 2], &y, z.clone())))
    );
    assert_eq!(
        parse_interaction(&ctx, &nary(OperatorText::CoReg(names(&["c", "a"])), three())),
        Ok(coreg(vec![2, 0], &x, coreg(vec![2, 0], &y, z.clone())))
    );
    assert_eq!(
        parse_interaction(&ctx, &nary(OperatorText::Alt, three())),
        Ok(Interaction::Alt(
            Box::new(x.clone()),
            Box::new(Interaction::Alt(Box::new(y.clone()), Box::new(z.clone())))
        ))
    );
    assert_eq!(parse_interaction(&ctx, &nary(OperatorText::Alt, vec![says("a", "m")])), Ok(x.clone()));
    let mut map = SyncMap::new();
    map.insert(1, TraceActionKind::Reception, MessageTypeExpression::NamedType(0));
    map.insert(0, TraceActionKind::Emission, MessageTypeExpression::Singleton(1));
    let written = OperatorText::Sync(vec![
        act("a", TraceActionKind::Emission, "m"),
        act("b", TraceActionKind::Reception, "t"),
        act("a", TraceActionKind::Emission, "n"),
    ]);
    assert_eq!(
        parse_interaction(&ctx, &nary(written, vec![says("a", "m"), says("b", "m")])),
        Ok(Interaction::Sync(map, Box::new(x), Box::new(y)))
    );
}

#[test]
fn loops_are_read_with_the_co_region_of_their_kind() {
    let ctx = table();
    let looped = |kind| parse_interaction(&ctx, &InteractionText::Loop(kind, Box::new(says("a", "m"))));
    let around = |cr: Vec<usize>| Ok(Interaction::Loop(cr, Box::new(emit(0, 0))));
    assert_eq!(looped(LoopKindText::Weak), around(vec![]));
    assert_eq!(looped(LoopKindText::Parallel), around(vec![0, 1, 2]));
    assert_eq!(looped(LoopKindText::CoRegion(names(&["b"]))), around(vec![1]));
    assert_eq!(
        looped(LoopKindText::CoRegion(names(&["b", "b"]))),
        Err(HibouParsingError::OtherDefinitionError("b".to_string()))
    );
}

#[test]
fn the_first_fault_in_the_order_of_the_text_is_reported() {
    let ctx = table();
    let missing = |name: &str| Err(HibouParsingError::MissingLifelineDeclarationError(name.to_string()));
    // the operator comes before its operands
    assert_eq!(
        parse_interaction(
            &ctx,
            &nary(OperatorText::CoReg(names(&["x"])), vec![says("y", "m"), says("z", "m")])
        ),
        missing("x")
    );
    assert_eq!(
        parse_interaction(
            &ctx,
            &nary(
                OperatorText::Sync(vec![act("a", TraceActionKind::Emission, "q")]),
                vec![says("y", "m")]
            )
        ),
        Err(HibouParsingError::MissingMessageDeclarationError("q".to_string()))
    );
    // the operands come in their order
    assert_eq!(
        parse_interaction(
            &ctx,
            &nary(OperatorText::Alt, vec![says("a", "m"), says("y", "m"), says("z", "m")])
        ),
        missing("y")
    );
    assert_eq!(
        parse_interaction(&ctx, &nary(OperatorText::Alt, vec![says("y", "m"), says("z", "m")])),
        missing("y")
    );
    // the body of a loop comes before its kind
    assert_eq!(
        parse_interaction(
            &ctx,
            &InteractionText::Loop(LoopKindText::CoRegion(names(&["x"])), Box::new(says("y", "m")))
        ),
        missing("y")
    );
    // faults come up from below
    let deep = nary(
        OperatorText::Sequence,
        vec![
            says("a", "m"),
            InteractionText::Loop(
                LoopKindText::Weak,
                Box::new(nary(OperatorText::Alt, vec![says("b", "m"), says("b", "q")])),
            ),
        ],
    );
    assert_eq!(
        parse_interaction(&ctx, &deep),
        Err(HibouParsingError::MissingMessageDeclarationError("q".to_string()))
    );
}
