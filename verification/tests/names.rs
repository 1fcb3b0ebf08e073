use hibou_label::action::BroadcastPrimitive;
use hibou_label::context::GeneralContext;
use hibou_label::interaction::Interaction;
use hibou_label::message::MessageTypeExpression;
use hibou_label::naming::{
    get_trace_action, parse_comm_act_targets_as_lifelines, parse_communication_action,
    parse_coreg, parse_message, parse_signature, trace_action_from_text,
    trace_sequence_from_pair, HibouParsingError, SetupFault, SignatureSection, TargetsText,
    TraceActionText, TypeDeclaration,
};
use hibou_label::trace::{TraceAction, TraceActionKind};
use std::collections::HashSet;

fn set(ids: &[usize]) -> HashSet<usize> {
    ids.iter().cloned().collect()
}

fn names(texts: &[&str]) -> Vec<String> {
    texts.iter().map(|t| t.to_string()).collect()
}

/// Lifelines `a`, `b`, `c`, messages `m`, `n`, and the type `t = {m, n}`.
fn table() -> GeneralContext {
    let mut ctx = GeneralContext::new();
    ctx.add_lf("a".to_string());
    ctx.add_lf("b".to_string());
    ctx.add_lf("c".to_string());
    ctx.add_msg("m".to_string());
    ctx.add_msg("n".to_string());
    ctx.add_mt("t".to_string(), set(&[0, 1]));
    ctx
}

fn written(lifeline: &str, act_kind: TraceActionKind, message: &str) -> TraceActionText {
    TraceActionText { lifeline: lifeline.to_string(), act_kind, message: message.to_string() }
}

fn missing_lifeline(name: &str) -> HibouParsingError {
    HibouParsingError::MissingLifelineDeclarationError(name.to_string())
}

fn missing_message(name: &str) -> HibouParsingError {
    HibouParsingError::MissingMessageDeclarationError(name.to_string())
}

#[test]
fn a_co_region_names_declared_lifelines_once() {
    let ctx = table();
    assert_eq!(parse_coreg(&ctx, &names(&["c", "a"])), Ok(vec![2, 0]));
    assert_eq!(parse_coreg(&ctx, &names(&[])), Ok(vec![]));
    assert_eq!(parse_coreg(&ctx, &names(&["a", "x", "a"])), Err(missing_lifeline("x")));
    assert_eq!(
        parse_coreg(&ctx, &names(&["a", "b", "a", "x"])),
        Err(HibouParsingError::OtherDefinitionError("a".to_string()))
    );
}

#[test]
fn targets_are_one_lifeline_several_or_the_environment() {
    let ctx = table();
    let parse = |t: TargetsText| parse_comm_act_targets_as_lifelines(&ctx, &t);
    assert_eq!(parse(TargetsText::One("b".to_string())), Ok(vec![1]));
    assert_eq!(parse(TargetsText::One("x".to_string())), Err(missing_lifeline("x")));
    assert_eq!(parse(TargetsText::Several(names(&["b", "a"]))), Ok(vec![1, 0]));
    assert_eq!(
        parse(TargetsText::Several(names(&["b", "b"]))),
        Err(HibouParsingError::EmissionDefinitionError("b".to_string()))
    );
    assert_eq!(parse(TargetsText::Several(names(&["b", "y", "b"]))), Err(missing_lifeline("y")));
    assert_eq!(parse(TargetsText::Environment), Ok(vec![]));
}

#[test]
fn a_name_stands_for_a_message_or_else_for_a_type() {
    let mut ctx = table();
    ctx.add_mt("m".to_string(), set(&[1]));
    assert_eq!(parse_message(&ctx, &"m".to_string()), Ok(MessageTypeExpression::Singleton(0)));
    assert_eq!(parse_message(&ctx, &"t".to_string()), Ok(MessageTypeExpression::NamedType(0)));
    assert_eq!(parse_message(&ctx, &"a".to_string()), Err(missing_message("a")));
}

#[test]
fn a_broadcast_is_read_from_origin_message_and_targets() {
    let ctx = table();
    let read = |origin: Option<&str>, message: &str, targets: TargetsText| {
        parse_communication_action(
            &ctx,
            &origin.map(|o| o.to_string()),
            &message.to_string(),
            &targets,
        )
    };
    assert_eq!(
        read(Some("a"), "m", TargetsText::Several(names(&["b", "c"]))),
        Ok(Interaction::Action(BroadcastPrimitive::new(
            Some(0),
            MessageTypeExpression::Singleton(0),
            vec![1, 2]
        )))
    );
    assert_eq!(
        read(None, "t", TargetsText::One("c".to_string())),
        Ok(Interaction::Action(BroadcastPrimitive::new(
            None,
            MessageTypeExpression::NamedType(0),
            vec![2]
        )))
    );
    assert_eq!(
        read(Some("b"), "n", TargetsText::Environment),
        Ok(Interaction::Action(BroadcastPrimitive::new(
            Some(1),
            MessageTypeExpression::Singleton(1),
            vec![]
        )))
    );
    // the first name that is not declared is the fault
    assert_eq!(read(Some("x"), "y", TargetsText::One("z".to_string())), Err(missing_lifeline("x")));
    assert_eq!(read(Some("a"), "y", TargetsText::One("z".to_string())), Err(missing_message("y")));
    assert_eq!(read(Some("a"), "m", TargetsText::One("z".to_string())), Err(missing_lifeline("z")));
}

#[test]
fn an_action_of_a_trace_names_a_lifeline_and_a_message() {
    let ctx = table();
    let read = |lf: &str, kind, ms: &str| {
        trace_action_from_text(&ctx, &lf.to_string(), kind, &ms.to_string())
    };
    assert_eq!(
        read("b", TraceActionKind::Reception, "n"),
        Ok(TraceAction::new(1, TraceActionKind::Reception, MessageTypeExpression::Singleton(1)))
    );
    assert_eq!(read("x", TraceActionKind::Emission, "y"), Err(missing_lifeline("x")));
    assert_eq!(read("a", TraceActionKind::Emission, "y"), Err(missing_message("y")));
    // a type is no message of a trace
    assert_eq!(read("a", TraceActionKind::Emission, "t"), Err(missing_message("t")));
}

#[test]
fn the_actions_of_a_trace_belong_to_its_lifelines() {
    let ctx = table();
    let a_emits = written("a", TraceActionKind::Emission, "m");
    let b_receives = written("b", TraceActionKind::Reception, "m");
    let action_a = TraceAction::new(0, TraceActionKind::Emission, MessageTypeExpression::Singleton(0));
    let action_b = TraceAction::new(1, TraceActionKind::Reception, MessageTypeExpression::Singleton(0));
    // lifelines join the trace as they come
    let mut lifelines = set(&[]);
    assert_eq!(get_trace_action(&ctx, &a_emits, &set(&[1]), &mut lifelines, true), Ok(action_a.clone()));
    assert_eq!(lifelines, set(&[0]));
    assert_eq!(
        get_trace_action(&ctx, &b_receives, &set(&[1]), &mut lifelines, true),
        Err(HibouParsingError::NonDisjointTraceComponents)
    );
    assert_eq!(lifelines, set(&[0]));
    // or they have to be in the group that was given
    let mut group = set(&[0]);
    assert_eq!(get_trace_action(&ctx, &a_emits, &set(&[]), &mut group, false), Ok(action_a.clone()));
    assert_eq!(
        get_trace_action(&ctx, &b_receives, &set(&[]), &mut group, false),
        Err(HibouParsingError::IllDefinedTraceComponents(1))
    );
    assert_eq!(group, set(&[0]));
    let mut lifelines = set(&[]);
    assert_eq!(
        trace_sequence_from_pair(
            &ctx,
            &vec![a_emits, b_receives, written("a", TraceActionKind::Emission, "n")],
            &set(&[2]),
            &mut lifelines,
            true
        ),
        Ok(vec![
            action_a.clone(),
            action_b,
            TraceAction::new(0, TraceActionKind::Emission, MessageTypeExpression::Singleton(1))
        ])
    );
    assert_eq!(lifelines, set(&[0, 1]));
    let mut lifelines = set(&[]);
    assert_eq!(
        trace_sequence_from_pair(
            &ctx,
            &vec![
                written("a", TraceActionKind::Emission, "m"),
                written("c", TraceActionKind::Emission, "m"),
                written("b", TraceActionKind::Emission, "m")
            ],
            &set(&[2]),
            &mut lifelines,
            true
        ),
        Err(HibouParsingError::NonDisjointTraceComponents)
    );
    assert_eq!(lifelines, set(&[0]));
    assert_eq!(trace_sequence_from_pair(&ctx, &vec![], &set(&[]), &mut lifelines, false), Ok(vec![]));
}

#[test]
fn a_signature_declares_messages_lifelines_and_types() {
    let sections = vec![
        SignatureSection::Messages(names(&["m", "n", "m", "o"])),
        SignatureSection::Types(vec![
            TypeDeclaration { name: "t".to_string(), messages: names(&["o", "m"]) },
            TypeDeclaration { name: "u".to_string(), messages: names(&[]) },
            TypeDeclaration { name: "t".to_string(), messages: names(&["n"]) },
        ]),
        SignatureSection::Lifelines(names(&["a", "b"])),
    ];
    let ctx = parse_signature(&sections).unwrap();
    assert_eq!(ctx.get_ms_num(), 3);
    assert_eq!(ctx.get_ms_id("o"), Some(2));
    assert_eq!(ctx.get_lf_num(), 2);
    assert_eq!(ctx.get_lf_id("b"), Some(1));
    assert_eq!(ctx.get_mt_num(), 2);
    assert_eq!(ctx.get_mt_messages(0), Ok(set(&[0, 2])));
    assert_eq!(ctx.get_mt_messages(1), Ok(set(&[])));
    assert_eq!(ctx.get_mt_id("u"), Some(1));
    let empty = parse_signature(&vec![]).unwrap();
    assert_eq!((empty.get_lf_num(), empty.get_ms_num(), empty.get_mt_num()), (0, 0, 0));
}

#[test]
fn the_sections_of_a_signature_come_once_and_in_order() {
    let fault = |sections: Vec<SignatureSection>| match parse_signature(&sections) {
        Ok(_) => panic!("a signature that should not be accepted"),
        Err(e) => e,
    };
    let setup = |f: SetupFault| HibouParsingError::HsfSetupError(f);
    let messages = || SignatureSection::Messages(names(&["m"]));
    let lifelines = || SignatureSection::Lifelines(names(&["a"]));
    let types = |ms: &[&str]| {
        SignatureSection::Types(vec![TypeDeclaration { name: "t".to_string(), messages: names(ms) }])
    };
    assert_eq!(fault(vec![messages(), messages()]), setup(SetupFault::SeveralMessageSections));
    assert_eq!(
        fault(vec![lifelines(), messages(), lifelines()]),
        setup(SetupFault::SeveralLifelineSections)
    );
    assert_eq!(fault(vec![lifelines(), types(&["m"])]), setup(SetupFault::TypesBeforeMessages));
    assert_eq!(
        fault(vec![messages(), types(&["m"]), types(&["m"])]),
        setup(SetupFault::SeveralTypeSections)
    );
    assert_eq!(
        fault(vec![messages(), types(&["m", "x", "y"])]),
        setup(SetupFault::UnknownMessageInType("x".to_string(), "t".to_string()))
    );
    assert_eq!(
        fault(vec![types(&["m"]), messages(), messages()]),
        setup(SetupFault::TypesBeforeMessages)
    );
}
