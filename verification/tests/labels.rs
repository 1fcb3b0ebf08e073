use hibou_label::action::BroadcastPrimitive;
use hibou_label::context::GeneralContext;
use hibou_label::labels::{
    broadcast_prim_as_gv_label, diagram_repr_message, flatten, text_repr_message,
    trace_action_as_htf_encoding, TextKind, TextPiece,
};
use hibou_label::message::MessageTypeExpression;
use hibou_label::trace::{TraceAction, TraceActionKind};
use std::collections::HashSet;

/// Lifelines `a`, `b`, `c`, messages `m`, `n`, and the types `t = {m, n}`
/// and `u = {n}`.
fn table() -> GeneralContext {
    let mut ctx = GeneralContext::new();
    ctx.add_lf("a".to_string());
    ctx.add_lf("b".to_string());
    ctx.add_lf("c".to_string());
    ctx.add_msg("m".to_string());
    ctx.add_msg("n".to_string());
    ctx.add_mt("t".to_string(), HashSet::from([0, 1]));
    ctx.add_mt("u".to_string(), HashSet::from([1]));
    ctx
}

fn single(m: usize) -> MessageTypeExpression {
    MessageTypeExpression::Singleton(m)
}

fn named(t: usize) -> MessageTypeExpression {
    MessageTypeExpression::NamedType(t)
}

fn union(a: MessageTypeExpression, b: MessageTypeExpression) -> MessageTypeExpression {
    MessageTypeExpression::Union(Box::new(a), Box::new(b))
}

fn inter(a: MessageTypeExpression, b: MessageTypeExpression) -> MessageTypeExpression {
    MessageTypeExpression::Intersection(Box::new(a), Box::new(b))
}

fn minus(a: MessageTypeExpression, b: MessageTypeExpression) -> MessageTypeExpression {
    MessageTypeExpression::SetMinus(Box::new(a), Box::new(b))
}

fn piece(text: &str, kind: TextKind) -> TextPiece {
    TextPiece { text: text.to_string(), kind }
}

#[test]
fn a_message_stands_between_braces_and_a_type_by_its_name() {
    let ctx = table();
    assert_eq!(
        diagram_repr_message(&single(1), &ctx),
        vec![
            piece("{", TextKind::GrammarSymbol),
            piece("n", TextKind::Message),
            piece("}", TextKind::GrammarSymbol),
        ]
    );
    assert_eq!(diagram_repr_message(&named(0), &ctx), vec![piece("t", TextKind::MessageKind)]);
    assert_eq!(text_repr_message(&single(0), &ctx), "{m}");
    assert_eq!(text_repr_message(&named(1), &ctx), "u");
}

#[test]
fn operands_stand_between_brackets_where_the_operator_changes() {
    let ctx = table();
    let text = |m: MessageTypeExpression| text_repr_message(&m, &ctx);
    assert_eq!(text(union(single(0), named(1))), "{m}∪u");
    assert_eq!(text(union(union(single(0), named(1)), named(0))), "{m}∪u∪t");
    assert_eq!(text(union(inter(single(0), named(1)), named(0))), "({m}∩u)∪t");
    assert_eq!(text(inter(named(0), inter(named(1), named(0)))), "t∩u∩t");
    assert_eq!(text(inter(named(0), union(named(1), named(0)))), "t∩(u∪t)");
    assert_eq!(text(minus(named(0), named(1))), "t\\u");
    assert_eq!(text(minus(minus(named(0), named(1)), union(single(0), single(1)))), "(t\\u)\\({m}∪{n})");
    assert_eq!(text(union(named(0), minus(named(0), named(1)))), "t∪(t\\u)");
    assert_eq!(
        diagram_repr_message(&union(minus(named(0), named(1)), named(0)), &ctx),
        vec![
            piece("(", TextKind::GrammarSymbol),
            piece("t", TextKind::MessageKind),
            piece("\\", TextKind::GrammarSymbol),
            piece("u", TextKind::MessageKind),
            piece(")", TextKind::GrammarSymbol),
            piece("∪", TextKind::GrammarSymbol),
            piece("t", TextKind::MessageKind),
        ]
    );
    assert_eq!(flatten(&vec![]), "");
    assert_eq!(
        flatten(&vec![piece("ab", TextKind::Message), piece("c", TextKind::GrammarSymbol)]),
        "abc"
    );
}

#[test]
fn a_broadcast_is_labelled_by_origin_targets_and_message() {
    let ctx = table();
    let label = |origin, message, targets| {
        broadcast_prim_as_gv_label(&ctx, &BroadcastPrimitive::new(origin, message, targets))
    };
    assert_eq!(label(Some(0), single(0), vec![1, 2]), "a!(b,c){m}");
    assert_eq!(label(Some(1), named(0), vec![]), "b!t");
    assert_eq!(label(Some(2), single(1), vec![0]), "c!(a){n}");
    assert_eq!(label(None, single(0), vec![1, 2, 0]), "(b,c,a)?{m}");
    assert_eq!(label(None, union(single(0), named(1)), vec![1]), "(b)?{m}∪u");
    assert_eq!(label(None, single(0), vec![]), "?{m}");
}

#[test]
fn an_action_of_a_trace_is_written_with_the_sign_of_its_kind() {
    let ctx = table();
    let write = |lf, kind, message| {
        trace_action_as_htf_encoding(&ctx, &TraceAction::new(lf, kind, message))
    };
    assert_eq!(write(0, TraceActionKind::Emission, single(0)), "a!m");
    assert_eq!(write(1, TraceActionKind::Reception, single(1)), "b?n");
    assert_eq!(write(2, TraceActionKind::Emission, named(1)), "c!n");
    assert_eq!(write(2, TraceActionKind::Reception, inter(named(0), single(0))), "c?m");
}
